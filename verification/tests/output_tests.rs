use hostctl::cli::{normalize_items, plan, CommandLineArgs, Plan};
use hostctl::output::{
    base_name, dump_recipe_dir, dump_recipes, execution_lines_error_output, get_execution_lines,
    output, output_str, recipe_candidates, recipe_dir_title, Color, ExecutionLinesError,
    OutputType,
};

fn strings(v: &[&str]) -> Vec<String> {
    v.iter().map(|s| s.to_string()).collect()
}

fn args() -> CommandLineArgs {
    CommandLineArgs {
        command: String::new(),
        execute_local: false,
        recipe: String::new(),
        nodes: false,
        show: false,
        array: false,
        json: false,
        debug: false,
        forcecolor: false,
        quiet: false,
        batchmode: false,
        inscreen: String::new(),
        optssh: String::new(),
        login: false,
        sudo: false,
        term: false,
        wait: 0,
        prompt: false,
        makeselection: false,
        knownhostsaccept: false,
        log_level: "info".to_string(),
        items: Vec::new(),
    }
}

#[test]
fn colors_and_exit() {
    let m = output("boom".to_string(), OutputType::Fatal);
    assert_eq!((m.color, m.exit, m.text.as_str()), (Color::Red, true, "boom"));
    assert_eq!(output_str("i", OutputType::Info).color, Color::Green);
    assert_eq!(output_str("d", OutputType::Debug).color, Color::Yellow);
    assert_eq!(output_str("e", OutputType::Error).color, Color::Red);
    assert!(!output_str("e", OutputType::Error).exit);
    assert_eq!(output_str("x", OutputType::Detail).color, Color::Red);
}

#[test]
fn command_comes_first() {
    let files = vec![Some(strings(&["echo recipe"]))];
    let r = get_execution_lines(&"df -h".to_string(), &"r".to_string(), &files);
    assert_eq!(r, Ok(strings(&["df -h\n"])));
}

#[test]
fn recipe_from_first_file_found() {
    let files = vec![None, Some(strings(&["a", "b"])), Some(strings(&["c"]))];
    let r = get_execution_lines(&String::new(), &"r".to_string(), &files);
    assert_eq!(r, Ok(strings(&["a", "b"])));
    let files = vec![None, Some(Vec::new()), Some(strings(&["c"]))];
    let r = get_execution_lines(&String::new(), &"r".to_string(), &files);
    assert_eq!(r, Err(ExecutionLinesError::RecipeMissing));
    let r = get_execution_lines(&String::new(), &"r".to_string(), &vec![None, None, None]);
    assert_eq!(r, Err(ExecutionLinesError::RecipeMissing));
    let r = get_execution_lines(&String::new(), &String::new(), &Vec::new());
    assert_eq!(r, Ok(Vec::new()));
    let m = execution_lines_error_output(ExecutionLinesError::RecipeMissing);
    assert_eq!(m.text, "Did not found a recipe or recipe was empty");
    assert!(m.exit);
}

#[test]
fn recipe_places() {
    assert_eq!(
        recipe_candidates("/home/u", "/opt/hostctl", "apache_status"),
        strings(&[
            "/home/u/.hostctl/recipe/apache_status",
            "/opt/hostctl/recipe/apache_status",
            "apache_status"
        ])
    );
    let l = dump_recipes("/home/u", "/opt/hostctl");
    assert_eq!(l.heading.text, "\nAvailable recipes:\n");
    assert_eq!(l.dirs, strings(&["/home/u/.hostctl/recipe/", "/opt/hostctl/recipe/"]));
    assert_eq!(recipe_dir_title("/d"), "Directory: /d");
}

#[test]
fn recipe_rows() {
    assert_eq!(base_name("/opt/hostctl/recipe/apache_status"), "apache_status");
    assert_eq!(base_name("plain"), "plain");
    let rows = dump_recipe_dir(&strings(&["/r/a", "/r/b.sh"]));
    assert_eq!(rows[1].shortcut, "b.sh");
    assert_eq!(rows[1].full_path, "/r/b.sh");
}

#[test]
fn items_lose_commas() {
    assert_eq!(normalize_items(&strings(&["web1,", "db,2"])), strings(&["web1", "db2"]));
}

#[test]
fn plans() {
    let mut a = args();
    a.show = true;
    match plan(&a) {
        Plan::ShowGroups { items, json } => {
            assert_eq!(items, strings(&["all"]));
            assert!(!json);
        }
        _ => panic!("show"),
    }
    let mut a = args();
    a.array = true;
    a.items = strings(&["web1,"]);
    match plan(&a) {
        Plan::BatchList { items } => assert_eq!(items, strings(&["web1"])),
        _ => panic!("array"),
    }
    let mut a = args();
    a.command = "df".to_string();
    a.execute_local = true;
    a.nodes = true;
    assert!(matches!(plan(&a), Plan::Execute { only_nodes: true, local: true, .. }));
    let mut a = args();
    a.command = "df".to_string();
    a.recipe = "r".to_string();
    a.login = true;
    a.sudo = true;
    match plan(&a) {
        Plan::Login { lines, .. } => assert_eq!(lines, strings(&["sudo -i"])),
        _ => panic!("login"),
    }
    assert!(matches!(plan(&args()), Plan::Help));
}
