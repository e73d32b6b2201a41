use hostctl::cli::CommandLineArgs;
use hostctl::execute::{
    after_choice_from, append_host, base_command, execution_outcome, get_shell, local_command,
    local_lines, prepare_node, remote_command, screen_paste_commands, script_text,
    selection_from, selection_outcome, template_lines, AfterChoice, NodeRequest, NodeResult,
    Selection, SessionGuard,
};
use hostctl::output::Color;

fn strings(v: &[&str]) -> Vec<String> {
    v.iter().map(|s| s.to_string()).collect()
}

fn args() -> CommandLineArgs {
    CommandLineArgs {
        command: String::new(),
        execute_local: false,
        recipe: String::new(),
        nodes: false,
        show: false,
        array: false,
        json: false,
        debug: false,
        forcecolor: false,
        quiet: false,
        batchmode: false,
        inscreen: String::new(),
        optssh: String::new(),
        login: false,
        sudo: false,
        term: false,
        wait: 0,
        prompt: false,
        makeselection: false,
        knownhostsaccept: false,
        log_level: "info".to_string(),
        items: Vec::new(),
    }
}

#[test]
fn host_placeholder_is_replaced() {
    let lines = strings(&["rsync -avP /tmp/foo HOST:/tmp/bar\n", "echo done"]);
    assert_eq!(
        template_lines(&lines, &"web1".to_string()),
        strings(&["rsync -avP /tmp/foo web1:/tmp/bar\n", "echo done"])
    );
}

#[test]
fn local_lines_append_host_where_absent() {
    let node = "web1".to_string();
    assert_eq!(local_lines(&strings(&["ping -c1\n"]), &node), strings(&["ping -c1 web1\n"]));
    assert_eq!(local_lines(&strings(&["a", "b"]), &node), strings(&["a", "b web1"]));
    assert_eq!(local_lines(&strings(&["ssh HOST", "b"]), &node), strings(&["ssh web1", "b"]));
    assert_eq!(local_lines(&Vec::new(), &node), Vec::<String>::new());
    assert_eq!(append_host("x", "h"), "x h");
}

#[test]
fn shell_request() {
    let r = get_shell("web1".to_string());
    assert_eq!(r.node, "web1");
    assert_eq!(r.iter_information, "Shell");
    assert!(r.local_execution);
    assert_eq!(r.execution_lines, strings(&["ssh HOST"]));
}

#[test]
fn node_plan_lists_lines() {
    let req = NodeRequest {
        node: "db1".to_string(),
        iter_information: " [1/2]".to_string(),
        local_execution: false,
        execution_lines: strings(&["uptime HOST\n", "df"]),
    };
    let p = prepare_node(&req, &args());
    assert_eq!(p.header.text, "*** HOST: db1  [1/2]\n");
    assert!(!p.ask_selection);
    assert!(!p.runs_locally);
    assert_eq!(p.header.color, Color::Green);
    assert_eq!(p.lines, strings(&["uptime db1\n", "df"]));
    let listing: Vec<String> = p.listing.iter().map(|r| r.text.clone()).collect();
    assert_eq!(listing, strings(&["#0: uptime db1\n", "#1: df"]));
    let req = NodeRequest { local_execution: true, ..req };
    let a = CommandLineArgs { makeselection: true, ..args() };
    let p = prepare_node(&req, &a);
    assert_eq!(p.header.text, "*** LOCAL: db1  [1/2]\n");
    assert!(p.ask_selection);
    assert!(p.runs_locally);
}

#[test]
fn answers_map_to_choices() {
    assert_eq!(selection_from("Execute"), Selection::Execute);
    assert_eq!(selection_from("Skip"), Selection::Skip);
    assert_eq!(selection_from("Quit"), Selection::Quit);
    assert_eq!(selection_from("ERROR"), Selection::Interrupted);
    assert_eq!(after_choice_from("Continue"), AfterChoice::Continue);
    assert_eq!(after_choice_from("Retry"), AfterChoice::Retry);
    assert_eq!(after_choice_from("Shell"), AfterChoice::Shell);
    assert_eq!(after_choice_from("Quit"), AfterChoice::Quit);
    assert_eq!(after_choice_from("ERROR"), AfterChoice::Interrupted);
    assert!(matches!(selection_outcome(Selection::Execute), Ok(None)));
    assert!(matches!(selection_outcome(Selection::Skip), Ok(Some(NodeResult::Skipped))));
    assert!(matches!(selection_outcome(Selection::Quit), Ok(Some(NodeResult::Quit))));
    match selection_outcome(Selection::Interrupted) {
        Err(m) => {
            assert_eq!(m.text, "Interrupted from choice");
            assert!(m.exit);
        }
        _ => panic!("expected a fatal message"),
    }
}

#[test]
fn outcome_messages() {
    let (r, m) = execution_outcome(true, 0);
    assert_eq!(r, NodeResult::Succeeded);
    assert_eq!(m.text, "\nSUCCESS\n");
    let (r, m) = execution_outcome(false, 255);
    assert_eq!(r, NodeResult::Failed);
    assert_eq!(m.text, "FAILED, EXITCODE WAS : 255\n");
    assert_eq!(m.color, Color::Red);
}

#[test]
fn script_is_lines_with_blank_lines() {
    assert_eq!(script_text(&strings(&["a", "b"])), "a\n\nb\n\n");
    assert_eq!(script_text(&Vec::new()), "");
}

#[test]
fn base_commands() {
    let mut a = args();
    assert_eq!(base_command(&a, "ssh", "n"), strings(&["ssh"]));
    a.knownhostsaccept = true;
    assert_eq!(base_command(&a, "ssh", "n"), strings(&["ssh", "-o", "StrictHostKeyChecking=accept-new"]));
    a.inscreen = "s1".to_string();
    assert_eq!(
        base_command(&a, "ssh", "n"),
        strings(&["screen", "-x", "s1", "-m", "-X", "screen", "-t", "n", "ssh"])
    );
    let mut g = SessionGuard::new();
    let c = local_command(&args(), "n", "/tmp/x", &mut g);
    assert_eq!(c.argv, strings(&["bash", "/tmp/x"]));
    assert!(!c.set_up_session);
    assert!(!g.established);
}

#[test]
fn remote_commands() {
    let lines = strings(&["df -h\n"]);
    let mut a = args();
    let r = remote_command(&a, "web1", &lines, &mut SessionGuard::new());
    assert_eq!(r.argv, strings(&["ssh", "web1", "df -h\n"]));
    assert!(r.stdin_piped);
    assert_eq!(r.stdin_text, Some("df -h\n\n\n".to_string()));
    assert!(!r.paste_into_screen);

    a.batchmode = true;
    a.sudo = true;
    a.optssh = " -p 2222  -v".to_string();
    let r = remote_command(&a, "web1", &strings(&["a", "b"]), &mut SessionGuard::new());
    assert_eq!(
        r.argv,
        strings(&["ssh", "-o", "BatchMode=yes", "-p", "2222", "-v", "web1", "sudo bash -c 'a\nb'"])
    );

    let mut a = args();
    a.inscreen = "s".to_string();
    a.sudo = true;
    let r = remote_command(&a, "web1", &lines, &mut SessionGuard::new());
    assert_eq!(
        r.argv,
        strings(&["screen", "-x", "s", "-m", "-X", "screen", "-t", "web1", "ssh", "-t", "web1", "sudo bash -s"])
    );
    assert!(r.stdin_text.is_none());
    assert!(r.paste_into_screen);

    let mut a = args();
    a.term = true;
    let r = remote_command(&a, "web1", &lines, &mut SessionGuard::new());
    assert_eq!(r.argv, strings(&["ssh", "-t", "web1", "df -h\n"]));
    assert!(!r.stdin_piped);
    assert!(r.stdin_text.is_none());
    assert!(!r.paste_into_screen);
}

#[test]
fn screen_paste() {
    let c = screen_paste_commands("s", "n", "/tmp/f");
    assert_eq!(c[0], strings(&["screen", "-S", "s", "-p", "n", "-X", "readbuf", "/tmp/f"]));
    assert_eq!(c[1], strings(&["screen", "-S", "s", "-p", "n", "-X", "paste", "."]));
}

#[test]
fn session_is_set_up_once() {
    let mut g = SessionGuard::new();
    let plain = args();
    let mut screen = args();
    screen.inscreen = "s".to_string();
    assert!(!remote_command(&plain, "a", &strings(&["x"]), &mut g).set_up_session);
    assert!(remote_command(&screen, "b", &strings(&["x"]), &mut g).set_up_session);
    assert!(!remote_command(&screen, "c", &strings(&["x"]), &mut g).set_up_session);
    assert!(!local_command(&screen, "d", "/tmp/f", &mut g).set_up_session);
    assert!(g.established);
}
