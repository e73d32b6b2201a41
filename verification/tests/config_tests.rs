use hostctl::config::{
    config_files, entry_from_captures, group_line, members_of, parse_line, read_configs,
    split_fields, unified_node_list, unified_nodes, batch_list, dump_groups, group_listing, Group,
};
use hostctl::order::{less_than, sorted_unique};

fn strings(v: &[&str]) -> Vec<String> {
    v.iter().map(|s| s.to_string()).collect()
}

fn view(g: &Group) -> (String, Vec<String>) {
    (g.name.clone(), g.members.clone())
}

#[test]
fn short_form_line_is_read_by_the_pattern() {
    let g = parse_line("web1 : foo-ap01, foo-ap02 # frontends", "anyhost").ok().unwrap().unwrap();
    assert_eq!(view(&g), ("web1".to_string(), strings(&["foo-ap01", "foo-ap02"])));
    assert!(parse_line("Web1 : host", "anyhost").ok().unwrap().is_none());
    assert!(parse_line("# web1 : host", "anyhost").ok().unwrap().is_none());
    assert!(parse_line("   ", "anyhost").ok().unwrap().is_none());
}

#[test]
fn documented_line_is_visible_where_the_pattern_matches() {
    let line = r"foobar-l01-(ap|db)\d+ : web1 :  foobar-l01-ap01, foobar-l01-ap02";
    let g = parse_line(line, "foobar-l01-ap99").ok().unwrap().unwrap();
    assert_eq!(view(&g), ("web1".to_string(), strings(&["foobar-l01-ap01", "foobar-l01-ap02"])));
    assert!(parse_line(line, "jump-barfoo").ok().unwrap().is_none());
    let header = "#<perl-regex for visibility> : <groupname> : <host>, <host>, ...";
    assert!(parse_line(header, "jump-barfoo").ok().unwrap().is_none());
}

#[test]
fn fields_split_at_the_last_two_colons() {
    let (v, g, h) = split_fields("a:b : grp : h1, h2 # c").unwrap();
    assert_eq!(v, "a:b");
    assert_eq!(g, "grp");
    assert_eq!(h, " h1, h2 ");
    assert!(split_fields("grp : h1").is_none());
}

#[test]
fn captures_give_group_and_members() {
    let g = entry_from_captures(Some(vec![Some("x".into()), Some("db".into()), Some(" a , b".into()), None]))
        .unwrap();
    assert_eq!(view(&g), ("db".to_string(), strings(&["a", "b"])));
    let g = entry_from_captures(Some(vec![Some("x".into())])).unwrap();
    assert_eq!(view(&g), ("".to_string(), strings(&[""])));
    assert!(entry_from_captures(None).is_none());
}

#[test]
fn members_are_trimmed() {
    assert_eq!(members_of(" a,b , ,c"), strings(&["a", "b", "", "c"]));
}

#[test]
fn groups_accumulate_in_order() {
    let lines = strings(&[
        "#<perl-regex for visibility> : <groupname> : <host>, <host>, ...",
        "web : w1, w2",
        "db : d1",
        "",
        "web : w3",
        "jump-barfoo : web2 : b1, b2",
        "other-host : web3 : c1",
    ]);
    let gs = read_configs(&lines, &strings(&["all"]), "jump-barfoo").ok().unwrap();
    let got: Vec<(String, Vec<String>)> = gs.iter().map(view).collect();
    assert_eq!(
        got,
        vec![
            ("web".to_string(), strings(&["w1", "w2", "w3"])),
            ("db".to_string(), strings(&["d1"])),
            ("web2".to_string(), strings(&["b1", "b2"])),
        ]
    );
    let gs = read_configs(&lines, &strings(&["db", "web3"]), "jump-barfoo").ok().unwrap();
    let got: Vec<(String, Vec<String>)> = gs.iter().map(view).collect();
    assert_eq!(got, vec![("db".to_string(), strings(&["d1"]))]);
}

#[test]
fn unified_list_is_sorted_and_unique() {
    let lines = strings(&["web : w2, w1", "db : w1, d1", "web : w2"]);
    let nodes = unified_node_list(&lines, &strings(&["web", "db"]), "h").ok().unwrap();
    assert_eq!(nodes, strings(&["d1", "w1", "w2"]));
    assert_eq!(batch_list(&nodes), "d1 w1 w2");
    let none = unified_node_list(&lines, &strings(&["nothing"]), "h").ok().unwrap();
    assert!(none.is_empty());
}

#[test]
fn unified_nodes_of_groups() {
    let gs = vec![
        Group { name: "a".into(), members: strings(&["z", "b"]) },
        Group { name: "b".into(), members: strings(&["b", "a", "ab"]) },
    ];
    assert_eq!(unified_nodes(&gs), strings(&["a", "ab", "b", "z"]));
    assert_eq!(group_line(&gs[0]), "a: z, b");
}

#[test]
fn order_is_that_of_strings() {
    let pairs = [("a", "b"), ("a", "ab"), ("", "a"), ("b", "a"), ("x", "x"), ("Z", "a"), ("é", "z")];
    for (a, b) in pairs {
        assert_eq!(less_than(a, b), a < b, "{:?} {:?}", a, b);
    }
    let mut expected = strings(&["b", "a", "c", "a", "", "B"]);
    let got = sorted_unique(&expected);
    expected.sort();
    expected.dedup();
    assert_eq!(got, expected);
}

#[test]
fn config_file_locations() {
    assert_eq!(config_files(Some("/etc/h"), "/home/u", "/opt/h"), strings(&["/etc/h/hostctl.conf"]));
    assert_eq!(
        config_files(None, "/home/u", "/opt/h"),
        strings(&["/home/u/.hostctl/hostctl.conf", "/opt/h/hostctl.conf"])
    );
    assert_eq!(
        config_files(Some(""), "/home/u", "/opt/h"),
        strings(&["/home/u/.hostctl/hostctl.conf", "/opt/h/hostctl.conf"])
    );
}

#[test]
fn comment_colons_do_not_make_fields() {
    assert!(split_fields("web : a # note: x").is_none());
    let g = parse_line("web : a # note: x", "h").ok().unwrap().unwrap();
    assert_eq!(view(&g), ("web".to_string(), strings(&["a"])));
}

#[test]
fn listing_has_one_line_per_group() {
    let gs = vec![
        Group { name: "a".into(), members: strings(&["x", "y"]) },
        Group { name: "b".into(), members: Vec::new() },
    ];
    assert_eq!(group_listing(&gs), strings(&["a: x, y", "b: "]));
    let lines = strings(&["web : w1, w2", "db : d1", "web : w3"]);
    let out = dump_groups(&lines, &strings(&["all"]), "h", false).ok().unwrap();
    assert_eq!(out, strings(&["web: w1, w2, w3", "db: d1"]));
}

#[test]
fn groups_as_json() {
    let lines = strings(&["web : w1, w2", "db : d1"]);
    let out = dump_groups(&lines, &strings(&["all"]), "h", true).ok().unwrap();
    assert_eq!(out.len(), 1);
    let v: serde_json::Value = serde_json::from_str(&out[0]).unwrap();
    let web: Vec<String> = v["web"].as_array().unwrap().iter().map(|m| m.as_str().unwrap().to_string()).collect();
    assert_eq!(web, strings(&["w1", "w2"]));
    assert_eq!(v["db"][0].as_str(), Some("d1"));
    assert_eq!(v.as_object().unwrap().len(), 2);
}

#[test]
fn more_items_list_more_hosts() {
    let lines = strings(&["web : w1", "db : d1", "q : grp : h9"]);
    let small = unified_node_list(&lines, &strings(&["web"]), "q").ok().unwrap();
    let big = unified_node_list(&lines, &strings(&["web", "db"]), "q").ok().unwrap();
    let all = unified_node_list(&lines, &strings(&["all"]), "q").ok().unwrap();
    for h in &small {
        assert!(big.contains(h));
    }
    for h in &big {
        assert!(all.contains(h));
    }
    assert_eq!(all, strings(&["d1", "h9", "w1"]));
}
