use hostctl::execute::{AfterChoice, NodeResult};
use hostctl::run::{iter_info, summarize, Run, RunAction};
use hostctl::session::{
    configure_commands, count_sessions, teardown_command, SessionAttempts, SessionStep,
};
use hostctl::output::Color;

fn strings(v: &[&str]) -> Vec<String> {
    v.iter().map(|s| s.to_string()).collect()
}

fn run(nodes: &[&str], wait: u64, prompt: bool) -> Run {
    Run::new(strings(nodes), true, false, strings(&["uptime\n"]), wait, prompt, String::new())
}

fn executed_node(a: &RunAction) -> String {
    match a {
        RunAction::Execute(r) => r.node.clone(),
        _ => panic!("expected an execution"),
    }
}

#[test]
fn progress_text() {
    assert_eq!(iter_info(true, 3, 10), " [3/10]");
    assert_eq!(iter_info(false, 1, 2), "(Nodes [1/2])");
}

#[test]
fn run_executes_each_host_in_order() {
    let mut r = run(&["a", "b", "c"], 0, false);
    let a = r.start();
    assert_eq!(executed_node(&a), "a");
    if let RunAction::Execute(req) = &a {
        assert_eq!(req.iter_information, " [1/3]");
        assert_eq!(req.execution_lines, strings(&["uptime\n"]));
    }
    let a = r.executed(NodeResult::Failed);
    assert_eq!(executed_node(&a), "b");
    let a = r.executed(NodeResult::Succeeded);
    assert_eq!(executed_node(&a), "c");
    match r.executed(NodeResult::Failed) {
        RunAction::Finish(s) => {
            assert_eq!(s.failed, strings(&["a", "c"]));
            assert_eq!(s.exit_code, 2);
            let texts: Vec<String> = s.report.iter().map(|m| m.text.clone()).collect();
            assert_eq!(
                texts,
                strings(&[
                    "\n\nCOMPLETED  - ONE OR MORE NODES FAILED!\n\nFAILED NODES: a, c\n",
                    "SUCCESSFUL NODES: b\n"
                ])
            );
            assert_eq!(s.report[0].color, Color::Red);
            assert!(s.teardown.is_none());
        }
        _ => panic!("expected the end"),
    }
}

#[test]
fn run_without_hosts_aborts() {
    let r = run(&[], 0, false);
    match r.start() {
        RunAction::Abort(m) => {
            assert_eq!(m.text, "EXIT: No nodes were specified");
            assert!(m.exit);
        }
        _ => panic!("expected an abort"),
    }
}

#[test]
fn quit_ends_the_run_and_counts_as_failed() {
    let mut r = run(&["a", "b"], 0, false);
    r.start();
    match r.executed(NodeResult::Quit) {
        RunAction::Finish(s) => {
            assert_eq!(s.failed, strings(&["a"]));
            assert_eq!(s.exit_code, 1);
        }
        _ => panic!("expected the end"),
    }
}

#[test]
fn wait_then_prompt_then_retry_shell_continue() {
    let mut r = run(&["a", "b"], 2, true);
    r.start();
    match r.executed(NodeResult::Failed) {
        RunAction::Wait { seconds, note } => {
            assert_eq!(seconds, 2);
            assert_eq!(note.text, "\nWaiting for 2 seconds before continue\n");
        }
        _ => panic!("expected a wait"),
    }
    assert!(matches!(r.waited(), RunAction::Prompt));
    assert_eq!(executed_node(&r.answered(AfterChoice::Retry)), "a");
    assert!(matches!(r.executed(NodeResult::Failed), RunAction::Wait { .. }));
    assert!(matches!(r.waited(), RunAction::Prompt));
    match r.answered(AfterChoice::Shell) {
        RunAction::Shell(req) => {
            assert_eq!(req.node, "a");
            assert_eq!(req.execution_lines, strings(&["ssh HOST"]));
        }
        _ => panic!("expected a shell"),
    }
    assert!(matches!(r.shell_closed(), RunAction::Prompt));
    assert_eq!(executed_node(&r.answered(AfterChoice::Continue)), "b");
    r.executed(NodeResult::Skipped);
    r.waited();
    match r.answered(AfterChoice::Continue) {
        RunAction::Finish(s) => {
            assert_eq!(s.failed, strings(&["a"]));
            assert_eq!(s.exit_code, 1);
        }
        _ => panic!("expected the end"),
    }
}

#[test]
fn interrupted_prompt_aborts() {
    let mut r = run(&["a"], 0, true);
    r.start();
    assert!(matches!(r.executed(NodeResult::Succeeded), RunAction::Prompt));
    match r.answered(AfterChoice::Interrupted) {
        RunAction::Abort(m) => assert_eq!(m.text, "Interrupted from choice"),
        _ => panic!("expected an abort"),
    }
}

#[test]
fn all_successful_summary_with_screen() {
    let s = summarize(&Vec::new(), &strings(&["a"]), "sess");
    assert_eq!(s.exit_code, 0);
    assert_eq!(s.report.len(), 1);
    assert_eq!(s.report[0].text, "\n\nCOMPLETED - ALL NODES WERE SUCCESSFUL");
    let t = s.teardown.unwrap();
    assert_eq!(t.before.text, "NOTE: Teardown 'init' screen now");
    assert_eq!(t.command, strings(&["screen", "-x", "sess", "-p", "init", "-X", "kill"]));
    assert_eq!(
        t.after[0].text,
        "NOTE: command were executed in a screen session, attach to the screen session by executing 'screen -x sess'"
    );
}

#[test]
fn summary_dedups_failed_hosts() {
    let s = summarize(&strings(&["b", "a", "b"]), &Vec::new(), "");
    assert_eq!(s.failed, strings(&["a", "b"]));
    assert_eq!(s.exit_code, 2);
    assert_eq!(s.report.len(), 1);
}

#[test]
fn sessions_are_counted_by_the_pattern() {
    let listing = "There are screens on:\n\t12345.mysess\t(11/17/2024 10:00:00 PM)\t(Detached)\n\t678.other\t(11/17/2024)\t(Attached)\n2 Sockets in /run/screen/S-user.\n";
    assert_eq!(count_sessions(listing).ok(), Some(2));
    assert_eq!(count_sessions("No Sockets found in /run/screen/S-user.\n").ok(), Some(0));
}

#[test]
fn session_setup_steps() {
    let mut a = SessionAttempts { inscreen: "s".to_string(), attempt: 3 };
    match a.observed(0) {
        SessionStep::Create { command, note } => {
            assert_eq!(command, strings(&["screen", "-t", "init", "-S", "s", "-d", "-m", "sleep", "120"]));
            assert_eq!(note.text, "Wait for screen session for 3 seconds");
        }
        _ => panic!("expected a creation"),
    }
    assert_eq!(a.attempt, 4);
    assert!(matches!(a.observed(1), SessionStep::Settle));
    let mut first = SessionAttempts::new("s".to_string());
    match first.observed(1) {
        SessionStep::Abort(m) => assert_eq!(m.text, "FAILED: There already a screen with the name >>>s<<<"),
        _ => panic!("expected an abort"),
    }
    match a.observed(2) {
        SessionStep::Abort(m) => assert_eq!(m.text, "FAILED: There more screen with the name >>>s<<<"),
        _ => panic!("expected an abort"),
    }
    match a.checked(0) {
        Err(m) => assert_eq!(m.text, "FAILED: Failed to initialize a screen with name >>>s<<<"),
        _ => panic!("expected a failure"),
    }
    let config = a.checked(1).ok().unwrap();
    assert_eq!(config.commands.len(), 5);
    assert_eq!(config.commands[0], strings(&["screen", "-x", "s", "-m", "-X", "defscrollback", "10000"]));
    assert_eq!(config.note.text, "Base screen established >>>s<<<");
    assert_eq!(configure_commands("s")[4][7], "%{.rw}%c:%s [%l] %{.bw} %n %t %{.wk} %W %{.wk}");
    assert_eq!(teardown_command("x")[2], "x");
}

#[test]
fn absent_session_is_started_29_times_then_checked() {
    let mut a = SessionAttempts::new("s".to_string());
    let mut starts = 0;
    loop {
        match a.observed(0) {
            SessionStep::Create { .. } => starts += 1,
            SessionStep::Check => break,
            _ => panic!("unexpected step"),
        }
    }
    assert_eq!(starts, 29);
    assert!(a.checked(0).is_err());
}

#[test]
fn failed_hosts_are_hosts_of_the_run() {
    let mut r = run(&["x", "y"], 0, false);
    r.start();
    r.executed(NodeResult::Failed);
    match r.executed(NodeResult::Failed) {
        RunAction::Finish(s) => {
            for f in &s.failed {
                assert!(r.nodes.contains(f));
            }
            assert_eq!(s.exit_code as usize, s.failed.len());
        }
        _ => panic!("expected the end"),
    }
}

fn drive(nodes: &[&str], wait: u64, failing: &[&str]) -> (Vec<String>, Vec<String>, i32) {
    let mut r = run(nodes, wait, false);
    let mut executed: Vec<String> = Vec::new();
    let mut a = r.start();
    loop {
        a = match a {
            RunAction::Execute(req) => {
                let outcome = if failing.contains(&req.node.as_str()) {
                    NodeResult::Failed
                } else {
                    NodeResult::Succeeded
                };
                executed.push(req.node.clone());
                r.executed(outcome)
            }
            RunAction::Wait { .. } => r.waited(),
            RunAction::Finish(s) => return (executed, s.failed, s.exit_code),
            _ => panic!("unexpected action"),
        }
    }
}

#[test]
fn exit_status_ignores_host_order() {
    let (e1, f1, c1) = drive(&["a", "b", "c", "d"], 0, &["c", "a"]);
    let (e2, f2, c2) = drive(&["d", "c", "b", "a"], 0, &["c", "a"]);
    let (e3, f3, c3) = drive(&["b", "a", "d", "c"], 1, &["c", "a"]);
    assert_eq!(e1, strings(&["a", "b", "c", "d"]));
    assert_eq!(e2, strings(&["d", "c", "b", "a"]));
    assert_eq!(e3, strings(&["b", "a", "d", "c"]));
    assert_eq!(f1, strings(&["a", "c"]));
    assert_eq!(f1, f2);
    assert_eq!(f1, f3);
    assert_eq!(c1, 2);
    assert_eq!(c1, c2);
    assert_eq!(c1, c3);
}
