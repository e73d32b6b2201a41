//! What is executed for one host: the lines with the host name filled in,
//! the command lines of ssh, bash and screen, and the decisions around an
//! execution.
use vstd::prelude::*;
use crate::text::{
    append_all, contains, contains_spec, decimal, decimal_spec, join, join_spec, occurs_at, owned, push_owned,
    push_str, replace, replace_spec, signed_decimal, signed_decimal_spec, split_whitespace,
    str_eq, views, words_spec,
};
use crate::output::{output, output_str, color_of, OutputType, Rendered};
use crate::cli::CommandLineArgs;

verus! {

broadcast use vstd::string::group_string_axioms;

/// The outcome of one host.
#[derive(Clone, Copy, Debug, PartialEq, Eq, Structural)]
pub enum NodeResult {
    Succeeded,
    Failed,
    Skipped,
    Quit,
}

/// The placeholder for the host name in commands and recipes.
pub const HOST_PLACEHOLDER: &'static str = "HOST";

/// A request to execute lines for one host.
pub struct NodeRequest {
    pub node: String,
    pub iter_information: String,
    pub local_execution: bool,
    pub execution_lines: Vec<String>,
}

/// The views of a list of command lines.
pub open spec fn argv_views(v: Seq<Vec<String>>) -> Seq<Seq<Seq<char>>> {
    v.map_values(|a: Vec<String>| views(a@))
}

// ---------------------------------------------------------------------------
// The lines for a host
// ---------------------------------------------------------------------------
/// Each line with the host name in place of every `HOST`.
pub open spec fn templated_spec(lines: Seq<Seq<char>>, node: Seq<char>) -> Seq<Seq<char>> {
    lines.map_values(|l: Seq<char>| replace_spec(l, HOST_PLACEHOLDER@, node))
}

/// Whether some line holds `HOST`.
pub open spec fn mentions_host(lines: Seq<Seq<char>>) -> bool {
    exists|i: int| 0 <= i < lines.len() && contains_spec(#[trigger] lines[i], HOST_PLACEHOLDER@)
}

/// `line` with a blank and the host name appended, before its final line
/// break where it has one.
pub open spec fn append_host_spec(line: Seq<char>, node: Seq<char>) -> Seq<char> {
    if line.len() > 0 && line.last() == '\n' {
        line.drop_last() + seq![' '] + node + seq!['\n']
    } else {
        line + seq![' '] + node
    }
}

/// The lines of a local execution: the host name stands where `HOST` does,
/// and where no line names `HOST`, it is appended to the last line.
pub open spec fn local_lines_spec(lines: Seq<Seq<char>>, node: Seq<char>) -> Seq<Seq<char>> {
    if mentions_host(lines) || lines.len() == 0 {
        templated_spec(lines, node)
    } else {
        lines.update(lines.len() - 1, append_host_spec(lines.last(), node))
    }
}

/// Lines that do not name `HOST` are executed on a host as they are.
pub proof fn lemma_template_without_placeholder(lines: Seq<Seq<char>>, node: Seq<char>)
    requires
        !mentions_host(lines),
    ensures
        templated_spec(lines, node) == lines,
{
    reveal_strlit("HOST");
    assert forall|i: int| 0 <= i < lines.len() implies templated_spec(lines, node)[i] == lines[i] by {
        assert(!contains_spec(lines[i], HOST_PLACEHOLDER@));
        crate::text::lemma_replace_absent(lines[i], HOST_PLACEHOLDER@, node);
    }
    assert(templated_spec(lines, node) =~= lines);
}

/// A local execution of lines that do not name `HOST` appends the host
/// name to the last line and leaves the others as they are.
pub proof fn lemma_local_appends_host(lines: Seq<Seq<char>>, node: Seq<char>)
    requires
        !mentions_host(lines),
        lines.len() > 0,
    ensures
        local_lines_spec(lines, node).len() == lines.len(),
        local_lines_spec(lines, node).last() == append_host_spec(lines.last(), node),
        forall|i: int| 0 <= i < lines.len() - 1 ==> local_lines_spec(lines, node)[i] == lines[i],
{
}

/// Each line with the host name in place of every `HOST`.
pub fn template_lines(execution_lines: &Vec<String>, node: &String) -> (r: Vec<String>)
    ensures
        views(r@) == templated_spec(views(execution_lines@), node@),
{
    proof { reveal_strlit("HOST"); }
    let mut r: Vec<String> = Vec::new();
    let mut i: usize = 0;
    while i < execution_lines.len()
        invariant
            i <= execution_lines@.len(),
            HOST_PLACEHOLDER@.len() > 0,
            views(r@) =~= templated_spec(views(execution_lines@).take(i as int), node@),
        decreases execution_lines@.len() - i,
    {
        let l = replace(execution_lines[i].as_str(), HOST_PLACEHOLDER, node.as_str());
        let ghost prev = r@;
        r.push(l);
        assert(views(r@) =~= views(prev).push(l@));
        assert(views(execution_lines@).take(i + 1) =~= views(execution_lines@).take(i as int).push(
            execution_lines@[i as int]@,
        ));
        i = i + 1;
    }
    assert(views(execution_lines@).take(execution_lines@.len() as int) =~= views(execution_lines@));
    r
}

/// `line` with a blank and the host name appended, before its final line
/// break where it has one.
pub fn append_host(line: &str, node: &str) -> (r: String)
    ensures
        r@ == append_host_spec(line@, node@),
{
    let v = crate::text::chars_of(line);
    proof {
        reveal_strlit(" ");
        reveal_strlit("\n");
    }
    if v.len() > 0 && v[v.len() - 1] == '\n' {
        let mut r = crate::text::string_of_range(&v, 0, v.len() - 1);
        push_str(&mut r, " ");
        push_str(&mut r, node);
        push_str(&mut r, "\n");
        assert(v@.subrange(0, v@.len() - 1) == line@.drop_last());
        assert(" "@ =~= seq![' ']);
        assert("\n"@ =~= seq!['\n']);
        r
    } else {
        let mut r = owned(line);
        push_str(&mut r, " ");
        push_str(&mut r, node);
        assert(" "@ =~= seq![' ']);
        r
    }
}

/// The lines of a local execution (see `local_lines_spec`).
pub fn local_lines(execution_lines: &Vec<String>, node: &String) -> (r: Vec<String>)
    ensures
        views(r@) == local_lines_spec(views(execution_lines@), node@),
{
    let ghost lv = views(execution_lines@);
    let mut i: usize = 0;
    while i < execution_lines.len()
        invariant
            lv == views(execution_lines@),
            i <= execution_lines@.len(),
            forall|j: int| 0 <= j < i ==> !contains_spec(#[trigger] lv[j], HOST_PLACEHOLDER@),
        decreases execution_lines@.len() - i,
    {
        if contains(execution_lines[i].as_str(), HOST_PLACEHOLDER) {
            assert(contains_spec(lv[i as int], HOST_PLACEHOLDER@));
            return template_lines(execution_lines, node);
        }
        i = i + 1;
    }
    if execution_lines.len() == 0 {
        return template_lines(execution_lines, node);
    }
    let n = execution_lines.len();
    let mut r: Vec<String> = Vec::new();
    let mut k: usize = 0;
    while k < n - 1
        invariant
            lv == views(execution_lines@),
            n == execution_lines@.len(),
            n > 0,
            k <= n - 1,
            views(r@) =~= lv.take(k as int),
        decreases n - 1 - k,
    {
        push_owned(&mut r, execution_lines[k].as_str());
        assert(lv.take(k + 1) =~= lv.take(k as int).push(lv[k as int]));
        k = k + 1;
    }
    let last = append_host(execution_lines[n - 1].as_str(), node.as_str());
    let ghost prev = r@;
    r.push(last);
    assert(views(r@) =~= views(prev).push(last@));
    assert(views(r@) =~= lv.update(n - 1, append_host_spec(lv.last(), node@)));
    r
}

/// Executing a shell on a host: `ssh HOST` as a local command.
pub fn get_shell(node: String) -> (r: NodeRequest)
    ensures
        r.node@ == node@,
        r.iter_information@ == "Shell"@,
        r.local_execution,
        views(r.execution_lines@) == seq!["ssh HOST"@],
{
    let mut execution_lines: Vec<String> = Vec::new();
    push_owned(&mut execution_lines, "ssh HOST");
    assert(views(execution_lines@) =~= seq!["ssh HOST"@]);
    NodeRequest { node, iter_information: owned("Shell"), local_execution: true, execution_lines }
}

/// The heading printed before a host is executed.
pub open spec fn node_header_spec(node: Seq<char>, iter_information: Seq<char>, local: bool) -> Seq<
    char,
> {
    (if local {
        "*** LOCAL: "@
    } else {
        "*** HOST: "@
    }) + node + " "@ + iter_information + "\n"@
}

/// The line that lists line `nr` of what is executed.
pub open spec fn listing_line_spec(nr: nat, line: Seq<char>) -> Seq<char> {
    "#"@ + decimal_spec(nr) + ": "@ + line
}

/// What is shown and executed for a host.
pub struct NodePlan {
    /// The heading (information).
    pub header: Rendered,
    /// The lines to execute.
    pub lines: Vec<String>,
    /// One numbered detail message per line.
    pub listing: Vec<Rendered>,
    /// Ask before the host is executed whether to execute, skip or quit.
    pub ask_selection: bool,
    /// The lines run on this machine rather than over ssh.
    pub runs_locally: bool,
}

/// The heading, the lines and their listing for a host: the lines with the
/// host name filled in as `local_lines` does for a local execution and as
/// `template_lines` does for a remote one; whether to ask before executing
/// (where a selection is asked for), and whether the lines run locally.
pub fn prepare_node(req: &NodeRequest, args: &CommandLineArgs) -> (r: NodePlan)
    ensures
        r.ask_selection == args.makeselection,
        r.runs_locally == req.local_execution,
        r.header.text@ == node_header_spec(req.node@, req.iter_information@, req.local_execution),
        r.header.color == color_of(OutputType::Info),
        !r.header.exit,
        views(r.lines@) == if req.local_execution {
            local_lines_spec(views(req.execution_lines@), req.node@)
        } else {
            templated_spec(views(req.execution_lines@), req.node@)
        },
        r.listing@.len() == r.lines@.len(),
        forall|i: int|
            0 <= i < r.lines@.len() ==> r.listing@[i].text@ == listing_line_spec(
                i as nat,
                r.lines@[i]@,
            ) && r.listing@[i].color == color_of(OutputType::Detail) && !r.listing@[i].exit,
{
    let mut h = if req.local_execution {
        owned("*** LOCAL: ")
    } else {
        owned("*** HOST: ")
    };
    push_str(&mut h, req.node.as_str());
    push_str(&mut h, " ");
    push_str(&mut h, req.iter_information.as_str());
    push_str(&mut h, "\n");
    let header = output(h, OutputType::Info);
    let lines = if req.local_execution {
        local_lines(&req.execution_lines, &req.node)
    } else {
        template_lines(&req.execution_lines, &req.node)
    };
    let mut listing: Vec<Rendered> = Vec::new();
    let mut i: usize = 0;
    while i < lines.len()
        invariant
            i <= lines@.len(),
            listing@.len() == i,
            forall|j: int|
                0 <= j < i ==> listing@[j].text@ == listing_line_spec(j as nat, lines@[j]@)
                    && listing@[j].color == color_of(OutputType::Detail) && !listing@[j].exit,
        decreases lines@.len() - i,
    {
        let mut t = owned("#");
        let d = decimal(i as u64);
        push_str(&mut t, d.as_str());
        push_str(&mut t, ": ");
        push_str(&mut t, lines[i].as_str());
        listing.push(output(t, OutputType::Detail));
        i = i + 1;
    }
    NodePlan {
        header,
        lines,
        listing,
        ask_selection: args.makeselection,
        runs_locally: req.local_execution,
    }
}

// ---------------------------------------------------------------------------
// Answers to the prompts
// ---------------------------------------------------------------------------
/// The choice before a host is executed.
#[derive(Clone, Copy, Debug, PartialEq, Eq, Structural)]
pub enum Selection {
    Execute,
    Skip,
    Quit,
    /// The prompt gave no choice (it was interrupted).
    Interrupted,
}

/// The choice after a host was executed.
#[derive(Clone, Copy, Debug, PartialEq, Eq, Structural)]
pub enum AfterChoice {
    Continue,
    Retry,
    Shell,
    Quit,
    /// The prompt gave no choice (it was interrupted).
    Interrupted,
}

/// The options offered before a host is executed.
pub fn selection_options() -> (r: Vec<String>)
    ensures
        views(r@) == seq!["Execute"@, "Skip"@, "Quit"@],
{
    let mut r: Vec<String> = Vec::new();
    push_owned(&mut r, "Execute");
    push_owned(&mut r, "Skip");
    push_owned(&mut r, "Quit");
    assert(views(r@) =~= seq!["Execute"@, "Skip"@, "Quit"@]);
    r
}

/// The options offered after a host was executed.
pub fn after_options() -> (r: Vec<String>)
    ensures
        views(r@) == seq!["Continue"@, "Retry"@, "Shell"@, "Quit"@],
{
    let mut r: Vec<String> = Vec::new();
    push_owned(&mut r, "Continue");
    push_owned(&mut r, "Retry");
    push_owned(&mut r, "Shell");
    push_owned(&mut r, "Quit");
    assert(views(r@) =~= seq!["Continue"@, "Retry"@, "Shell"@, "Quit"@]);
    r
}

/// The choice that an answer before a host names.
pub fn selection_from(answer: &str) -> (r: Selection)
    ensures
        r == if answer@ == "Execute"@ {
            Selection::Execute
        } else if answer@ == "Skip"@ {
            Selection::Skip
        } else if answer@ == "Quit"@ {
            Selection::Quit
        } else {
            Selection::Interrupted
        },
{
    if str_eq(answer, "Execute") {
        Selection::Execute
    } else if str_eq(answer, "Skip") {
        Selection::Skip
    } else if str_eq(answer, "Quit") {
        Selection::Quit
    } else {
        Selection::Interrupted
    }
}

/// The choice that an answer after a host names.
pub fn after_choice_from(answer: &str) -> (r: AfterChoice)
    ensures
        r == if answer@ == "Continue"@ {
            AfterChoice::Continue
        } else if answer@ == "Retry"@ {
            AfterChoice::Retry
        } else if answer@ == "Shell"@ {
            AfterChoice::Shell
        } else if answer@ == "Quit"@ {
            AfterChoice::Quit
        } else {
            AfterChoice::Interrupted
        },
{
    if str_eq(answer, "Continue") {
        AfterChoice::Continue
    } else if str_eq(answer, "Retry") {
        AfterChoice::Retry
    } else if str_eq(answer, "Shell") {
        AfterChoice::Shell
    } else if str_eq(answer, "Quit") {
        AfterChoice::Quit
    } else {
        AfterChoice::Interrupted
    }
}

/// What the choice before a host means: execute (`None`), or the outcome of
/// the host without executing it. An interrupted prompt is fatal.
pub fn selection_outcome(s: Selection) -> (r: Result<Option<NodeResult>, Rendered>)
    ensures
        match s {
            Selection::Execute => r == Ok::<Option<NodeResult>, Rendered>(None),
            Selection::Skip => r == Ok::<Option<NodeResult>, Rendered>(Some(NodeResult::Skipped)),
            Selection::Quit => r == Ok::<Option<NodeResult>, Rendered>(Some(NodeResult::Quit)),
            Selection::Interrupted => r matches Err(m) && m.text@ == "Interrupted from choice"@
                && m.color == color_of(OutputType::Fatal) && m.exit,
        },
{
    match s {
        Selection::Execute => Ok(None),
        Selection::Skip => Ok(Some(NodeResult::Skipped)),
        Selection::Quit => Ok(Some(NodeResult::Quit)),
        Selection::Interrupted => Err(output_str("Interrupted from choice", OutputType::Fatal)),
    }
}

/// The outcome of an execution that ended with the given success, and the
/// message that reports it (`code` is the exit status of a failure).
pub fn execution_outcome(success: bool, code: i32) -> (r: (NodeResult, Rendered))
    ensures
        success ==> r.0 == NodeResult::Succeeded && r.1.text@ == "\nSUCCESS\n"@ && r.1.color
            == color_of(OutputType::Info) && !r.1.exit,
        !success ==> r.0 == NodeResult::Failed && r.1.text@ == "FAILED, EXITCODE WAS : "@
            + signed_decimal_spec(code as int) + "\n"@ && r.1.color == color_of(OutputType::Error)
            && !r.1.exit,
{
    if success {
        (NodeResult::Succeeded, output_str("\nSUCCESS\n", OutputType::Info))
    } else {
        let mut t = owned("FAILED, EXITCODE WAS : ");
        let d = signed_decimal(code);
        push_str(&mut t, d.as_str());
        push_str(&mut t, "\n");
        (NodeResult::Failed, output(t, OutputType::Error))
    }
}

// ---------------------------------------------------------------------------
// Command lines
// ---------------------------------------------------------------------------
/// The script text of the lines: each line followed by an empty line.
pub open spec fn script_spec(lines: Seq<Seq<char>>) -> Seq<char>
    decreases lines.len(),
{
    if lines.len() == 0 {
        Seq::empty()
    } else {
        script_spec(lines.drop_last()) + lines.last() + seq!['\n', '\n']
    }
}

/// The script text of the lines, as it is written to a script file or to
/// the standard input of ssh.
pub fn script_text(lines: &Vec<String>) -> (r: String)
    ensures
        r@ == script_spec(views(lines@)),
{
    proof { reveal_strlit("\n\n"); }
    let mut r = String::new();
    let mut i: usize = 0;
    while i < lines.len()
        invariant
            i <= lines@.len(),
            "\n\n"@ == seq!['\n', '\n'],
            r@ == script_spec(views(lines@).take(i as int)),
        decreases lines@.len() - i,
    {
        push_str(&mut r, lines[i].as_str());
        push_str(&mut r, "\n\n");
        proof {
            let t = views(lines@).take(i + 1);
            assert(t.drop_last() =~= views(lines@).take(i as int));
            assert(t.last() == lines@[i as int]@);
        }
        i = i + 1;
    }
    assert(views(lines@).take(lines@.len() as int) =~= views(lines@));
    r
}

/// The program and arguments that start `base` for a host: the program
/// itself, told to accept new host keys where asked to, or, with a screen
/// session, a new window of the session named after the host.
pub open spec fn base_command_spec(
    inscreen: Seq<char>,
    knownhostsaccept: bool,
    base: Seq<char>,
    node: Seq<char>,
) -> Seq<Seq<char>> {
    if inscreen.len() == 0 {
        if knownhostsaccept {
            seq![base, "-o"@, "StrictHostKeyChecking=accept-new"@]
        } else {
            seq![base]
        }
    } else {
        seq!["screen"@, "-x"@, inscreen, "-m"@, "-X"@, "screen"@, "-t"@, node, base]
    }
}

/// The program and arguments that start `base` for a host (see
/// `base_command_spec`).
pub fn base_command(args: &CommandLineArgs, base: &str, node: &str) -> (r: Vec<String>)
    ensures
        views(r@) == base_command_spec(args.inscreen@, args.knownhostsaccept, base@, node@),
{
    let mut r: Vec<String> = Vec::new();
    if args.inscreen.as_str().unicode_len() == 0 {
        push_owned(&mut r, base);
        if args.knownhostsaccept {
            push_owned(&mut r, "-o");
            push_owned(&mut r, "StrictHostKeyChecking=accept-new");
        }
    } else {
        push_owned(&mut r, "screen");
        push_owned(&mut r, "-x");
        push_owned(&mut r, args.inscreen.as_str());
        push_owned(&mut r, "-m");
        push_owned(&mut r, "-X");
        push_owned(&mut r, "screen");
        push_owned(&mut r, "-t");
        push_owned(&mut r, node);
        push_owned(&mut r, base);
    }
    assert(views(r@) =~= base_command_spec(args.inscreen@, args.knownhostsaccept, base@, node@));
    r
}

/// Whether the screen session has been set up in this process: it is set
/// up once, before the first command that runs in it. The guard also keeps
/// the sessions that the commands asked for so far named, in order, and
/// for each whether it set the session up.
pub struct SessionGuard {
    pub established: bool,
    pub calls: Ghost<Seq<Seq<char>>>,
    pub answers: Ghost<Seq<bool>>,
}

/// Whether a command must set the session up first: a session is named and
/// it was not set up yet.
pub open spec fn set_up_due(established: bool, inscreen: Seq<char>) -> bool {
    inscreen.len() > 0 && !established
}

/// Some command of `calls` named a session.
pub open spec fn any_named(calls: Seq<Seq<char>>) -> bool {
    exists|i: int| 0 <= i < calls.len() && (#[trigger] calls[i]).len() > 0
}

/// Which of a sequence of commands, naming the sessions `calls` in turn in a
/// process that starts without a session, set the session up.
pub open spec fn set_ups(calls: Seq<Seq<char>>) -> Seq<bool>
    decreases calls.len(),
{
    if calls.len() == 0 {
        Seq::empty()
    } else {
        set_ups(calls.drop_last()).push(set_up_due(any_named(calls.drop_last()), calls.last()))
    }
}

impl SessionGuard {
    /// The guard agrees with the commands it saw: the session is set up
    /// exactly where some command named one, and each command set it up as
    /// `set_ups` says.
    pub open spec fn wf(self) -> bool {
        &&& self.established == any_named(self.calls@)
        &&& self.answers@ == set_ups(self.calls@)
    }
}

/// `set_ups` has one answer per command, and each answer is as `set_ups`
/// defines it at its place.
proof fn lemma_set_ups_at(calls: Seq<Seq<char>>)
    ensures
        set_ups(calls).len() == calls.len(),
        forall|i: int|
            0 <= i < calls.len() ==> (#[trigger] set_ups(calls)[i]) == set_up_due(
                any_named(calls.take(i)),
                calls[i],
            ),
    decreases calls.len(),
{
    if calls.len() > 0 {
        let p = calls.drop_last();
        lemma_set_ups_at(p);
        assert forall|i: int| 0 <= i < calls.len() implies (#[trigger] set_ups(calls)[i])
            == set_up_due(any_named(calls.take(i)), calls[i]) by {
            if i < calls.len() - 1 {
                assert(calls.take(i) =~= p.take(i));
            } else {
                assert(calls.take(i) =~= p);
            }
        }
    }
}

/// In a process that starts without a session, the session is set up
/// exactly once: by the first command that names a session.
pub proof fn lemma_session_set_up_once_spec(calls: Seq<Seq<char>>, j: int)
    requires
        0 <= j < calls.len(),
        calls[j].len() > 0,
        forall|i: int| 0 <= i < j ==> calls[i].len() == 0,
    ensures
        set_ups(calls).len() == calls.len(),
        set_ups(calls)[j],
        forall|i: int| 0 <= i < calls.len() && i != j ==> !set_ups(calls)[i],
{
    lemma_set_ups_at(calls);
    assert(!any_named(calls.take(j)));
    assert forall|i: int| 0 <= i < calls.len() && i != j implies !set_ups(calls)[i] by {
        assert(set_ups(calls)[i] == set_up_due(any_named(calls.take(i)), calls[i]));
        if i > j {
            assert(calls.take(i)[j] == calls[j]);
        } else {
            assert(calls[i].len() == 0);
        }
    }
}

/// The calls that a guard saw, from `SessionGuard::new` on: the session was
/// set up exactly once, by the first call that named a session, and by no
/// other call.
pub proof fn lemma_session_set_up_once(g: SessionGuard, j: int)
    requires
        g.wf(),
        0 <= j < g.calls@.len(),
        g.calls@[j].len() > 0,
        forall|i: int| 0 <= i < j ==> g.calls@[i].len() == 0,
    ensures
        g.answers@.len() == g.calls@.len(),
        g.answers@[j],
        forall|i: int| 0 <= i < g.calls@.len() && i != j ==> !g.answers@[i],
{
    lemma_session_set_up_once_spec(g.calls@, j);
}

/// Where no call named a session, none of them set one up.
pub proof fn lemma_no_session_unnamed(g: SessionGuard)
    requires
        g.wf(),
        forall|i: int| 0 <= i < g.calls@.len() ==> g.calls@[i].len() == 0,
    ensures
        g.answers@.len() == g.calls@.len(),
        forall|i: int| 0 <= i < g.calls@.len() ==> !g.answers@[i],
{
    lemma_set_ups_at(g.calls@);
}

/// A command line, and whether the session must be set up before it runs.
pub struct BaseCommand {
    pub argv: Vec<String>,
    pub set_up_session: bool,
}

impl SessionGuard {
    /// A process in which no session was set up, and no command asked for one.
    pub fn new() -> (r: SessionGuard)
        ensures
            !r.established,
            r.calls@.len() == 0,
            r.wf(),
    {
        SessionGuard {
            established: false,
            calls: Ghost(Seq::empty()),
            answers: Ghost(Seq::empty()),
        }
    }

    /// The program and arguments that start `base` for a host (see
    /// `base_command_spec`), and whether the session must be set up first:
    /// where a session is named, the first time.
    pub fn establish_base_command(&mut self, args: &CommandLineArgs, base: &str, node: &str) -> (r:
        BaseCommand)
        ensures
            views(r.argv@) == base_command_spec(args.inscreen@, args.knownhostsaccept, base@, node@),
            r.set_up_session == set_up_due(old(self).established, args.inscreen@),
            final(self).established == (old(self).established || args.inscreen@.len() > 0),
            final(self).calls@ == old(self).calls@.push(args.inscreen@),
            final(self).answers@ == old(self).answers@.push(r.set_up_session),
            old(self).wf() ==> final(self).wf(),
    {
        let argv = base_command(args, base, node);
        let named = args.inscreen.as_str().unicode_len() > 0;
        let set_up_session = named && !self.established;
        let ghost c0 = self.calls@;
        if named {
            self.established = true;
        }
        self.calls = Ghost(self.calls@.push(args.inscreen@));
        self.answers = Ghost(self.answers@.push(set_up_session));
        proof {
            let c1 = self.calls@;
            assert(c1.drop_last() =~= c0);
            if named {
                assert(c1[c1.len() - 1].len() > 0);
            } else {
                assert forall|i: int| 0 <= i < c1.len() && (#[trigger] c1[i]).len() > 0 implies i
                    < c0.len() && c0[i].len() > 0 by {}
            }
        }
        BaseCommand { argv, set_up_session }
    }
}

/// The command line that runs a script file for a host: bash with the file.
pub fn local_command(
    args: &CommandLineArgs,
    node: &str,
    script_path: &str,
    guard: &mut SessionGuard,
) -> (r: BaseCommand)
    ensures
        views(r.argv@) == base_command_spec(args.inscreen@, args.knownhostsaccept, "bash"@, node@).push(
            script_path@,
        ),
        r.set_up_session == set_up_due(old(guard).established, args.inscreen@),
        final(guard).established == (old(guard).established || args.inscreen@.len() > 0),
        final(guard).calls@ == old(guard).calls@.push(args.inscreen@),
        final(guard).answers@ == old(guard).answers@.push(r.set_up_session),
        old(guard).wf() ==> final(guard).wf(),
{
    let mut c = guard.establish_base_command(args, "bash", node);
    push_owned(&mut c.argv, script_path);
    c
}

/// The last argument of ssh: with a screen session, a shell that reads the
/// lines from its input; else the lines themselves, run by `bash -c` under
/// sudo where sudo is asked for.
pub open spec fn remote_script_arg(
    inscreen: Seq<char>,
    sudo: bool,
    lines: Seq<Seq<char>>,
) -> Seq<char> {
    if inscreen.len() > 0 {
        if sudo {
            "sudo bash -s"@
        } else {
            "bash -s"@
        }
    } else if sudo {
        "sudo bash -c '"@ + join_spec(lines, "\n"@) + "'"@
    } else {
        join_spec(lines, "\n"@)
    }
}

/// The command line of ssh for a host.
pub open spec fn remote_argv_spec(
    args: CommandLineArgs,
    node: Seq<char>,
    lines: Seq<Seq<char>>,
) -> Seq<Seq<char>> {
    base_command_spec(args.inscreen@, args.knownhostsaccept, "ssh"@, node) + (if args.batchmode {
        seq!["-o"@, "BatchMode=yes"@]
    } else {
        Seq::empty()
    }) + (if args.term || args.inscreen@.len() > 0 {
        seq!["-t"@]
    } else {
        Seq::empty()
    }) + (if args.optssh@.len() > 0 {
        words_spec(args.optssh@)
    } else {
        Seq::empty()
    }) + seq![node, remote_script_arg(args.inscreen@, args.sudo, lines)]
}

/// How ssh is run for a host.
pub struct RemoteInvocation {
    /// The program and its arguments.
    pub argv: Vec<String>,
    /// The standard input is a pipe (else it is the terminal's).
    pub stdin_piped: bool,
    /// The text written to the pipe, if any.
    pub stdin_text: Option<String>,
    /// The lines are pasted into the screen window of the host.
    pub paste_into_screen: bool,
    /// The session must be set up before ssh runs.
    pub set_up_session: bool,
}

/// How ssh is run for a host: without a pseudo terminal the lines go
/// through the standard input, or, with a screen session, are pasted into
/// the host's window.
pub fn remote_command(
    args: &CommandLineArgs,
    node: &str,
    lines: &Vec<String>,
    guard: &mut SessionGuard,
) -> (r: RemoteInvocation)
    ensures
        r.set_up_session == set_up_due(old(guard).established, args.inscreen@),
        final(guard).established == (old(guard).established || args.inscreen@.len() > 0),
        final(guard).calls@ == old(guard).calls@.push(args.inscreen@),
        final(guard).answers@ == old(guard).answers@.push(r.set_up_session),
        old(guard).wf() ==> final(guard).wf(),
        views(r.argv@) == remote_argv_spec(*args, node@, views(lines@)),
        r.stdin_piped == !args.term,
        r.paste_into_screen == (!args.term && args.inscreen@.len() > 0),
        match r.stdin_text {
            Some(t) => !args.term && args.inscreen@.len() == 0 && t@ == script_spec(views(lines@)),
            None => args.term || args.inscreen@.len() > 0,
        },
{
    let base = guard.establish_base_command(args, "ssh", node);
    let set_up_session = base.set_up_session;
    let mut argv = base.argv;
    let ghost a0 = views(argv@);
    if args.batchmode {
        push_owned(&mut argv, "-o");
        push_owned(&mut argv, "BatchMode=yes");
    }
    let ghost a1 = views(argv@);
    let in_screen = args.inscreen.as_str().unicode_len() > 0;
    if args.term || in_screen {
        push_owned(&mut argv, "-t");
    }
    let ghost a2 = views(argv@);
    if args.optssh.as_str().unicode_len() > 0 {
        let opts = split_whitespace(args.optssh.as_str());
        append_all(&mut argv, &opts);
    }
    let ghost a3 = views(argv@);
    push_owned(&mut argv, node);
    let last = if in_screen {
        if args.sudo {
            owned("sudo bash -s")
        } else {
            owned("bash -s")
        }
    } else {
        let joined = join(lines, "\n");
        if args.sudo {
            let mut t = owned("sudo bash -c '");
            push_str(&mut t, joined.as_str());
            push_str(&mut t, "'");
            t
        } else {
            joined
        }
    };
    let ghost a4 = views(argv@);
    let ghost lv = last@;
    argv.push(last);
    assert(views(argv@) =~= a4.push(lv));
    assert(views(argv@) =~= remote_argv_spec(*args, node@, views(lines@)));
    let stdin_text = if !args.term && !in_screen {
        Some(script_text(lines))
    } else {
        None
    };
    RemoteInvocation {
        argv,
        stdin_piped: !args.term,
        stdin_text,
        paste_into_screen: !args.term && in_screen,
        set_up_session,
    }
}

/// The commands that paste a script file into the screen window of a host:
/// read the file into the paste buffer, then paste it.
pub fn screen_paste_commands(screen: &str, node: &str, script_path: &str) -> (r: Vec<Vec<String>>)
    ensures
        argv_views(r@) == seq![
            seq!["screen"@, "-S"@, screen@, "-p"@, node@, "-X"@, "readbuf"@, script_path@],
            seq!["screen"@, "-S"@, screen@, "-p"@, node@, "-X"@, "paste"@, "."@],
        ],
{
    let mut a: Vec<String> = Vec::new();
    push_owned(&mut a, "screen");
    push_owned(&mut a, "-S");
    push_owned(&mut a, screen);
    push_owned(&mut a, "-p");
    push_owned(&mut a, node);
    push_owned(&mut a, "-X");
    push_owned(&mut a, "readbuf");
    push_owned(&mut a, script_path);
    let mut b: Vec<String> = Vec::new();
    push_owned(&mut b, "screen");
    push_owned(&mut b, "-S");
    push_owned(&mut b, screen);
    push_owned(&mut b, "-p");
    push_owned(&mut b, node);
    push_owned(&mut b, "-X");
    push_owned(&mut b, "paste");
    push_owned(&mut b, ".");
    let ghost av = views(a@);
    let ghost bv = views(b@);
    assert(av =~= seq!["screen"@, "-S"@, screen@, "-p"@, node@, "-X"@, "readbuf"@, script_path@]);
    assert(bv =~= seq!["screen"@, "-S"@, screen@, "-p"@, node@, "-X"@, "paste"@, "."@]);
    let mut r: Vec<Vec<String>> = Vec::new();
    r.push(a);
    r.push(b);
    assert(argv_views(r@) =~= seq![av, bv]);
    r
}

/// Templating fills in each line on its own: the result has one line per
/// line, and line `i` is what templating that line alone gives, wherever it
/// stands among the lines.
pub proof fn lemma_templating_per_line(lines: Seq<Seq<char>>, node: Seq<char>)
    ensures
        templated_spec(lines, node).len() == lines.len(),
        forall|i: int|
            0 <= i < lines.len() ==> #[trigger] templated_spec(lines, node)[i] == templated_spec(
                seq![lines[i]],
                node,
            )[0],
{
}

/// Templating two lists of lines one after the other is templating them
/// together.
pub proof fn lemma_templating_concat(a: Seq<Seq<char>>, b: Seq<Seq<char>>, node: Seq<char>)
    ensures
        templated_spec(a + b, node) == templated_spec(a, node) + templated_spec(b, node),
{
    assert(templated_spec(a + b, node) =~= templated_spec(a, node) + templated_spec(b, node));
}

/// A line that starts with `HOST` starts with the host name once templated,
/// followed by the rest of the line templated.
pub proof fn lemma_templating_fills_host(rest: Seq<char>, node: Seq<char>)
    ensures
        templated_spec(seq![HOST_PLACEHOLDER@ + rest], node)[0] == node + templated_spec(
            seq![rest],
            node,
        )[0],
{
    reveal_strlit("HOST");
    let s = HOST_PLACEHOLDER@ + rest;
    assert(s.subrange(0, 4) =~= HOST_PLACEHOLDER@);
    assert(s.skip(4) =~= rest);
    assert(occurs_at(s, HOST_PLACEHOLDER@, 0));
}

/// The last argument of ssh runs the lines under sudo only where sudo is
/// asked for: with sudo it starts with `sudo `; without it, it is
/// `bash -s` in a screen session and the lines themselves otherwise.
pub proof fn lemma_remote_sudo_only_when_asked(
    args: CommandLineArgs,
    node: Seq<char>,
    lines: Seq<Seq<char>>,
)
    ensures
        ({
            let last = remote_argv_spec(args, node, lines).last();
            &&& args.sudo ==> last.len() >= 5 && last.take(5) == "sudo "@
            &&& !args.sudo && args.inscreen@.len() > 0 ==> last == "bash -s"@
            &&& !args.sudo && args.inscreen@.len() == 0 ==> last == join_spec(lines, "\n"@)
        }),
{
    reveal_strlit("sudo ");
    reveal_strlit("sudo bash -s");
    reveal_strlit("sudo bash -c '");
    let a = remote_argv_spec(args, node, lines);
    let s = remote_script_arg(args.inscreen@, args.sudo, lines);
    assert(a.last() == s);
    if args.sudo {
        if args.inscreen@.len() > 0 {
            assert(s.take(5) =~= "sudo "@);
        } else {
            assert(s.take(5) =~= "sudo "@);
        }
    }
}

} // verus!
