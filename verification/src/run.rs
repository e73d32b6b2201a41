//! A run over many hosts: which host is executed next, what is asked in
//! between, what the run records of each host, and how it ends.
//!
//! The run is a state machine. The caller performs each action (executes a
//! host, waits, asks, opens a shell) and reports what came of it; the run
//! answers with the next action, until it finishes or aborts.
use vstd::prelude::*;
use crate::text::{
    append_all, decimal, decimal_spec, join, join_spec, owned, push_str, views,
};
use crate::order::{lex_lt, lemma_lex_irreflexive, sorted_unique, strictly_sorted};
use crate::output::{output, output_str, color_of, OutputType, Rendered};
use crate::execute::{get_shell, AfterChoice, NodeRequest, NodeResult};
use crate::session::teardown_command;

verus! {

broadcast use vstd::string::group_string_axioms;

/// The progress shown with each host: its number and the number of hosts,
/// and for hosts of groups a note saying so.
pub open spec fn iter_info_spec(only_nodes: bool, number: nat, total: nat) -> Seq<char> {
    if only_nodes {
        " ["@ + decimal_spec(number) + "/"@ + decimal_spec(total) + "]"@
    } else {
        "(Nodes ["@ + decimal_spec(number) + "/"@ + decimal_spec(total) + "])"@
    }
}

/// The progress shown with host `number` of `total`.
pub fn iter_info(only_nodes: bool, number: usize, total: usize) -> (r: String)
    ensures
        r@ == iter_info_spec(only_nodes, number as nat, total as nat),
{
    let mut r = if only_nodes {
        owned(" [")
    } else {
        owned("(Nodes [")
    };
    let a = decimal(number as u64);
    let b = decimal(total as u64);
    push_str(&mut r, a.as_str());
    push_str(&mut r, "/");
    push_str(&mut r, b.as_str());
    if only_nodes {
        push_str(&mut r, "]");
    } else {
        push_str(&mut r, "])");
    }
    r
}

/// Closing the screen session at the end of a run.
pub struct Teardown {
    /// Reported before the first window is closed.
    pub before: Rendered,
    /// The command that closes it.
    pub command: Vec<String>,
    /// Reported afterwards.
    pub after: Vec<Rendered>,
}

/// How a run ends.
pub struct RunSummary {
    /// Closing the screen session, where one was used.
    pub teardown: Option<Teardown>,
    /// The hosts that failed, sorted and each once.
    pub failed: Vec<String>,
    /// The closing report.
    pub report: Vec<Rendered>,
    /// The exit status: the number of hosts that failed.
    pub exit_code: i32,
}

/// The report that ends a run with these failed (sorted, each once) and
/// successful hosts.
pub open spec fn report_texts(failed: Seq<Seq<char>>, successful: Seq<Seq<char>>) -> Seq<Seq<char>> {
    if failed.len() > 0 {
        let first = "\n\nCOMPLETED  - ONE OR MORE NODES FAILED!\n\nFAILED NODES: "@ + join_spec(
            failed,
            ", "@,
        ) + "\n"@;
        if successful.len() > 0 {
            seq![first, "SUCCESSFUL NODES: "@ + join_spec(successful, ", "@) + "\n"@]
        } else {
            seq![first]
        }
    } else {
        seq!["\n\nCOMPLETED - ALL NODES WERE SUCCESSFUL"@]
    }
}

/// The texts of a list of messages.
pub open spec fn texts(m: Seq<Rendered>) -> Seq<Seq<char>> {
    m.map_values(|r: Rendered| r.text@)
}

/// The summary of a run is what `summarize` makes of these lists.
pub open spec fn summary_of(
    s: RunSummary,
    failed: Seq<Seq<char>>,
    successful: Seq<Seq<char>>,
    inscreen: Seq<char>,
) -> bool {
    &&& strictly_sorted(views(s.failed@))
    &&& views(s.failed@).to_set() == failed.to_set()
    &&& s.exit_code == s.failed@.len() as i32
    &&& texts(s.report@) == report_texts(views(s.failed@), successful)
    &&& (forall|i: int|
        0 <= i < s.report@.len() ==> !(#[trigger] s.report@[i]).exit && s.report@[i].color
            == color_of(
            if failed.len() > 0 && i == 0 {
                OutputType::Error
            } else {
                OutputType::Info
            },
        ))
    &&& match s.teardown {
        None => inscreen.len() == 0,
        Some(t) => {
            &&& inscreen.len() > 0
            &&& t.before.text@ == "NOTE: Teardown 'init' screen now"@
            &&& t.before.color == color_of(OutputType::Detail) && !t.before.exit
            &&& forall|i: int|
                0 <= i < t.after@.len() ==> (#[trigger] t.after@[i]).color == color_of(
                    OutputType::Info,
                ) && !t.after@[i].exit
            &&& views(t.command@) == seq!["screen"@, "-x"@, inscreen, "-p"@, "init"@, "-X"@, "kill"@]
            &&& texts(t.after@) == seq![
                "NOTE: command were executed in a screen session, attach to the screen session by executing 'screen -x "@
                    + inscreen + "'"@,
                "(see 'man screen' or 'STRG + a :help' for getting information about handling screen sessions)"@,
            ]
        },
    }
}

/// A strictly sorted list holds each of its strings once.
pub proof fn lemma_sorted_distinct(s: Seq<Seq<char>>)
    requires
        strictly_sorted(s),
    ensures
        s.no_duplicates(),
        s.to_set().len() == s.len(),
{
    assert forall|i: int, j: int| 0 <= i < s.len() && 0 <= j < s.len() && i != j implies s[i]
        != s[j] by {
        lemma_lex_irreflexive(s[i]);
        if i < j {
            assert(lex_lt(s[i], s[j]));
        } else {
            assert(lex_lt(s[j], s[i]));
        }
    }
    s.unique_seq_to_set();
}

/// How a run ends with these failed and successful hosts: the screen
/// session closed where one was used, then the report of the failed hosts
/// (sorted, each once) and the successful ones, and the number of failed
/// hosts as the exit status.
pub fn summarize(failed: &Vec<String>, successful: &Vec<String>, inscreen: &str) -> (r: RunSummary)
    ensures
        summary_of(r, views(failed@), views(successful@), inscreen@),
{
    let teardown = if inscreen.unicode_len() > 0 {
        let before = output_str("NOTE: Teardown 'init' screen now", OutputType::Detail);
        let command = teardown_command(inscreen);
        let mut t = owned(
            "NOTE: command were executed in a screen session, attach to the screen session by executing 'screen -x ",
        );
        push_str(&mut t, inscreen);
        push_str(&mut t, "'");
        let mut after: Vec<Rendered> = Vec::new();
        after.push(output(t, OutputType::Info));
        after.push(
            output_str(
                "(see 'man screen' or 'STRG + a :help' for getting information about handling screen sessions)",
                OutputType::Info,
            ),
        );
        assert(texts(after@) =~= seq![
            "NOTE: command were executed in a screen session, attach to the screen session by executing 'screen -x "@
                + inscreen@ + "'"@,
            "(see 'man screen' or 'STRG + a :help' for getting information about handling screen sessions)"@,
        ]);
        Some(Teardown { before, command, after })
    } else {
        None
    };
    let sorted = sorted_unique(failed);
    let mut report: Vec<Rendered> = Vec::new();
    if sorted.len() > 0 {
        let mut t = owned("\n\nCOMPLETED  - ONE OR MORE NODES FAILED!\n\nFAILED NODES: ");
        let j = join(&sorted, ", ");
        push_str(&mut t, j.as_str());
        push_str(&mut t, "\n");
        report.push(output(t, OutputType::Error));
        if successful.len() > 0 {
            let mut u = owned("SUCCESSFUL NODES: ");
            let k = join(successful, ", ");
            push_str(&mut u, k.as_str());
            push_str(&mut u, "\n");
            report.push(output(u, OutputType::Info));
        }
    } else {
        report.push(output_str("\n\nCOMPLETED - ALL NODES WERE SUCCESSFUL", OutputType::Info));
    }
    proof {
        if views(failed@).len() > 0 {
            assert(views(failed@).to_set().contains(views(failed@)[0]));
            if sorted@.len() == 0 {
                assert(views(sorted@).to_set() =~= Set::<Seq<char>>::empty());
            }
        } else {
            assert(views(failed@).to_set() =~= Set::<Seq<char>>::empty());
            if sorted@.len() > 0 {
                assert(views(sorted@).to_set().contains(views(sorted@)[0]));
            }
        }
    }
    assert(texts(report@) =~= report_texts(views(sorted@), views(successful@)));
    let exit_code = sorted.len() as i32;
    RunSummary { teardown, failed: sorted, report, exit_code }
}

/// The state of a run over the hosts `nodes`.
pub struct Run {
    /// The hosts, in order.
    pub nodes: Vec<String>,
    /// The items were hosts rather than groups.
    pub only_nodes: bool,
    /// Execute locally rather than by ssh.
    pub local_execution: bool,
    /// The lines to execute on each host.
    pub execution_lines: Vec<String>,
    /// Seconds to wait after each host.
    pub wait: u64,
    /// Ask after each host how to go on.
    pub prompt: bool,
    /// The screen session, if any.
    pub inscreen: String,
    /// The position of the host at hand.
    pub current: usize,
    /// The hosts recorded as failed, in order (a host executed again may
    /// occur again).
    pub failed: Vec<String>,
    /// The hosts recorded as successful, in order.
    pub successful: Vec<String>,
    /// Each outcome reported so far, with the host it was reported for.
    pub history: Ghost<Seq<(Seq<char>, NodeResult)>>,
}

/// An outcome that records its host as failed.
pub open spec fn failing(r: NodeResult) -> bool {
    r == NodeResult::Failed || r == NodeResult::Quit
}

/// The hosts of a history, in order.
pub open spec fn hosts_of(h: Seq<(Seq<char>, NodeResult)>) -> Seq<Seq<char>> {
    h.map_values(|e: (Seq<char>, NodeResult)| e.0)
}

/// The hosts that a history records as failed, in order.
pub open spec fn failed_in(h: Seq<(Seq<char>, NodeResult)>) -> Seq<Seq<char>>
    decreases h.len(),
{
    if h.len() == 0 {
        Seq::empty()
    } else if failing(h.last().1) {
        failed_in(h.drop_last()).push(h.last().0)
    } else {
        failed_in(h.drop_last())
    }
}

/// The hosts that a history records as successful, in order.
pub open spec fn succeeded_in(h: Seq<(Seq<char>, NodeResult)>) -> Seq<Seq<char>>
    decreases h.len(),
{
    if h.len() == 0 {
        Seq::empty()
    } else if h.last().1 == NodeResult::Succeeded {
        succeeded_in(h.drop_last()).push(h.last().0)
    } else {
        succeeded_in(h.drop_last())
    }
}

/// What the run asks its caller to do next.
pub enum RunAction {
    /// Execute a host, then report the outcome with `executed`.
    Execute(NodeRequest),
    /// Report the note, wait this long, then call `waited`.
    Wait { seconds: u64, note: Rendered },
    /// Ask how to go on, then report the answer with `answered`.
    Prompt,
    /// Open a shell on the host, then call `shell_closed`.
    Shell(NodeRequest),
    /// The run is over.
    Finish(RunSummary),
    /// The run ends with this fatal message.
    Abort(Rendered),
}

/// The action aborts the run with a fatal message of this text.
pub open spec fn aborts_with(a: RunAction, text: Seq<char>) -> bool {
    a matches RunAction::Abort(m) && m.text@ == text && m.color == color_of(OutputType::Fatal)
        && m.exit
}

/// The action waits this long, reporting it.
pub open spec fn waits(a: RunAction, seconds: u64) -> bool {
    a matches RunAction::Wait { seconds: w, note } && w == seconds && note.text@ == "\nWaiting for "@
        + decimal_spec(seconds as nat) + " seconds before continue\n"@ && note.color == color_of(
        OutputType::Info,
    ) && !note.exit
}

/// The action opens a shell on the host named `node`.
pub open spec fn opens_shell(a: RunAction, node: Seq<char>) -> bool {
    a matches RunAction::Shell(req) && req.node@ == node && req.iter_information@ == "Shell"@
        && req.local_execution && views(req.execution_lines@) == seq!["ssh HOST"@]
}

impl Run {
    /// The request that executes host `i`: its name, its progress, the lines.
    pub open spec fn request_for(self, r: NodeRequest, i: int) -> bool {
        &&& r.node@ == self.nodes@[i]@
        &&& r.iter_information@ == iter_info_spec(self.only_nodes, (i + 1) as nat, self.nodes@.len())
        &&& r.local_execution == self.local_execution
        &&& views(r.execution_lines@) == views(self.execution_lines@)
    }

    /// The action executes the host at position `i`.
    pub open spec fn executes(self, a: RunAction, i: int) -> bool {
        a matches RunAction::Execute(req) && self.request_for(req, i)
    }

    /// The action finishes the run with what it recorded.
    pub open spec fn finishes(self, a: RunAction) -> bool {
        a matches RunAction::Finish(s) && summary_of(
            s,
            views(self.failed@),
            views(self.successful@),
            self.inscreen@,
        )
    }

    /// What every step of a run keeps: the position is at most the number
    /// of hosts, every recorded host is one of the run's hosts, and the
    /// records are what the reported outcomes make of their hosts.
    pub open spec fn wf(self) -> bool {
        &&& self.current <= self.nodes@.len()
        &&& views(self.failed@) == failed_in(self.history@)
        &&& views(self.successful@) == succeeded_in(self.history@)
        &&& forall|i: int|
            0 <= i < self.failed@.len() ==> views(self.nodes@).contains(
                #[trigger] self.failed@[i]@,
            )
        &&& forall|i: int|
            0 <= i < self.successful@.len() ==> views(self.nodes@).contains(
                #[trigger] self.successful@[i]@,
            )
    }

    /// The same run with other progress and records.
    pub open spec fn same_setup(self, other: Run) -> bool {
        &&& self.nodes == other.nodes
        &&& self.only_nodes == other.only_nodes
        &&& self.local_execution == other.local_execution
        &&& self.execution_lines == other.execution_lines
        &&& self.wait == other.wait
        &&& self.prompt == other.prompt
        &&& self.inscreen == other.inscreen
    }

    /// The same run, unchanged.
    pub open spec fn unchanged(self, other: Run) -> bool {
        &&& self.same_records(other)
        &&& self.current == other.current
    }

    /// Every host before the one at hand was executed once, in order, and
    /// nothing else: the run is ready to execute the host at hand.
    pub open spec fn ready(self) -> bool {
        hosts_of(self.history@) == views(self.nodes@).take(self.current as int)
    }

    /// Every host up to the one at hand was executed once, in order, and
    /// nothing else: the run waits or asks before it goes on.
    pub open spec fn pending(self) -> bool {
        &&& self.current < self.nodes@.len()
        &&& hosts_of(self.history@) == views(self.nodes@).take(self.current + 1)
    }

    /// Every host was executed once, in order.
    pub open spec fn complete(self) -> bool {
        self.ready() && self.current == self.nodes@.len()
    }

    /// Each outcome reported is what `outcome` gives for its host.
    pub open spec fn follows(self, outcome: spec_fn(Seq<char>) -> NodeResult) -> bool {
        forall|i: int|
            0 <= i < self.history@.len() ==> (#[trigger] self.history@[i]).1 == outcome(
                self.history@[i].0,
            )
    }

    /// What going on from the host at `from` does: the next host is
    /// executed, or, after the last, the run finishes.
    pub open spec fn moved_on(self, from: usize, a: RunAction) -> bool {
        &&& self.current == from + 1
        &&& if self.current < self.nodes@.len() {
            self.executes(a, self.current as int)
        } else {
            self.finishes(a)
        }
    }

    /// The same records and setup.
    pub open spec fn same_records(self, other: Run) -> bool {
        &&& self.same_setup(other)
        &&& self.failed == other.failed
        &&& self.successful == other.successful
        &&& self.history == other.history
    }

    /// A run over `nodes` that has not started.
    pub fn new(
        nodes: Vec<String>,
        only_nodes: bool,
        local_execution: bool,
        execution_lines: Vec<String>,
        wait: u64,
        prompt: bool,
        inscreen: String,
    ) -> (r: Run)
        ensures
            r.nodes == nodes,
            r.only_nodes == only_nodes,
            r.local_execution == local_execution,
            r.execution_lines == execution_lines,
            r.wait == wait,
            r.prompt == prompt,
            r.inscreen == inscreen,
            r.current == 0,
            r.failed@.len() == 0,
            r.successful@.len() == 0,
            r.history@.len() == 0,
            r.wf(),
            r.ready(),
    {
        let r = Run {
            nodes,
            only_nodes,
            local_execution,
            execution_lines,
            wait,
            prompt,
            inscreen,
            current: 0,
            failed: Vec::new(),
            successful: Vec::new(),
            history: Ghost(Seq::empty()),
        };
        assert(hosts_of(r.history@) =~= views(r.nodes@).take(0));
        assert(views(r.failed@) =~= failed_in(r.history@));
        assert(views(r.successful@) =~= succeeded_in(r.history@));
        r
    }

    /// The request that executes the host at position `i`.
    fn request(&self, i: usize) -> (r: NodeRequest)
        requires
            i < self.nodes@.len(),
        ensures
            self.request_for(r, i as int),
    {
        let node = owned(self.nodes[i].as_str());
        let n = self.nodes.len();
        let info = iter_info(self.only_nodes, i + 1, n);
        let mut lines: Vec<String> = Vec::new();
        append_all(&mut lines, &self.execution_lines);
        assert(views(lines@) =~= views(self.execution_lines@));
        NodeRequest {
            node,
            iter_information: info,
            local_execution: self.local_execution,
            execution_lines: lines,
        }
    }

    /// The end of the run.
    fn finish(&self) -> (a: RunAction)
        ensures
            self.finishes(a),
    {
        RunAction::Finish(summarize(&self.failed, &self.successful, self.inscreen.as_str()))
    }

    /// Going on to the next host.
    fn advance(&mut self) -> (a: RunAction)
        requires
            old(self).current < old(self).nodes@.len(),
        ensures
            final(self).same_records(*old(self)),
            final(self).moved_on(old(self).current, a),
    {
        let n = self.nodes.len();
        self.current = self.current + 1;
        if self.current < n {
            RunAction::Execute(self.request(self.current))
        } else {
            self.finish()
        }
    }

    /// The first action: execute the first host, or abort where there is
    /// none.
    pub fn start(&self) -> (a: RunAction)
        ensures
            self.nodes@.len() == 0 ==> aborts_with(a, "EXIT: No nodes were specified"@),
            self.nodes@.len() > 0 && self.current < self.nodes@.len() ==> self.executes(
                a,
                self.current as int,
            ),
            self.nodes@.len() > 0 && self.current >= self.nodes@.len() ==> self.finishes(a),
    {
        if self.nodes.len() == 0 {
            RunAction::Abort(output_str("EXIT: No nodes were specified", OutputType::Fatal))
        } else if self.current < self.nodes.len() {
            RunAction::Execute(self.request(self.current))
        } else {
            self.finish()
        }
    }

    /// Records the outcome of the host at hand: a failure or a quit as
    /// failed, a success as successful, a skip not at all. A quit ends the
    /// run; else the run waits where asked to, then asks where asked to,
    /// else goes on to the next host.
    pub fn executed(&mut self, result: NodeResult) -> (a: RunAction)
        ensures
            old(self).wf() ==> final(self).wf(),
            old(self).current >= old(self).nodes@.len() ==> final(self).unchanged(*old(self))
                && old(self).finishes(a),
            old(self).current < old(self).nodes@.len() ==> {
                let node = old(self).nodes@[old(self).current as int];
                &&& final(self).same_setup(*old(self))
                &&& final(self).history@ == old(self).history@.push((node@, result))
                &&& old(self).ready() ==> if final(self).current == old(self).current {
                    final(self).pending()
                } else {
                    final(self).ready()
                }
                &&& views(final(self).failed@) == if result == NodeResult::Failed || result
                    == NodeResult::Quit {
                    views(old(self).failed@).push(node@)
                } else {
                    views(old(self).failed@)
                }
                &&& views(final(self).successful@) == if result == NodeResult::Succeeded {
                    views(old(self).successful@).push(node@)
                } else {
                    views(old(self).successful@)
                }
                &&& if result == NodeResult::Quit {
                    final(self).current == old(self).current && final(self).finishes(a)
                } else if old(self).wait > 0 {
                    final(self).current == old(self).current && waits(a, old(self).wait)
                } else if old(self).prompt {
                    final(self).current == old(self).current && a is Prompt
                } else {
                    final(self).moved_on(old(self).current, a)
                }
            },
    {
        if self.current >= self.nodes.len() {
            return self.finish();
        }
        let ghost f0 = views(self.failed@);
        let ghost s0 = views(self.successful@);
        let ghost h0 = self.history@;
        let node = owned(self.nodes[self.current].as_str());
        assert(views(self.nodes@)[self.current as int] == node@);
        let ghost entry = (node@, result);
        self.history = Ghost(h0.push(entry));
        proof {
            let h1 = self.history@;
            assert(h1.drop_last() =~= h0);
            assert(hosts_of(h1) =~= hosts_of(h0).push(node@));
            assert(views(self.nodes@).take(self.current + 1) =~= views(self.nodes@).take(
                self.current as int,
            ).push(node@));
        }
        match result {
            NodeResult::Failed => {
                self.failed.push(node);
                assert(views(self.failed@) =~= f0.push(node@));
            },
            NodeResult::Quit => {
                self.failed.push(node);
                assert(views(self.failed@) =~= f0.push(node@));
            },
            NodeResult::Succeeded => {
                self.successful.push(node);
                assert(views(self.successful@) =~= s0.push(node@));
            },
            NodeResult::Skipped => {},
        }
        if result == NodeResult::Quit {
            return self.finish();
        }
        if self.wait > 0 {
            let mut t = owned("\nWaiting for ");
            let d = decimal(self.wait);
            push_str(&mut t, d.as_str());
            push_str(&mut t, " seconds before continue\n");
            return RunAction::Wait { seconds: self.wait, note: output(t, OutputType::Info) };
        }
        if self.prompt {
            return RunAction::Prompt;
        }
        self.advance()
    }

    /// After the wait: ask where asked to, else go on to the next host.
    pub fn waited(&mut self) -> (a: RunAction)
        ensures
            old(self).wf() ==> final(self).wf(),
            old(self).prompt ==> final(self).unchanged(*old(self)) && a is Prompt,
            !old(self).prompt && old(self).current < old(self).nodes@.len() ==> final(self).same_records(*old(self)) && final(self).moved_on(old(self).current, a),
            old(self).pending() && !old(self).prompt ==> final(self).ready(),
            !old(self).prompt && old(self).current >= old(self).nodes@.len() ==> final(self).unchanged(*old(self)) && old(self).finishes(a),
    {
        if self.prompt {
            return RunAction::Prompt;
        }
        if self.current >= self.nodes.len() {
            return self.finish();
        }
        self.advance()
    }

    /// After the answer to the prompt: go on to the next host, open a shell
    /// on the host at hand, execute it again, end the run, or abort where
    /// the prompt was interrupted.
    pub fn answered(&mut self, choice: AfterChoice) -> (a: RunAction)
        ensures
            old(self).wf() ==> final(self).wf(),
            old(self).current >= old(self).nodes@.len() ==> final(self).unchanged(*old(self))
                && old(self).finishes(a),
            old(self).current < old(self).nodes@.len() ==> match choice {
                AfterChoice::Continue => final(self).same_records(*old(self)) && final(self).moved_on(old(self).current, a)
                    && (old(self).pending() ==> final(self).ready()),
                AfterChoice::Shell => final(self).unchanged(*old(self)) && opens_shell(
                    a,
                    old(self).nodes@[old(self).current as int]@,
                ),
                AfterChoice::Retry => final(self).unchanged(*old(self)) && old(self).executes(
                    a,
                    old(self).current as int,
                ),
                AfterChoice::Quit => final(self).unchanged(*old(self)) && old(self).finishes(a),
                AfterChoice::Interrupted => final(self).unchanged(*old(self)) && aborts_with(
                    a,
                    "Interrupted from choice"@,
                ),
            },
    {
        if self.current >= self.nodes.len() {
            return self.finish();
        }
        match choice {
            AfterChoice::Continue => self.advance(),
            AfterChoice::Shell => RunAction::Shell(get_shell(owned(self.nodes[self.current].as_str()))),
            AfterChoice::Retry => RunAction::Execute(self.request(self.current)),
            AfterChoice::Quit => self.finish(),
            AfterChoice::Interrupted => RunAction::Abort(
                output_str("Interrupted from choice", OutputType::Fatal),
            ),
        }
    }

    /// After the shell: ask again.
    pub fn shell_closed(&self) -> (a: RunAction)
        ensures
            a is Prompt,
    {
        RunAction::Prompt
    }
}

/// The exit status of a run is the number of different hosts that failed.
pub proof fn lemma_exit_code_counts_failed(
    s: RunSummary,
    failed: Seq<Seq<char>>,
    successful: Seq<Seq<char>>,
    inscreen: Seq<char>,
)
    requires
        summary_of(s, failed, successful, inscreen),
    ensures
        s.exit_code == failed.to_set().len() as i32,
        s.failed@.len() == failed.to_set().len(),
{
    lemma_sorted_distinct(views(s.failed@));
}

/// A run in which no host failed ends with exit status 0 and the report
/// that all hosts were successful.
pub proof fn lemma_all_successful(
    s: RunSummary,
    successful: Seq<Seq<char>>,
    inscreen: Seq<char>,
)
    requires
        summary_of(s, Seq::empty(), successful, inscreen),
    ensures
        s.exit_code == 0,
        texts(s.report@) == seq!["\n\nCOMPLETED - ALL NODES WERE SUCCESSFUL"@],
{
    if s.failed@.len() > 0 {
        assert(views(s.failed@).to_set().contains(views(s.failed@)[0]));
        assert(Seq::<Seq<char>>::empty().to_set() =~= Set::<Seq<char>>::empty());
    }
}

/// The hosts that a run reports as failed are hosts of the run.
pub proof fn lemma_failed_are_hosts(run: Run, s: RunSummary)
    requires
        run.wf(),
        summary_of(s, views(run.failed@), views(run.successful@), run.inscreen@),
    ensures
        forall|i: int| 0 <= i < s.failed@.len() ==> views(run.nodes@).contains(#[trigger] s.failed@[i]@),
{
    assert forall|i: int| 0 <= i < s.failed@.len() implies views(run.nodes@).contains(
        #[trigger] s.failed@[i]@,
    ) by {
        let x = s.failed@[i]@;
        assert(views(s.failed@)[i] == x);
        assert(views(s.failed@).to_set().contains(x));
        assert(views(run.failed@).to_set().contains(x));
        let j = choose|j: int| 0 <= j < views(run.failed@).len() && views(run.failed@)[j] == x;
        assert(run.failed@[j]@ == x);
    }
}

/// The exit status of a run does not depend on the order of its hosts:
/// two runs whose failed hosts are the same up to order end with the same
/// status.
pub proof fn lemma_exit_code_order_free(
    s1: RunSummary,
    failed1: Seq<Seq<char>>,
    successful1: Seq<Seq<char>>,
    inscreen1: Seq<char>,
    s2: RunSummary,
    failed2: Seq<Seq<char>>,
    successful2: Seq<Seq<char>>,
    inscreen2: Seq<char>,
)
    requires
        summary_of(s1, failed1, successful1, inscreen1),
        summary_of(s2, failed2, successful2, inscreen2),
        failed1.to_multiset() == failed2.to_multiset(),
    ensures
        s1.exit_code == s2.exit_code,
{
    failed1.to_multiset_ensures();
    failed2.to_multiset_ensures();
    assert(failed1.to_set() =~= failed2.to_set()) by {
        assert forall|x: Seq<char>| failed1.to_set().contains(x) == failed2.to_set().contains(x) by {
            assert(failed1.contains(x) == (failed1.to_multiset().count(x) > 0));
            assert(failed2.contains(x) == (failed2.to_multiset().count(x) > 0));
        }
    }
    lemma_exit_code_counts_failed(s1, failed1, successful1, inscreen1);
    lemma_exit_code_counts_failed(s2, failed2, successful2, inscreen2);
}

/// A host is among the failed hosts of a history exactly where it was
/// reported with an outcome that fails.
proof fn lemma_failed_in_contains(h: Seq<(Seq<char>, NodeResult)>, x: Seq<char>)
    ensures
        failed_in(h).contains(x) <==> exists|i: int|
            0 <= i < h.len() && (#[trigger] h[i]).0 == x && failing(h[i].1),
    decreases h.len(),
{
    if h.len() > 0 {
        let p = h.drop_last();
        lemma_failed_in_contains(p, x);
        if failed_in(h).contains(x) {
            if failing(h.last().1) && h.last().0 == x {
                assert(h[h.len() - 1].0 == x);
            } else {
                assert(failed_in(p).contains(x)) by {
                    if failing(h.last().1) {
                        let k = choose|k: int| 0 <= k < failed_in(h).len() && failed_in(h)[k] == x;
                        assert(k < failed_in(p).len());
                        assert(failed_in(p)[k] == x);
                    }
                }
                let i = choose|i: int| 0 <= i < p.len() && (#[trigger] p[i]).0 == x && failing(p[i].1);
                assert(h[i] == p[i]);
            }
        }
        if exists|i: int| 0 <= i < h.len() && (#[trigger] h[i]).0 == x && failing(h[i].1) {
            let i = choose|i: int| 0 <= i < h.len() && (#[trigger] h[i]).0 == x && failing(h[i].1);
            if i == h.len() - 1 {
                assert(failed_in(h).last() == x);
            } else {
                assert(p[i] == h[i]);
                assert(failed_in(p).contains(x));
                let k = choose|k: int| 0 <= k < failed_in(p).len() && failed_in(p)[k] == x;
                if failing(h.last().1) {
                    assert(failed_in(h)[k] == x);
                }
            }
        }
    }
}

/// The hosts that a run over every host records as failed are its hosts
/// whose outcome fails.
proof fn lemma_complete_failed_set(run: Run, outcome: spec_fn(Seq<char>) -> NodeResult)
    requires
        run.wf(),
        run.complete(),
        run.follows(outcome),
    ensures
        views(run.failed@).to_set() == views(run.nodes@).to_set().filter(
            |x: Seq<char>| failing(outcome(x)),
        ),
{
    let h = run.history@;
    let n = views(run.nodes@);
    assert(n.take(n.len() as int) =~= n);
    assert(hosts_of(h) == n);
    assert forall|x: Seq<char>|
        views(run.failed@).to_set().contains(x) == n.to_set().filter(
            |y: Seq<char>| failing(outcome(y)),
        ).contains(x) by {
        lemma_failed_in_contains(h, x);
        if failed_in(h).contains(x) {
            let i = choose|i: int| 0 <= i < h.len() && (#[trigger] h[i]).0 == x && failing(h[i].1);
            assert(hosts_of(h)[i] == x);
            assert(n[i] == x);
        }
        if n.contains(x) && failing(outcome(x)) {
            let i = choose|i: int| 0 <= i < n.len() && n[i] == x;
            assert(hosts_of(h)[i] == h[i].0);
            assert(h[i].0 == x);
        }
    }
    assert(views(run.failed@).to_set() =~= n.to_set().filter(|x: Seq<char>| failing(outcome(x))));
}

/// The exit status of a run does not depend on the order of its hosts:
/// where each host's outcome does not depend on when it is executed, two
/// runs that executed the same hosts, in any order, each host once, report
/// the same failed hosts and end with the same status.
pub proof fn lemma_exit_status_order_free(
    run1: Run,
    s1: RunSummary,
    run2: Run,
    s2: RunSummary,
    outcome: spec_fn(Seq<char>) -> NodeResult,
)
    requires
        run1.wf(),
        run2.wf(),
        run1.complete(),
        run2.complete(),
        run1.follows(outcome),
        run2.follows(outcome),
        views(run1.nodes@).to_multiset() == views(run2.nodes@).to_multiset(),
        run1.finishes(RunAction::Finish(s1)),
        run2.finishes(RunAction::Finish(s2)),
    ensures
        views(s1.failed@).to_set() == views(s2.failed@).to_set(),
        s1.exit_code == s2.exit_code,
{
    let n1 = views(run1.nodes@);
    let n2 = views(run2.nodes@);
    n1.to_multiset_ensures();
    n2.to_multiset_ensures();
    assert(n1.to_set() =~= n2.to_set()) by {
        assert forall|x: Seq<char>| n1.to_set().contains(x) == n2.to_set().contains(x) by {
            assert(n1.contains(x) == (n1.to_multiset().count(x) > 0));
            assert(n2.contains(x) == (n2.to_multiset().count(x) > 0));
        }
    }
    lemma_complete_failed_set(run1, outcome);
    lemma_complete_failed_set(run2, outcome);
    lemma_exit_code_counts_failed(s1, views(run1.failed@), views(run1.successful@), run1.inscreen@);
    lemma_exit_code_counts_failed(s2, views(run2.failed@), views(run2.successful@), run2.inscreen@);
}

} // verus!
