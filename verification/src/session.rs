//! The screen session that executions run in when one is named: how many
//! sessions of the name exist, how one is set up, and how it is torn down.
use vstd::prelude::*;
use crate::text::{decimal, decimal_spec, lines, lines_spec, owned, push_owned, push_str, views};
use crate::pattern::{compile, is_match, regex_compiles, regex_is_match};
use crate::output::{output, color_of, OutputType, Rendered};
use crate::execute::argv_views;

verus! {

broadcast use vstd::string::group_string_axioms;

/// The regular expression for a line of `screen -ls` that lists a session.
pub const SCREEN_SESSION_PATTERN: &'static str = "\\s*\\d+\\..*\\(.*\\)\\s*\\(.*\\)";

/// How many times the session is looked for while it is set up (attempts
/// 1 up to, not including, this number).
pub const SESSION_ATTEMPTS: u32 = 30;

/// The number of lines that the pattern matches.
pub open spec fn count_matching(ls: Seq<Seq<char>>, pattern: Seq<char>) -> nat
    decreases ls.len(),
{
    if ls.len() == 0 {
        0
    } else {
        count_matching(ls.drop_last(), pattern) + if regex_is_match(pattern, ls.last()) {
            1nat
        } else {
            0nat
        }
    }
}

/// The command that lists the screen sessions of a name.
pub fn screen_list_command(inscreen: &str) -> (r: Vec<String>)
    ensures
        views(r@) == seq!["screen"@, "-ls"@, inscreen@],
{
    let mut r: Vec<String> = Vec::new();
    push_owned(&mut r, "screen");
    push_owned(&mut r, "-ls");
    push_owned(&mut r, inscreen);
    assert(views(r@) =~= seq!["screen"@, "-ls"@, inscreen@]);
    r
}

/// Why the sessions could not be counted.
#[derive(Clone, Copy, Debug, PartialEq, Eq, Structural)]
pub enum SessionError {
    /// The `regex` crate refused `SCREEN_SESSION_PATTERN`.
    PatternRejected,
}

/// The number of sessions that the output of `screen -ls` lists: the lines
/// that `SCREEN_SESSION_PATTERN` matches.
pub fn count_sessions(listing: &str) -> (r: Result<usize, SessionError>)
    ensures
        r is Ok <==> regex_compiles(SCREEN_SESSION_PATTERN@),
        r matches Ok(n) ==> n == count_matching(lines_spec(listing@), SCREEN_SESSION_PATTERN@),
{
    let p = match compile(SCREEN_SESSION_PATTERN) {
        None => {
            return Err(SessionError::PatternRejected);
        },
        Some(p) => p,
    };
    let ls = lines(listing);
    let mut n: usize = 0;
    let mut i: usize = 0;
    assert(views(ls@).take(0) =~= Seq::<Seq<char>>::empty());
    while i < ls.len()
        invariant
            p@ == SCREEN_SESSION_PATTERN@,
            views(ls@) == lines_spec(listing@),
            i <= ls@.len(),
            n <= i,
            n == count_matching(views(ls@).take(i as int), SCREEN_SESSION_PATTERN@),
        decreases ls@.len() - i,
    {
        proof {
            let t = views(ls@).take(i + 1);
            assert(t.drop_last() =~= views(ls@).take(i as int));
            assert(t.last() == ls@[i as int]@);
        }
        if is_match(&p, ls[i].as_str()) {
            n = n + 1;
        }
        i = i + 1;
    }
    assert(views(ls@).take(ls@.len() as int) =~= views(ls@));
    Ok(n)
}

/// The command that starts the session with a first window `init`.
pub fn create_session_command(inscreen: &str) -> (r: Vec<String>)
    ensures
        views(r@) == seq![
            "screen"@,
            "-t"@,
            "init"@,
            "-S"@,
            inscreen@,
            "-d"@,
            "-m"@,
            "sleep"@,
            "120"@,
        ],
{
    let mut r: Vec<String> = Vec::new();
    push_owned(&mut r, "screen");
    push_owned(&mut r, "-t");
    push_owned(&mut r, "init");
    push_owned(&mut r, "-S");
    push_owned(&mut r, inscreen);
    push_owned(&mut r, "-d");
    push_owned(&mut r, "-m");
    push_owned(&mut r, "sleep");
    push_owned(&mut r, "120");
    assert(views(r@) =~= seq![
        "screen"@,
        "-t"@,
        "init"@,
        "-S"@,
        inscreen@,
        "-d"@,
        "-m"@,
        "sleep"@,
        "120"@,
    ]);
    r
}

/// `prefix`, the session name between `>>>` and `<<<`.
pub open spec fn named_spec(prefix: Seq<char>, inscreen: Seq<char>) -> Seq<char> {
    prefix + ">>>"@ + inscreen + "<<<"@
}

/// `prefix` followed by the session name between `>>>` and `<<<`.
fn named(prefix: &str, inscreen: &str) -> (r: String)
    ensures
        r@ == named_spec(prefix@, inscreen@),
{
    let mut r = owned(prefix);
    push_str(&mut r, ">>>");
    push_str(&mut r, inscreen);
    push_str(&mut r, "<<<");
    r
}

/// What to do after the sessions of the name were counted.
pub enum SessionStep {
    /// No session yet: start one with the command, report, wait a second,
    /// count again and report the count with `observed`.
    Create { command: Vec<String>, note: Rendered },
    /// The session is there: wait a second, count again, and check that
    /// count with `SessionAttempts::checked`.
    Settle,
    /// No attempts are left: check this count with
    /// `SessionAttempts::checked`.
    Check,
    /// Setting up fails with this fatal message.
    Abort(Rendered),
}

/// The attempts to find the session being set up, counted from 1; there
/// are `SESSION_ATTEMPTS - 1` of them.
pub struct SessionAttempts {
    pub inscreen: String,
    pub attempt: u32,
}

/// The number of sessions that are started, from attempt `attempt` on,
/// while none is ever found.
pub open spec fn starts_while_absent(attempt: int) -> nat
    decreases SESSION_ATTEMPTS - attempt,
{
    if attempt >= SESSION_ATTEMPTS {
        0
    } else {
        1 + starts_while_absent(attempt + 1)
    }
}

/// The number of starts from attempt `a`.
proof fn lemma_starts_count(a: int)
    requires
        1 <= a <= SESSION_ATTEMPTS,
    ensures
        starts_while_absent(a) == SESSION_ATTEMPTS - a,
    decreases SESSION_ATTEMPTS - a,
{
    if a < SESSION_ATTEMPTS {
        lemma_starts_count(a + 1);
    }
}

/// Where no session is ever found, the setup starts one at each of the
/// attempts `1 .. SESSION_ATTEMPTS`, 29 in all, before the final check.
pub proof fn lemma_starts_while_absent()
    ensures
        starts_while_absent(1) == SESSION_ATTEMPTS - 1,
        starts_while_absent(1) == 29,
{
    lemma_starts_count(1);
}

impl SessionAttempts {
    /// The attempts for the session `inscreen`, starting with the first.
    pub fn new(inscreen: String) -> (r: SessionAttempts)
        ensures
            r.inscreen == inscreen,
            r.attempt == 1,
    {
        SessionAttempts { inscreen, attempt: 1 }
    }

    /// What to do with `sessions`, the number of sessions of the name just
    /// counted: once no attempt is left, check it; with none, start one and
    /// go on to the next attempt; with one, go on to the check, unless it
    /// was there before the first attempt; with more, fail.
    pub fn observed(&mut self, sessions: usize) -> (r: SessionStep)
        ensures
            final(self).inscreen == old(self).inscreen,
            old(self).attempt >= SESSION_ATTEMPTS ==> r is Check && final(self).attempt == old(
                self,
            ).attempt,
            old(self).attempt < SESSION_ATTEMPTS && sessions == 0 ==> (r matches SessionStep::Create {
                command,
                note,
            } && views(command@) == seq![
                "screen"@,
                "-t"@,
                "init"@,
                "-S"@,
                old(self).inscreen@,
                "-d"@,
                "-m"@,
                "sleep"@,
                "120"@,
            ] && note.text@ == "Wait for screen session for "@ + decimal_spec(
                old(self).attempt as nat,
            ) + " seconds"@ && note.color == color_of(OutputType::Info) && !note.exit
                && final(self).attempt == old(self).attempt + 1),
            old(self).attempt < SESSION_ATTEMPTS && sessions == 1 && old(self).attempt == 1 ==> (r matches SessionStep::Abort(
                m,
            ) && m.text@ == named_spec(
                "FAILED: There already a screen with the name "@,
                old(self).inscreen@,
            ) && m.color == color_of(OutputType::Fatal) && m.exit),
            old(self).attempt < SESSION_ATTEMPTS && sessions == 1 && old(self).attempt != 1 ==> r is Settle
                && final(self).attempt == old(self).attempt,
            old(self).attempt < SESSION_ATTEMPTS && sessions > 1 ==> (r matches SessionStep::Abort(m)
                && m.text@ == named_spec(
                "FAILED: There more screen with the name "@,
                old(self).inscreen@,
            ) && m.color == color_of(OutputType::Fatal) && m.exit),
    {
        if self.attempt >= SESSION_ATTEMPTS {
            return SessionStep::Check;
        }
        if sessions == 0 {
            let command = create_session_command(self.inscreen.as_str());
            let mut t = owned("Wait for screen session for ");
            let d = decimal(self.attempt as u64);
            push_str(&mut t, d.as_str());
            push_str(&mut t, " seconds");
            self.attempt = self.attempt + 1;
            SessionStep::Create { command, note: output(t, OutputType::Info) }
        } else if sessions == 1 {
            if self.attempt == 1 {
                SessionStep::Abort(
                    output(
                        named("FAILED: There already a screen with the name ", self.inscreen.as_str()),
                        OutputType::Fatal,
                    ),
                )
            } else {
                SessionStep::Settle
            }
        } else {
            SessionStep::Abort(
                output(
                    named("FAILED: There more screen with the name ", self.inscreen.as_str()),
                    OutputType::Fatal,
                ),
            )
        }
    }

    /// The final check: exactly one session of the name must exist, which
    /// is then configured.
    pub fn checked(&self, sessions: usize) -> (r: Result<SessionConfig, Rendered>)
        ensures
            sessions != 1 ==> (r matches Err(m) && m.text@ == named_spec(
                "FAILED: Failed to initialize a screen with name "@,
                self.inscreen@,
            ) && m.color == color_of(OutputType::Fatal) && m.exit),
            sessions == 1 ==> (r matches Ok(setup) && argv_views(setup.commands@)
                == configure_commands_spec(self.inscreen@) && setup.note.text@ == named_spec(
                "Base screen established "@,
                self.inscreen@,
            ) && setup.note.color == color_of(OutputType::Detail) && !setup.note.exit),
    {
        session_check(self.inscreen.as_str(), sessions)
    }
}

/// The commands that configure the session: scrollback, caption and status
/// line.
pub open spec fn configure_commands_spec(s: Seq<char>) -> Seq<Seq<Seq<char>>> {
    seq![
        seq!["screen"@, "-x"@, s, "-m"@, "-X"@, "defscrollback"@, "10000"@],
        seq!["screen"@, "-x"@, s, "-m"@, "-X"@, "caption"@, "always"@, "%3n %t%? @%u%?%? [%h]%?"@],
        seq!["screen"@, "-x"@, s, "-m"@, "-X"@, "caption"@, "string"@, "%{.ck} %n %t %{.gk}"@],
        seq!["screen"@, "-x"@, s, "-m"@, "-X"@, "hardstatus"@, "alwayslastline"@],
        seq![
            "screen"@,
            "-x"@,
            s,
            "-m"@,
            "-X"@,
            "hardstatus"@,
            "string"@,
            "%{.rw}%c:%s [%l] %{.bw} %n %t %{.wk} %W %{.wk}"@,
        ],
    ]
}

/// A command `screen -x <session> -m -X <words>`.
fn session_command(s: &str, words: &Vec<String>) -> (r: Vec<String>)
    ensures
        views(r@) == seq!["screen"@, "-x"@, s@, "-m"@, "-X"@] + views(words@),
{
    let mut r: Vec<String> = Vec::new();
    push_owned(&mut r, "screen");
    push_owned(&mut r, "-x");
    push_owned(&mut r, s);
    push_owned(&mut r, "-m");
    push_owned(&mut r, "-X");
    assert(views(r@) =~= seq!["screen"@, "-x"@, s@, "-m"@, "-X"@]);
    crate::text::append_all(&mut r, words);
    r
}

/// A list of two words.
fn two(a: &str, b: &str) -> (r: Vec<String>)
    ensures
        views(r@) == seq![a@, b@],
{
    let mut r: Vec<String> = Vec::new();
    push_owned(&mut r, a);
    push_owned(&mut r, b);
    assert(views(r@) =~= seq![a@, b@]);
    r
}

/// A list of three words.
fn three(a: &str, b: &str, c: &str) -> (r: Vec<String>)
    ensures
        views(r@) == seq![a@, b@, c@],
{
    let mut r = two(a, b);
    push_owned(&mut r, c);
    assert(views(r@) =~= seq![a@, b@, c@]);
    r
}

/// The commands that configure the session (see `configure_commands_spec`).
pub fn configure_commands(s: &str) -> (r: Vec<Vec<String>>)
    ensures
        argv_views(r@) == configure_commands_spec(s@),
{
    let c1 = session_command(s, &two("defscrollback", "10000"));
    let c2 = session_command(s, &three("caption", "always", "%3n %t%? @%u%?%? [%h]%?"));
    let c3 = session_command(s, &three("caption", "string", "%{.ck} %n %t %{.gk}"));
    let c4 = session_command(s, &two("hardstatus", "alwayslastline"));
    let c5 = session_command(
        s,
        &three("hardstatus", "string", "%{.rw}%c:%s [%l] %{.bw} %n %t %{.wk} %W %{.wk}"),
    );
    let ghost v1 = views(c1@);
    let ghost v2 = views(c2@);
    let ghost v3 = views(c3@);
    let ghost v4 = views(c4@);
    let ghost v5 = views(c5@);
    let mut r: Vec<Vec<String>> = Vec::new();
    r.push(c1);
    r.push(c2);
    r.push(c3);
    r.push(c4);
    r.push(c5);
    let ghost e = configure_commands_spec(s@);
    assert(v1 =~= e[0]);
    assert(v2 =~= e[1]);
    assert(v3 =~= e[2]);
    assert(v4 =~= e[3]);
    assert(v5 =~= e[4]);
    assert(argv_views(r@) =~= e);
    r
}

/// The session once found: the commands that configure it and the message
/// that reports it.
pub struct SessionConfig {
    pub commands: Vec<Vec<String>>,
    pub note: Rendered,
}

/// The final check of a session being set up: exactly one session of the
/// name must exist, which is then configured.
fn session_check(inscreen: &str, sessions: usize) -> (r: Result<SessionConfig, Rendered>)
    ensures
        sessions != 1 ==> (r matches Err(m) && m.text@ == named_spec(
            "FAILED: Failed to initialize a screen with name "@,
            inscreen@,
        ) && m.color == color_of(OutputType::Fatal) && m.exit),
        sessions == 1 ==> (r matches Ok(setup) && argv_views(setup.commands@)
            == configure_commands_spec(inscreen@) && setup.note.text@ == named_spec(
            "Base screen established "@,
            inscreen@,
        ) && setup.note.color == color_of(OutputType::Detail) && !setup.note.exit),
{
    if sessions != 1 {
        return Err(
            output(named("FAILED: Failed to initialize a screen with name ", inscreen), OutputType::Fatal),
        );
    }
    let commands = configure_commands(inscreen);
    let note = output(named("Base screen established ", inscreen), OutputType::Detail);
    Ok(SessionConfig { commands, note })
}

/// The command that closes the first window, `init`, of the session.
pub fn teardown_command(inscreen: &str) -> (r: Vec<String>)
    ensures
        views(r@) == seq!["screen"@, "-x"@, inscreen@, "-p"@, "init"@, "-X"@, "kill"@],
{
    let mut r: Vec<String> = Vec::new();
    push_owned(&mut r, "screen");
    push_owned(&mut r, "-x");
    push_owned(&mut r, inscreen);
    push_owned(&mut r, "-p");
    push_owned(&mut r, "init");
    push_owned(&mut r, "-X");
    push_owned(&mut r, "kill");
    assert(views(r@) =~= seq!["screen"@, "-x"@, inscreen@, "-p"@, "init"@, "-X"@, "kill"@]);
    r
}

} // verus!
