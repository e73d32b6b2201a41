//! The command line and what the program does with it.
use vstd::prelude::*;
use crate::text::{contains_spec, occurs_at, owned, replace, replace_spec, views};

verus! {

broadcast use vstd::string::group_string_axioms;

/// The options and arguments of the command line.
pub struct CommandLineArgs {
    /// Command to execute on each host.
    pub command: String,
    /// Execute as a local command, the host name inserted where `HOST`
    /// stands, else appended.
    pub execute_local: bool,
    /// Recipe (shell script) to execute on each host.
    pub recipe: String,
    /// The items are hosts, not groups.
    pub nodes: bool,
    /// Show the groups.
    pub show: bool,
    /// Print the hosts as one line.
    pub array: bool,
    /// Show the groups as JSON.
    pub json: bool,
    /// Debug mode.
    pub debug: bool,
    /// Colours even when not on a terminal.
    pub forcecolor: bool,
    /// Less output.
    pub quiet: bool,
    /// No password prompting by ssh.
    pub batchmode: bool,
    /// Run each host in a window of this screen session.
    pub inscreen: String,
    /// Extra arguments for ssh.
    pub optssh: String,
    /// Log in on each host.
    pub login: bool,
    /// Use sudo on the hosts.
    pub sudo: bool,
    /// Force a pseudo terminal.
    pub term: bool,
    /// Seconds to wait before going on to the next host.
    pub wait: u64,
    /// Ask after each host how to go on.
    pub prompt: bool,
    /// Ask before each host whether to execute, skip or quit.
    pub makeselection: bool,
    /// Accept unknown host keys of new hosts.
    pub knownhostsaccept: bool,
    /// The log level.
    pub log_level: String,
    /// Groups or hosts.
    pub items: Vec<String>,
}

/// What the program does with its command line.
pub enum Plan {
    /// Show the groups that the items select.
    ShowGroups { items: Vec<String>, json: bool },
    /// Print the hosts of the groups that the items select, on one line.
    BatchList { items: Vec<String> },
    /// Execute the command or the recipe on each host.
    Execute { items: Vec<String>, only_nodes: bool, local: bool },
    /// Log in on each host, with a pseudo terminal.
    Login { items: Vec<String>, only_nodes: bool, lines: Vec<String> },
    /// Print the usage and the available recipes.
    Help,
}

/// The items with their commas removed.
pub open spec fn normalized_spec(items: Seq<Seq<char>>) -> Seq<Seq<char>> {
    items.map_values(|i: Seq<char>| replace_spec(i, ","@, ""@))
}

/// The items with their commas removed (`a,b` names the group `ab`, and
/// `a, b` names the groups `a` and `b`).
pub fn normalize_items(items: &Vec<String>) -> (r: Vec<String>)
    ensures
        views(r@) == normalized_spec(views(items@)),
{
    let mut r: Vec<String> = Vec::new();
    let mut i: usize = 0;
    proof { reveal_strlit(","); }
    while i < items.len()
        invariant
            i <= items@.len(),
            ","@.len() > 0,
            views(r@) =~= normalized_spec(views(items@).take(i as int)),
        decreases items@.len() - i,
    {
        let s = replace(items[i].as_str(), ",", "");
        let ghost prev = r@;
        r.push(s);
        assert(views(r@) =~= views(prev).push(s@));
        assert(views(items@).take(i + 1) =~= views(items@).take(i as int).push(items@[i as int]@));
        i = i + 1;
    }
    assert(views(items@).take(items@.len() as int) =~= views(items@));
    r
}

/// The line that logs in on a host.
pub open spec fn login_line_spec(sudo: bool) -> Seq<char> {
    if sudo {
        "sudo -i"@
    } else {
        "bash -i"@
    }
}

/// What the program does with the command line `cli`: show the groups
/// (all of them where no item is given), print the batch list, execute
/// where exactly one of a command and a recipe is given, log in, or print
/// the usage, in this order of precedence.
pub fn plan(cli: &CommandLineArgs) -> (r: Plan)
    ensures
        match r {
            Plan::ShowGroups { items, json } => {
                &&& cli.show
                &&& json == cli.json
                &&& views(items@) == if cli.items@.len() == 0 {
                    seq!["all"@]
                } else {
                    normalized_spec(views(cli.items@))
                }
            },
            Plan::BatchList { items } => !cli.show && cli.array && views(items@)
                == normalized_spec(views(cli.items@)),
            Plan::Execute { items, only_nodes, local } => {
                &&& !cli.show && !cli.array
                &&& (cli.command@.len() > 0) != (cli.recipe@.len() > 0)
                &&& views(items@) == normalized_spec(views(cli.items@))
                &&& only_nodes == cli.nodes
                &&& local == cli.execute_local
            },
            Plan::Login { items, only_nodes, lines } => {
                &&& !cli.show && !cli.array
                &&& (cli.command@.len() > 0) == (cli.recipe@.len() > 0)
                &&& cli.login
                &&& views(items@) == normalized_spec(views(cli.items@))
                &&& only_nodes == cli.nodes
                &&& views(lines@) == seq![login_line_spec(cli.sudo)]
            },
            Plan::Help => {
                &&& !cli.show && !cli.array && !cli.login
                &&& (cli.command@.len() > 0) == (cli.recipe@.len() > 0)
            },
        },
{
    let mut items = normalize_items(&cli.items);
    if cli.show {
        if items.len() == 0 {
            items.push(owned("all"));
            assert(views(items@) =~= seq!["all"@]);
        }
        return Plan::ShowGroups { items, json: cli.json };
    }
    if cli.array {
        return Plan::BatchList { items };
    }
    let has_command = cli.command.as_str().unicode_len() > 0;
    let has_recipe = cli.recipe.as_str().unicode_len() > 0;
    if has_command != has_recipe {
        return Plan::Execute { items, only_nodes: cli.nodes, local: cli.execute_local };
    }
    if cli.login {
        let line = if cli.sudo {
            owned("sudo -i")
        } else {
            owned("bash -i")
        };
        let mut lines: Vec<String> = Vec::new();
        lines.push(line);
        assert(views(lines@) =~= seq![login_line_spec(cli.sudo)]);
        return Plan::Login { items, only_nodes: cli.nodes, lines };
    }
    Plan::Help
}

/// Logging in opens a root shell only where sudo is asked for: `sudo -i`
/// with sudo, a plain interactive `bash -i` without it, which does not
/// mention sudo; so the two lines differ.
pub proof fn lemma_login_line(sudo: bool)
    ensures
        login_line_spec(sudo) == if sudo {
            "sudo -i"@
        } else {
            "bash -i"@
        },
        login_line_spec(true) != login_line_spec(false),
        !contains_spec(login_line_spec(false), "sudo"@),
{
    reveal_strlit("sudo -i");
    reveal_strlit("bash -i");
    reveal_strlit("sudo");
    let s = login_line_spec(false);
    assert(login_line_spec(true)[0] != s[0]);
    assert forall|i: int| !occurs_at(s, "sudo"@, i) by {
        if occurs_at(s, "sudo"@, i) {
            assert(s.subrange(i, i + 4)[0] == s[i]);
            assert(s.subrange(i, i + 4)[1] == s[i + 1]);
        }
    }
}

} // verus!
