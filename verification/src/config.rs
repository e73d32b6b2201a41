//! The configuration of host groups (`hostctl.conf`).
//!
//! A line of the documented form
//! `<regex for visibility> : <groupname> : <host>, <host>, ...`
//! defines hosts of a group that is visible only on machines whose host name
//! the regular expression matches. A line `<groupname> : <host>, <host>` in
//! the shorter form (one colon) defines hosts of a group visible everywhere;
//! it is read with `CONFIG_LINE_PATTERN`. Blank lines and lines starting
//! with `#` are comments, and `#` also starts a comment after the host list.
//! The lines of all configuration files together, in order, make the groups:
//! several lines may add hosts to one group.
use vstd::prelude::*;
use crate::text::{
    chars_of, contains_string, join, join_spec, owned, push_str, split_char, split_spec,
    str_eq, string_of_range, trim, trim_range, trim_spec, views,
};
use crate::pattern::{
    captures, compile, groups_view, is_match, regex_captures, regex_compiles, regex_is_match,
    Pattern,
};
use crate::order::{insert_sorted, strictly_sorted};

verus! {

broadcast use vstd::string::group_string_axioms;

/// The regular expression that reads a line of the short form: the group
/// name, then the host list, then an optional comment.
pub const CONFIG_LINE_PATTERN: &'static str = "^([a-z0-9-]+)\\s*:\\s*([a-z0-9-,\\s]+)(#.*)?";

/// The item that selects every group.
pub const SELECT_ALL: &'static str = "all";

/// A group of hosts: its name and its members in the order of the
/// configuration.
pub struct Group {
    pub name: String,
    pub members: Vec<String>,
}

impl View for Group {
    type V = (Seq<char>, Seq<Seq<char>>);

    open spec fn view(&self) -> (Seq<char>, Seq<Seq<char>>) {
        (self.name@, views(self.members@))
    }
}

/// Why the configuration could not be read.
pub enum ConfigError {
    /// The `regex` crate refused `CONFIG_LINE_PATTERN`.
    LinePatternRejected,
    /// `serde_json` could not write the groups as JSON.
    JsonRejected,
}

// ---------------------------------------------------------------------------
// Specifications
// ---------------------------------------------------------------------------
/// The views of a list of groups.
pub open spec fn group_views(gs: Seq<Group>) -> Seq<(Seq<char>, Seq<Seq<char>>)> {
    gs.map_values(|g: Group| g@)
}

/// The position of the last `c` in `s`, or -1.
pub open spec fn last_index_of(s: Seq<char>, c: char) -> int
    decreases s.len(),
{
    if s.len() == 0 {
        -1
    } else if s.last() == c {
        s.len() - 1
    } else {
        last_index_of(s.drop_last(), c)
    }
}

/// The part of `s` before the first `c` (all of `s` without one).
pub open spec fn before_char(s: Seq<char>, c: char) -> Seq<char>
    decreases s.len(),
{
    if s.len() == 0 {
        s
    } else if s[0] == c {
        Seq::<char>::empty()
    } else {
        seq![s[0]] + before_char(s.drop_first(), c)
    }
}

/// The hosts of a comma-separated list, each trimmed.
pub open spec fn member_list(s: Seq<char>) -> Seq<Seq<char>> {
    split_spec(s, ',').map_values(|p: Seq<char>| trim_spec(p))
}

/// Whether the line holds nothing but perhaps a comment.
pub open spec fn is_comment_or_blank(line: Seq<char>) -> bool {
    let t = trim_spec(line);
    t.len() == 0 || t[0] == '#'
}

/// The three fields of a line of the documented form: the line up to a
/// comment, split at its last two colons, the visibility pattern and the
/// group name trimmed.
pub open spec fn three_fields(line: Seq<char>) -> Option<(Seq<char>, Seq<char>, Seq<char>)> {
    let c = before_char(line, '#');
    let k2 = last_index_of(c, ':');
    if k2 < 0 {
        None
    } else {
        let k1 = last_index_of(c.take(k2), ':');
        if k1 < 0 {
            None
        } else {
            Some((trim_spec(c.take(k1)), trim_spec(c.subrange(k1 + 1, k2)), c.skip(k2 + 1)))
        }
    }
}

/// The text of capture group `i`, empty where the group is missing.
pub open spec fn group_text(gs: Seq<Option<Seq<char>>>, i: int) -> Seq<char> {
    if 0 <= i < gs.len() && gs[i] is Some {
        gs[i]->0
    } else {
        Seq::<char>::empty()
    }
}

/// The group and hosts that the captures of `CONFIG_LINE_PATTERN` define:
/// the group is capture 1, the hosts are capture 2 split at commas.
pub open spec fn captured_entry(caps: Option<Seq<Option<Seq<char>>>>) -> Option<
    (Seq<char>, Seq<Seq<char>>),
> {
    match caps {
        None => None,
        Some(gs) => Some((group_text(gs, 1), member_list(group_text(gs, 2)))),
    }
}

/// Whether a group whose visibility pattern is `vis` is visible on the
/// machine named `host`.
pub open spec fn visible(vis: Seq<char>, host: Seq<char>) -> bool {
    regex_compiles(vis) && regex_is_match(vis, host)
}

/// The group and hosts that one line defines on the machine named `host`.
pub open spec fn line_entry(line: Seq<char>, host: Seq<char>) -> Option<
    (Seq<char>, Seq<Seq<char>>),
> {
    if is_comment_or_blank(line) {
        None
    } else {
        match three_fields(line) {
            Some(f) => if f.1.len() > 0 && visible(f.0, host) {
                Some((f.1, member_list(f.2)))
            } else {
                None
            },
            None => captured_entry(regex_captures(CONFIG_LINE_PATTERN@, line)),
        }
    }
}

/// Whether the items select the group named `g`.
pub open spec fn selected(items: Seq<Seq<char>>, g: Seq<char>) -> bool {
    items.contains(SELECT_ALL@) || items.contains(g)
}

/// The position of the group named `g` in `gs`, or -1.
pub open spec fn name_index(gs: Seq<(Seq<char>, Seq<Seq<char>>)>, g: Seq<char>) -> int
    decreases gs.len(),
{
    if gs.len() == 0 {
        -1
    } else {
        let i = name_index(gs.drop_last(), g);
        if i >= 0 {
            i
        } else if gs.last().0 == g {
            gs.len() - 1
        } else {
            -1
        }
    }
}

/// `gs` after the hosts `ms` were added to the group named `g`: appended to
/// its members where the group exists, else as a new last group.
pub open spec fn add_entry(
    gs: Seq<(Seq<char>, Seq<Seq<char>>)>,
    g: Seq<char>,
    ms: Seq<Seq<char>>,
) -> Seq<(Seq<char>, Seq<Seq<char>>)> {
    let i = name_index(gs, g);
    if i >= 0 {
        gs.update(i, (g, gs[i].1 + ms))
    } else {
        gs.push((g, ms))
    }
}

/// The groups that `lines` define on the machine named `host`, of those the
/// items select.
pub open spec fn config_groups(
    lines: Seq<Seq<char>>,
    items: Seq<Seq<char>>,
    host: Seq<char>,
) -> Seq<(Seq<char>, Seq<Seq<char>>)>
    decreases lines.len(),
{
    if lines.len() == 0 {
        Seq::empty()
    } else {
        let prev = config_groups(lines.drop_last(), items, host);
        match line_entry(lines.last(), host) {
            Some(e) => if selected(items, e.0) {
                add_entry(prev, e.0, e.1)
            } else {
                prev
            },
            None => prev,
        }
    }
}

/// No two groups share a name.
pub open spec fn unique_names(gs: Seq<(Seq<char>, Seq<Seq<char>>)>) -> bool {
    forall|i: int, j: int| 0 <= i < j < gs.len() ==> gs[i].0 != gs[j].0
}

/// All members of all groups, in order.
pub open spec fn all_members(gs: Seq<(Seq<char>, Seq<Seq<char>>)>) -> Seq<Seq<char>>
    decreases gs.len(),
{
    if gs.len() == 0 {
        Seq::empty()
    } else {
        all_members(gs.drop_last()) + gs.last().1
    }
}

// ---------------------------------------------------------------------------
// Lemmas
// ---------------------------------------------------------------------------
/// `name_index` finds the first group of that name.
pub proof fn lemma_name_index(gs: Seq<(Seq<char>, Seq<Seq<char>>)>, g: Seq<char>)
    ensures
        -1 <= name_index(gs, g) < gs.len(),
        name_index(gs, g) == -1 <==> (forall|i: int| 0 <= i < gs.len() ==> gs[i].0 != g),
        name_index(gs, g) >= 0 ==> gs[name_index(gs, g)].0 == g,
        forall|i: int| 0 <= i < name_index(gs, g) ==> gs[i].0 != g,
    decreases gs.len(),
{
    if gs.len() > 0 {
        lemma_name_index(gs.drop_last(), g);
        let p = gs.drop_last();
        assert forall|i: int| 0 <= i < p.len() implies p[i] == gs[i] by {}
    }
}

/// Adding hosts keeps the names unique.
pub proof fn lemma_add_entry_unique(
    gs: Seq<(Seq<char>, Seq<Seq<char>>)>,
    g: Seq<char>,
    ms: Seq<Seq<char>>,
)
    requires
        unique_names(gs),
    ensures
        unique_names(add_entry(gs, g, ms)),
{
    lemma_name_index(gs, g);
}

/// No two groups that the configuration defines share a name.
pub proof fn lemma_config_groups_unique(
    lines: Seq<Seq<char>>,
    items: Seq<Seq<char>>,
    host: Seq<char>,
)
    ensures
        unique_names(config_groups(lines, items, host)),
    decreases lines.len(),
{
    if lines.len() > 0 {
        lemma_config_groups_unique(lines.drop_last(), items, host);
        let prev = config_groups(lines.drop_last(), items, host);
        match line_entry(lines.last(), host) {
            Some(e) => {
                lemma_add_entry_unique(prev, e.0, e.1);
            },
            None => {},
        }
    }
}

// ---------------------------------------------------------------------------
// Reading lines
// ---------------------------------------------------------------------------
/// The position of the last `c` in `v[..end]`, or `None`.
fn last_index(v: &Vec<char>, end: usize, c: char) -> (r: Option<usize>)
    requires
        end <= v@.len(),
    ensures
        match r {
            Some(k) => k < end && k as int == last_index_of(v@.take(end as int), c),
            None => last_index_of(v@.take(end as int), c) == -1,
        },
{
    let mut e = end;
    while e > 0
        invariant
            e <= end <= v@.len(),
            last_index_of(v@.take(end as int), c) == last_index_of(v@.take(e as int), c),
        decreases e,
    {
        proof {
            let t = v@.take(e as int);
            assert(t.last() == v@[e - 1]);
            assert(t.drop_last() == v@.take(e - 1));
        }
        if v[e - 1] == c {
            return Some(e - 1);
        }
        e = e - 1;
    }
    None
}

/// Where the comment of a line starts: the position of its first `#`, or
/// its length.
fn comment_start(v: &Vec<char>) -> (r: usize)
    ensures
        r <= v@.len(),
        v@.take(r as int) == before_char(v@, '#'),
{
    let mut i: usize = 0;
    assert(v@.skip(0) == v@);
    while i < v.len() && v[i] != '#'
        invariant
            i <= v@.len(),
            before_char(v@, '#') == v@.take(i as int) + before_char(v@.skip(i as int), '#'),
        decreases v@.len() - i,
    {
        proof {
            let t = v@.skip(i as int);
            assert(t[0] == v@[i as int]);
            assert(t.drop_first() == v@.skip(i + 1));
            assert(v@.take(i + 1) == v@.take(i as int).push(v@[i as int]));
            assert(v@.take(i as int) + (seq![v@[i as int]] + before_char(v@.skip(i + 1), '#'))
                == v@.take(i + 1) + before_char(v@.skip(i + 1), '#'));
        }
        i = i + 1;
    }
    proof {
        let t = v@.skip(i as int);
        if i < v@.len() {
            assert(t[0] == v@[i as int]);
        }
        assert(before_char(t, '#') == Seq::<char>::empty());
        assert(v@.take(i as int) + Seq::<char>::empty() == v@.take(i as int));
    }
    i
}

/// The fields of a line of the documented form, split at its last two colons
/// (see `three_fields`).
pub fn split_fields(line: &str) -> (r: Option<(String, String, String)>)
    ensures
        match three_fields(line@) {
            None => r is None,
            Some(f) => r matches Some(t) && t.0@ == f.0 && t.1@ == f.1 && t.2@ == f.2,
        },
{
    let v = chars_of(line);
    let e = comment_start(&v);
    let ghost c = before_char(line@, '#');
    let k2 = match last_index(&v, e, ':') {
        None => {
            return None;
        },
        Some(k) => k,
    };
    assert(c.take(k2 as int) == v@.take(k2 as int));
    let k1 = match last_index(&v, k2, ':') {
        None => {
            return None;
        },
        Some(k) => k,
    };
    let vis = trim_range(&v, 0, k1);
    let group = trim_range(&v, k1 + 1, k2);
    let hosts = string_of_range(&v, k2 + 1, e);
    assert(v@.subrange(0, k1 as int) == c.take(k1 as int));
    assert(v@.subrange(k1 + 1, k2 as int) == c.subrange(k1 + 1, k2 as int));
    assert(v@.subrange(k2 + 1, e as int) == c.skip(k2 + 1));
    Some((vis, group, hosts))
}

/// The hosts of a comma-separated list, each trimmed.
pub fn members_of(list: &str) -> (r: Vec<String>)
    ensures
        views(r@) == member_list(list@),
{
    let pieces = split_char(list, ',');
    let mut r: Vec<String> = Vec::new();
    let mut i: usize = 0;
    while i < pieces.len()
        invariant
            views(pieces@) == split_spec(list@, ','),
            i <= pieces@.len(),
            views(r@) =~= views(pieces@).take(i as int).map_values(|p: Seq<char>| trim_spec(p)),
        decreases pieces@.len() - i,
    {
        assert(views(pieces@)[i as int] == pieces@[i as int]@);
        let t = trim(pieces[i].as_str());
        let ghost prev = r@;
        r.push(t);
        assert(views(r@) =~= views(prev).push(t@));
        assert(views(pieces@).take(i + 1) =~= views(pieces@).take(i as int).push(views(pieces@)[i as int]));
        i = i + 1;
    }
    assert(views(pieces@).take(pieces@.len() as int) =~= views(pieces@));
    r
}

/// The text of a capture group, empty where the group is missing.
fn captured_text(gs: &Vec<Option<String>>, i: usize) -> (r: String)
    ensures
        r@ == group_text(groups_view(Some(*gs))->0, i as int),
{
    if i < gs.len() {
        match &gs[i] {
            Some(s) => owned(s.as_str()),
            None => String::new(),
        }
    } else {
        String::new()
    }
}

/// The group and hosts that the captures of `CONFIG_LINE_PATTERN` on a line
/// define (see `captured_entry`).
pub fn entry_from_captures(caps: Option<Vec<Option<String>>>) -> (r: Option<Group>)
    ensures
        match captured_entry(groups_view(caps)) {
            None => r is None,
            Some(e) => r matches Some(g) && g@ == e,
        },
{
    match caps {
        None => None,
        Some(gs) => {
            let name = captured_text(&gs, 1);
            let list = captured_text(&gs, 2);
            let members = members_of(list.as_str());
            Some(Group { name, members })
        },
    }
}

/// Whether the line holds nothing but perhaps a comment.
pub fn comment_or_blank(line: &str) -> (r: bool)
    ensures
        r == is_comment_or_blank(line@),
{
    let t = trim(line);
    let v = chars_of(t.as_str());
    v.len() == 0 || v[0] == '#'
}

/// The group and hosts that one line defines on the machine named `host`,
/// `line_pattern` being `CONFIG_LINE_PATTERN` compiled (see `line_entry`).
fn parse_line_with(line: &str, host: &str, line_pattern: &Pattern) -> (r: Option<Group>)
    requires
        line_pattern@ == CONFIG_LINE_PATTERN@,
    ensures
        match line_entry(line@, host@) {
            None => r is None,
            Some(e) => r matches Some(g) && g@ == e,
        },
{
    if comment_or_blank(line) {
        return None;
    }
    match split_fields(line) {
        Some((vis, name, hosts)) => {
            if name.as_str().unicode_len() == 0 {
                return None;
            }
            let shown = match compile(vis.as_str()) {
                None => false,
                Some(p) => is_match(&p, host),
            };
            if shown {
                let members = members_of(hosts.as_str());
                Some(Group { name, members })
            } else {
                None
            }
        },
        None => {
            let caps = captures(line_pattern, line);
            entry_from_captures(caps)
        },
    }
}

/// The group and hosts that one line defines on the machine named `host`
/// (see `line_entry`).
pub fn parse_line(line: &str, host: &str) -> (r: Result<Option<Group>, ConfigError>)
    ensures
        r is Ok <==> regex_compiles(CONFIG_LINE_PATTERN@),
        r matches Err(e) ==> e == ConfigError::LinePatternRejected,
        r matches Ok(e) ==> match line_entry(line@, host@) {
            None => e is None,
            Some(x) => e matches Some(g) && g@ == x,
        },
{
    match compile(CONFIG_LINE_PATTERN) {
        None => Err(ConfigError::LinePatternRejected),
        Some(p) => Ok(parse_line_with(line, host, &p)),
    }
}

/// Whether the items select the group named `name`.
pub fn is_selected(items: &Vec<String>, name: &str) -> (r: bool)
    ensures
        r == selected(views(items@), name@),
{
    contains_string(items, SELECT_ALL) || contains_string(items, name)
}

/// Adds the hosts of `entry` to the group of its name in `groups`, or
/// appends the entry as a new group (see `add_entry`).
pub fn add_group_entry(groups: &mut Vec<Group>, entry: Group)
    ensures
        group_views(final(groups)@) == add_entry(group_views(old(groups)@), entry@.0, entry@.1),
{
    let ghost gv = group_views(groups@);
    let ghost e = entry@;
    assert(gv == group_views(old(groups)@));
    let mut j: usize = 0;
    while j < groups.len()
        invariant
            gv == group_views(groups@),
            gv == group_views(old(groups)@),
            e == entry@,
            j <= groups@.len(),
            forall|i: int| 0 <= i < j ==> gv[i].0 != entry@.0,
        decreases groups@.len() - j,
    {
        assert(gv[j as int] == groups@[j as int]@);
        if str_eq(groups[j].name.as_str(), entry.name.as_str()) {
            proof {
                lemma_name_index(gv, entry@.0);
                assert(gv[j as int].0 == entry@.0);
                if name_index(gv, entry@.0) < j {
                    assert(gv[name_index(gv, entry@.0)].0 != entry@.0);
                }
            }
            assert(name_index(gv, entry@.0) == j);
            let ghost old_groups = groups@;
            let mut g = groups.remove(j);
            assert(g == old_groups[j as int]);
            assert(g@ == gv[j as int]);
            let mut extra = entry.members;
            let ghost before = views(g.members@);
            let ghost added = views(extra@);
            g.members.append(&mut extra);
            assert(views(g.members@) =~= before + added);
            let ghost gg = g@;
            assert(gg == (entry@.0, gv[j as int].1 + entry@.1));
            groups.insert(j, g);
            assert(group_views(groups@) =~= gv.update(j as int, gg));
            assert(group_views(groups@) == add_entry(gv, e.0, e.1));
            return;
        }
        j = j + 1;
    }
    proof { lemma_name_index(gv, entry@.0); }
    groups.push(entry);
    assert(group_views(groups@) =~= gv.push(e));
}

/// The groups that the configuration `lines` define on the machine named
/// `host`, of those the items select (see `config_groups`).
pub fn read_configs(lines: &Vec<String>, items: &Vec<String>, host: &str) -> (r: Result<
    Vec<Group>,
    ConfigError,
>)
    ensures
        r is Ok <==> regex_compiles(CONFIG_LINE_PATTERN@),
        r matches Err(e) ==> e == ConfigError::LinePatternRejected,
        r matches Ok(gs) ==> group_views(gs@) == config_groups(views(lines@), views(items@), host@),
{
    let line_pattern = match compile(CONFIG_LINE_PATTERN) {
        None => {
            return Err(ConfigError::LinePatternRejected);
        },
        Some(p) => p,
    };
    let mut groups: Vec<Group> = Vec::new();
    let mut i: usize = 0;
    assert(views(lines@).take(0) =~= Seq::<Seq<char>>::empty());
    assert(group_views(groups@) =~= Seq::<(Seq<char>, Seq<Seq<char>>)>::empty());
    while i < lines.len()
        invariant
            line_pattern@ == CONFIG_LINE_PATTERN@,
            i <= lines@.len(),
            group_views(groups@) == config_groups(views(lines@).take(i as int), views(items@), host@),
        decreases lines@.len() - i,
    {
        proof {
            let t = views(lines@).take(i + 1);
            assert(t.drop_last() =~= views(lines@).take(i as int));
            assert(t.last() == lines@[i as int]@);
        }
        match parse_line_with(lines[i].as_str(), host, &line_pattern) {
            None => {},
            Some(entry) => {
                if is_selected(items, entry.name.as_str()) {
                    add_group_entry(&mut groups, entry);
                }
            },
        }
        i = i + 1;
    }
    assert(views(lines@).take(lines@.len() as int) =~= views(lines@));
    Ok(groups)
}

/// Every host of every group, sorted and each once.
pub fn unified_nodes(groups: &Vec<Group>) -> (r: Vec<String>)
    ensures
        strictly_sorted(views(r@)),
        views(r@).to_set() == all_members(group_views(groups@)).to_set(),
{
    let mut r: Vec<String> = Vec::new();
    let mut i: usize = 0;
    assert(group_views(groups@).take(0) =~= Seq::<(Seq<char>, Seq<Seq<char>>)>::empty());
    assert(views(r@).to_set() =~= Set::<Seq<char>>::empty());
    while i < groups.len()
        invariant
            i <= groups@.len(),
            strictly_sorted(views(r@)),
            views(r@).to_set() == all_members(group_views(groups@).take(i as int)).to_set(),
        decreases groups@.len() - i,
    {
        let ghost before = all_members(group_views(groups@).take(i as int));
        let members = &groups[i].members;
        let mut k: usize = 0;
        assert(before + views(members@).take(0) =~= before);
        while k < members.len()
            invariant
                k <= members@.len(),
                strictly_sorted(views(r@)),
                views(r@).to_set() == (before + views(members@).take(k as int)).to_set(),
            decreases members@.len() - k,
        {
            let s = members[k].clone();
            insert_sorted(&mut r, s);
            proof {
                assert(before + views(members@).take(k + 1)
                    =~= (before + views(members@).take(k as int)).push(members@[k as int]@));
                (before + views(members@).take(k as int)).lemma_push_to_set_commute(members@[k as int]@);
            }
            k = k + 1;
        }
        proof {
            let t = group_views(groups@).take(i + 1);
            assert(t.drop_last() =~= group_views(groups@).take(i as int));
            assert(t.last() == groups@[i as int]@);
            assert(views(members@).take(members@.len() as int) =~= views(members@));
        }
        i = i + 1;
    }
    assert(group_views(groups@).take(groups@.len() as int) =~= group_views(groups@));
    r
}

/// The hosts of the groups that the configuration `lines` define on the
/// machine named `host` and the items select, sorted and each once.
pub fn unified_node_list(lines: &Vec<String>, items: &Vec<String>, host: &str) -> (r: Result<
    Vec<String>,
    ConfigError,
>)
    ensures
        r is Ok <==> regex_compiles(CONFIG_LINE_PATTERN@),
        r matches Err(e) ==> e == ConfigError::LinePatternRejected,
        r matches Ok(nodes) ==> {
            &&& strictly_sorted(views(nodes@))
            &&& views(nodes@).to_set() == all_members(
                config_groups(views(lines@), views(items@), host@),
            ).to_set()
        },
{
    let groups = read_configs(lines, items, host)?;
    Ok(unified_nodes(&groups))
}

/// The hosts joined by blanks, as the batch list prints them.
pub fn batch_list(nodes: &Vec<String>) -> (r: String)
    ensures
        r@ == join_spec(views(nodes@), " "@),
{
    join(nodes, " ")
}

/// The line that shows a group: its name, a colon and its members joined by
/// commas.
pub open spec fn group_line_spec(g: (Seq<char>, Seq<Seq<char>>)) -> Seq<char> {
    g.0 + ": "@ + join_spec(g.1, ", "@)
}

/// The line that shows a group.
pub fn group_line(g: &Group) -> (r: String)
    ensures
        r@ == group_line_spec(g@),
{
    let mut r = owned(g.name.as_str());
    push_str(&mut r, ": ");
    let m = join(&g.members, ", ");
    push_str(&mut r, m.as_str());
    r
}

/// The lines that show the groups: one line per group, in order.
pub fn group_listing(groups: &Vec<Group>) -> (r: Vec<String>)
    ensures
        views(r@) == group_views(groups@).map_values(|g: (Seq<char>, Seq<Seq<char>>)| group_line_spec(g)),
{
    let mut r: Vec<String> = Vec::new();
    let mut i: usize = 0;
    while i < groups.len()
        invariant
            i <= groups@.len(),
            views(r@) =~= group_views(groups@).take(i as int).map_values(
                |g: (Seq<char>, Seq<Seq<char>>)| group_line_spec(g),
            ),
        decreases groups@.len() - i,
    {
        let l = group_line(&groups[i]);
        let ghost prev = r@;
        r.push(l);
        assert(views(r@) =~= views(prev).push(l@));
        assert(group_views(groups@).take(i + 1) =~= group_views(groups@).take(i as int).push(
            groups@[i as int]@,
        ));
        i = i + 1;
    }
    assert(group_views(groups@).take(groups@.len() as int) =~= group_views(groups@));
    r
}

/// What `serde_json::to_string_pretty` writes for the map from each group
/// name to its members (`None` where it fails).
pub uninterp spec fn groups_json(groups: Seq<(Seq<char>, Seq<Seq<char>>)>) -> Option<Seq<char>>;

/// The views of a list of names with members.
pub open spec fn pairs_view(v: Seq<(String, Vec<String>)>) -> Seq<(Seq<char>, Seq<Seq<char>>)> {
    v.map_values(|p: (String, Vec<String>)| (p.0@, views(p.1@)))
}

/// Writes the groups as a JSON object from each name to its members with
/// `serde_json::to_string_pretty`, over a `BTreeMap` that holds them (the
/// names are unique, so it holds each group once). The contract claims only
/// that the text, or the failure, is the crate's answer for these groups.
#[verifier::external_body]
fn pretty_json(groups: Vec<(String, Vec<String>)>) -> (r: Option<String>)
    requires
        unique_names(pairs_view(groups@)),
    ensures
        match r {
            Some(t) => groups_json(pairs_view(groups@)) == Some(t@),
            None => groups_json(pairs_view(groups@)) is None,
        },
{
    let map: std::collections::BTreeMap<String, Vec<String>> = groups.into_iter().collect();
    serde_json::to_string_pretty(&map).ok()
}

/// What showing the groups prints: one line per group, or, as JSON, the
/// text that `serde_json` writes for them.
pub open spec fn dump_groups_spec(gs: Seq<(Seq<char>, Seq<Seq<char>>)>, json: bool) -> Result<
    Seq<Seq<char>>,
    ConfigError,
> {
    if json {
        match groups_json(gs) {
            Some(t) => Ok(seq![t]),
            None => Err(ConfigError::JsonRejected),
        }
    } else {
        Ok(gs.map_values(|g: (Seq<char>, Seq<Seq<char>>)| group_line_spec(g)))
    }
}

/// The lines that show the groups that the configuration `lines` define on
/// the machine named `host` and the items select (see `dump_groups_spec`).
pub fn dump_groups(lines: &Vec<String>, items: &Vec<String>, host: &str, json: bool) -> (r: Result<
    Vec<String>,
    ConfigError,
>)
    ensures
        !regex_compiles(CONFIG_LINE_PATTERN@) ==> r == Err::<Vec<String>, ConfigError>(
            ConfigError::LinePatternRejected,
        ),
        regex_compiles(CONFIG_LINE_PATTERN@) ==> match (
            r,
            dump_groups_spec(config_groups(views(lines@), views(items@), host@), json),
        ) {
            (Ok(out), Ok(expected)) => views(out@) == expected,
            (Err(e), Err(expected)) => e == expected,
            _ => false,
        },
{
    let groups = match read_configs(lines, items, host) {
        Ok(g) => g,
        Err(e) => {
            return Err(e);
        },
    };
    proof { lemma_config_groups_unique(views(lines@), views(items@), host@); }
    if !json {
        return Ok(group_listing(&groups));
    }
    let mut pairs: Vec<(String, Vec<String>)> = Vec::new();
    let mut i: usize = 0;
    while i < groups.len()
        invariant
            i <= groups@.len(),
            pairs_view(pairs@) =~= group_views(groups@).take(i as int),
        decreases groups@.len() - i,
    {
        let name = owned(groups[i].name.as_str());
        let mut members: Vec<String> = Vec::new();
        crate::text::append_all(&mut members, &groups[i].members);
        let ghost prev = pairs@;
        pairs.push((name, members));
        assert(pairs_view(pairs@) =~= pairs_view(prev).push(groups@[i as int]@));
        assert(group_views(groups@).take(i + 1) =~= group_views(groups@).take(i as int).push(
            groups@[i as int]@,
        ));
        i = i + 1;
    }
    assert(group_views(groups@).take(groups@.len() as int) =~= group_views(groups@));
    match pretty_json(pairs) {
        Some(t) => {
            let mut out: Vec<String> = Vec::new();
            let ghost tv = t@;
            out.push(t);
            assert(views(out@) =~= seq![tv]);
            Ok(out)
        },
        None => Err(ConfigError::JsonRejected),
    }
}

/// Showing the groups prints one line per group and nothing else.
pub proof fn lemma_listing_one_line_per_group(
    lines: Seq<Seq<char>>,
    items: Seq<Seq<char>>,
    host: Seq<char>,
)
    ensures
        ({
            let gs = config_groups(lines, items, host);
            dump_groups_spec(gs, false) matches Ok(out) && out.len() == gs.len() && (forall|i: int|
                0 <= i < gs.len() ==> out[i] == gs[i].0 + ": "@ + join_spec(gs[i].1, ", "@))
                && unique_names(gs)
        }),
{
    lemma_config_groups_unique(lines, items, host);
}

/// The configuration files, in the order they are read: the file in the
/// directory that `HOSTCTL_CONFIG` names where it is set, else the user's
/// file and then the installation's.
pub open spec fn config_files_spec(dir: Option<Seq<char>>, home: Seq<char>, install: Seq<char>) -> Seq<
    Seq<char>,
> {
    match dir {
        Some(d) => if d.len() > 0 {
            seq![d + "/hostctl.conf"@]
        } else {
            seq![home + "/.hostctl/hostctl.conf"@, install + "/hostctl.conf"@]
        },
        None => seq![home + "/.hostctl/hostctl.conf"@, install + "/hostctl.conf"@],
    }
}

/// The configuration files, in the order they are read (see
/// `config_files_spec`); `dir` is the value of `HOSTCTL_CONFIG`.
pub fn config_files(dir: Option<&str>, home: &str, install: &str) -> (r: Vec<String>)
    ensures
        views(r@) == config_files_spec(
            match dir {
                Some(d) => Some(d@),
                None => None,
            },
            home@,
            install@,
        ),
{
    let mut r: Vec<String> = Vec::new();
    match dir {
        Some(d) => {
            if d.unicode_len() > 0 {
                let mut f = owned(d);
                push_str(&mut f, "/hostctl.conf");
                r.push(f);
                assert(views(r@) =~= seq![d@ + "/hostctl.conf"@]);
                return r;
            }
        },
        None => {},
    }
    let mut a = owned(home);
    push_str(&mut a, "/.hostctl/hostctl.conf");
    let mut b = owned(install);
    push_str(&mut b, "/hostctl.conf");
    r.push(a);
    r.push(b);
    assert(views(r@) =~= seq![home@ + "/.hostctl/hostctl.conf"@, install@ + "/hostctl.conf"@]);
    r
}

/// A comment, a blank line, or a line of the documented form whose
/// visibility pattern does not match the machine's name adds nothing to
/// the groups.
pub proof fn lemma_line_without_effect(
    lines: Seq<Seq<char>>,
    line: Seq<char>,
    items: Seq<Seq<char>>,
    host: Seq<char>,
)
    requires
        is_comment_or_blank(line) || (three_fields(line) matches Some(f) && !visible(f.0, host)),
    ensures
        config_groups(lines.push(line), items, host) == config_groups(lines, items, host),
{
    assert(lines.push(line).drop_last() =~= lines);
    assert(line_entry(line, host) is None);
}

/// A line of the documented form whose visibility pattern matches the
/// machine's name adds its hosts to its group, where the items select it.
pub proof fn lemma_visible_line_adds(
    lines: Seq<Seq<char>>,
    line: Seq<char>,
    items: Seq<Seq<char>>,
    host: Seq<char>,
)
    requires
        !is_comment_or_blank(line),
        three_fields(line) matches Some(f) && f.1.len() > 0 && visible(f.0, host) && selected(
            items,
            f.1,
        ),
    ensures
        config_groups(lines.push(line), items, host) == add_entry(
            config_groups(lines, items, host),
            (three_fields(line)->0).1,
            member_list((three_fields(line)->0).2),
        ),
{
    assert(lines.push(line).drop_last() =~= lines);
}

/// The item `all` selects every group.
pub proof fn lemma_all_selects_every(items: Seq<Seq<char>>, g: Seq<char>)
    requires
        items.contains(SELECT_ALL@),
    ensures
        selected(items, g),
{
}

/// A group that `add_entry` gives hosts to holds its earlier members
/// followed by the new ones, and every other group is unchanged.
pub proof fn lemma_add_entry_members(
    gs: Seq<(Seq<char>, Seq<Seq<char>>)>,
    g: Seq<char>,
    ms: Seq<Seq<char>>,
)
    requires
        unique_names(gs),
    ensures
        ({
            let r = add_entry(gs, g, ms);
            &&& forall|i: int| 0 <= i < gs.len() && gs[i].0 != g ==> r[i] == gs[i]
            &&& forall|i: int| 0 <= i < gs.len() && gs[i].0 == g ==> r[i] == (g, gs[i].1 + ms)
            &&& (forall|i: int| 0 <= i < gs.len() ==> gs[i].0 != g) ==> r == gs.push((g, ms))
        }),
{
    lemma_name_index(gs, g);
}

/// Whether some group has `x` among its members.
pub open spec fn has_member(gs: Seq<(Seq<char>, Seq<Seq<char>>)>, x: Seq<char>) -> bool {
    exists|k: int| 0 <= k < gs.len() && #[trigger] gs[k].1.contains(x)
}

/// The members of all groups are the members of some group.
pub proof fn lemma_all_members_has(gs: Seq<(Seq<char>, Seq<Seq<char>>)>, x: Seq<char>)
    ensures
        all_members(gs).contains(x) <==> has_member(gs, x),
    decreases gs.len(),
{
    if gs.len() > 0 {
        let p = gs.drop_last();
        lemma_all_members_has(p, x);
        let a = all_members(p);
        let b = gs.last().1;
        if (a + b).contains(x) {
            let i = choose|i: int| 0 <= i < (a + b).len() && (a + b)[i] == x;
            if i < a.len() {
                assert(a[i] == x);
                let k = choose|k: int| 0 <= k < p.len() && #[trigger] p[k].1.contains(x);
                assert(gs[k] == p[k]);
            } else {
                assert(b[i - a.len()] == x);
                assert(gs[gs.len() - 1].1.contains(x));
            }
        }
        if has_member(gs, x) {
            let k = choose|k: int| 0 <= k < gs.len() && #[trigger] gs[k].1.contains(x);
            if k < gs.len() - 1 {
                assert(p[k] == gs[k]);
                assert(has_member(p, x));
                let i = choose|i: int| 0 <= i < a.len() && a[i] == x;
                assert((a + b)[i] == x);
            } else {
                let i = choose|i: int| 0 <= i < b.len() && b[i] == x;
                assert((a + b)[a.len() + i] == x);
            }
        }
    }
}

/// Adding hosts to a group adds exactly those hosts to the members.
pub proof fn lemma_add_entry_has(
    gs: Seq<(Seq<char>, Seq<Seq<char>>)>,
    g: Seq<char>,
    ms: Seq<Seq<char>>,
    x: Seq<char>,
)
    ensures
        has_member(add_entry(gs, g, ms), x) <==> has_member(gs, x) || ms.contains(x),
{
    lemma_name_index(gs, g);
    let r = add_entry(gs, g, ms);
    let i = name_index(gs, g);
    if i >= 0 {
        let m = gs[i].1 + ms;
        assert(m.contains(x) <==> gs[i].1.contains(x) || ms.contains(x)) by {
            if m.contains(x) {
                let j = choose|j: int| 0 <= j < m.len() && m[j] == x;
                if j < gs[i].1.len() {
                    assert(gs[i].1[j] == x);
                } else {
                    assert(ms[j - gs[i].1.len()] == x);
                }
            }
            if gs[i].1.contains(x) {
                let j = choose|j: int| 0 <= j < gs[i].1.len() && gs[i].1[j] == x;
                assert(m[j] == x);
            }
            if ms.contains(x) {
                let j = choose|j: int| 0 <= j < ms.len() && ms[j] == x;
                assert(m[gs[i].1.len() + j] == x);
            }
        }
        if has_member(r, x) {
            let k = choose|k: int| 0 <= k < r.len() && #[trigger] r[k].1.contains(x);
            if k != i {
                assert(r[k] == gs[k]);
            }
        }
        if has_member(gs, x) {
            let k = choose|k: int| 0 <= k < gs.len() && #[trigger] gs[k].1.contains(x);
            if k != i {
                assert(r[k] == gs[k]);
            } else {
                assert(r[i].1.contains(x));
            }
        }
        if ms.contains(x) {
            assert(r[i].1.contains(x));
        }
    } else {
        if has_member(r, x) {
            let k = choose|k: int| 0 <= k < r.len() && #[trigger] r[k].1.contains(x);
            if k < gs.len() {
                assert(r[k] == gs[k]);
            }
        }
        if has_member(gs, x) {
            let k = choose|k: int| 0 <= k < gs.len() && #[trigger] gs[k].1.contains(x);
            assert(r[k] == gs[k]);
        }
        if ms.contains(x) {
            assert(r[gs.len() as int].1.contains(x));
        }
    }
}

/// Items that select more groups give more members.
pub proof fn lemma_members_grow_with_selection(
    lines: Seq<Seq<char>>,
    items1: Seq<Seq<char>>,
    items2: Seq<Seq<char>>,
    host: Seq<char>,
    x: Seq<char>,
)
    requires
        forall|g: Seq<char>| selected(items1, g) ==> selected(items2, g),
        has_member(config_groups(lines, items1, host), x),
    ensures
        has_member(config_groups(lines, items2, host), x),
    decreases lines.len(),
{
    if lines.len() > 0 {
        let p1 = config_groups(lines.drop_last(), items1, host);
        let p2 = config_groups(lines.drop_last(), items2, host);
        match line_entry(lines.last(), host) {
            Some(e) => {
                if selected(items1, e.0) {
                    lemma_add_entry_has(p1, e.0, e.1, x);
                    lemma_add_entry_has(p2, e.0, e.1, x);
                    if has_member(p1, x) {
                        lemma_members_grow_with_selection(lines.drop_last(), items1, items2, host, x);
                    }
                } else {
                    lemma_members_grow_with_selection(lines.drop_last(), items1, items2, host, x);
                    if selected(items2, e.0) {
                        lemma_add_entry_has(p2, e.0, e.1, x);
                    }
                }
            },
            None => {
                lemma_members_grow_with_selection(lines.drop_last(), items1, items2, host, x);
            },
        }
    }
}

/// More items give more hosts: every host that the items `items1` list is
/// listed for `items2` too, where `items2` holds every item of `items1`.
pub proof fn lemma_unified_grows_with_items(
    lines: Seq<Seq<char>>,
    items1: Seq<Seq<char>>,
    items2: Seq<Seq<char>>,
    host: Seq<char>,
)
    requires
        forall|s: Seq<char>| items1.contains(s) ==> items2.contains(s),
    ensures
        all_members(config_groups(lines, items1, host)).to_set().subset_of(
            all_members(config_groups(lines, items2, host)).to_set(),
        ),
{
    assert forall|x: Seq<char>|
        all_members(config_groups(lines, items1, host)).to_set().contains(x) implies all_members(
        config_groups(lines, items2, host),
    ).to_set().contains(x) by {
        lemma_all_members_has(config_groups(lines, items1, host), x);
        lemma_members_grow_with_selection(lines, items1, items2, host, x);
        lemma_all_members_has(config_groups(lines, items2, host), x);
    }
}

/// The item `all` lists every host that any items list.
pub proof fn lemma_all_covers_every(lines: Seq<Seq<char>>, items: Seq<Seq<char>>, host: Seq<char>)
    ensures
        all_members(config_groups(lines, items, host)).to_set().subset_of(
            all_members(config_groups(lines, seq![SELECT_ALL@], host)).to_set(),
        ),
{
    assert(seq![SELECT_ALL@].contains(SELECT_ALL@)) by {
        assert(seq![SELECT_ALL@][0] == SELECT_ALL@);
    }
    assert forall|x: Seq<char>|
        all_members(config_groups(lines, items, host)).to_set().contains(x) implies all_members(
        config_groups(lines, seq![SELECT_ALL@], host),
    ).to_set().contains(x) by {
        lemma_all_members_has(config_groups(lines, items, host), x);
        lemma_members_grow_with_selection(lines, items, seq![SELECT_ALL@], host, x);
        lemma_all_members_has(config_groups(lines, seq![SELECT_ALL@], host), x);
    }
}

/// Only an item equal to a group's name, or the item `all`, selects the
/// group: where `all` is not among the items, an item that merely begins
/// or contains the name selects nothing.
pub proof fn lemma_selection_by_equal_name(items: Seq<Seq<char>>, g: Seq<char>)
    requires
        !items.contains(SELECT_ALL@),
    ensures
        selected(items, g) <==> exists|i: int| 0 <= i < items.len() && items[i] == g,
{
}

/// Every group that the configuration yields is named by one of the items,
/// unless the item `all` is among them: no group is selected by an item
/// that is not its name.
pub proof fn lemma_groups_named_by_items(
    lines: Seq<Seq<char>>,
    items: Seq<Seq<char>>,
    host: Seq<char>,
)
    ensures
        forall|i: int|
            0 <= i < config_groups(lines, items, host).len() ==> items.contains(SELECT_ALL@)
                || items.contains(#[trigger] config_groups(lines, items, host)[i].0),
    decreases lines.len(),
{
    if lines.len() > 0 {
        let prev = config_groups(lines.drop_last(), items, host);
        lemma_groups_named_by_items(lines.drop_last(), items, host);
        match line_entry(lines.last(), host) {
            Some(e) => {
                if selected(items, e.0) {
                    lemma_name_index(prev, e.0);
                    let r = add_entry(prev, e.0, e.1);
                    assert forall|i: int| 0 <= i < r.len() implies items.contains(SELECT_ALL@)
                        || items.contains(#[trigger] r[i].0) by {
                        if i < prev.len() && r[i].0 != e.0 {
                            assert(r[i] == prev[i]);
                        }
                    }
                }
            },
            None => {},
        }
    }
}

/// A documented line that is visible on this machine and whose group is
/// named by one of the items yields that group.
pub proof fn lemma_named_group_kept(
    lines: Seq<Seq<char>>,
    line: Seq<char>,
    items: Seq<Seq<char>>,
    host: Seq<char>,
)
    requires
        !is_comment_or_blank(line),
        three_fields(line) matches Some(f) && f.1.len() > 0 && visible(f.0, host) && items.contains(
            f.1,
        ),
    ensures
        exists|i: int|
            0 <= i < config_groups(lines.push(line), items, host).len() && (#[trigger] config_groups(
                lines.push(line),
                items,
                host,
            )[i]).0 == (three_fields(line)->0).1,
{
    let g = (three_fields(line)->0).1;
    lemma_visible_line_adds(lines, line, items, host);
    let prev = config_groups(lines, items, host);
    lemma_name_index(prev, g);
    let r = config_groups(lines.push(line), items, host);
    if name_index(prev, g) >= 0 {
        assert(r[name_index(prev, g)].0 == g);
    } else {
        assert(r[prev.len() as int].0 == g);
    }
}

} // verus!
