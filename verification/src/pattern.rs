//! Regular expressions, matched by the `regex` crate.
//!
//! What a pattern accepts is the `regex` crate's business: the items here
//! name its answers (`regex_compiles`, `regex_is_match`, `regex_captures`)
//! as functions of the pattern text and the haystack, and the library's own
//! logic is stated over those names.
use vstd::prelude::*;

verus! {

#[verifier::external_type_specification]
#[verifier::external_body]
pub struct ExRegex(regex::Regex);

/// Whether `regex::Regex::new` accepts the pattern.
pub uninterp spec fn regex_compiles(pattern: Seq<char>) -> bool;

/// What `regex::Regex::is_match` answers for the pattern and the haystack.
pub uninterp spec fn regex_is_match(pattern: Seq<char>, haystack: Seq<char>) -> bool;

/// What `regex::Regex::captures` finds for the pattern and the haystack:
/// `None` without a match, else one entry per capture group (group 0 being
/// the whole match), each the text of the group or `None` where the group
/// took no part in the match.
pub uninterp spec fn regex_captures(pattern: Seq<char>, haystack: Seq<char>) -> Option<
    Seq<Option<Seq<char>>>,
>;

/// A compiled regular expression together with the text it was compiled
/// from. Only `compile` makes one, so the text is always the pattern of the
/// compiled expression.
pub struct Pattern {
    source: String,
    compiled: regex::Regex,
}

impl View for Pattern {
    type V = Seq<char>;

    closed spec fn view(&self) -> Seq<char> {
        self.source@
    }
}

/// The view of captured groups.
pub open spec fn groups_view(c: Option<Vec<Option<String>>>) -> Option<Seq<Option<Seq<char>>>> {
    match c {
        None => None,
        Some(v) => Some(
            v@.map_values(
                |g: Option<String>|
                    match g {
                        None => None,
                        Some(s) => Some(s@),
                    },
            ),
        ),
    }
}

/// Compiles `pattern` with `regex::Regex::new`. The contract claims that the
/// result is present exactly when the crate accepts the pattern, and that it
/// keeps the pattern's text.
#[verifier::external_body]
pub(crate) fn compile(pattern: &str) -> (r: Option<Pattern>)
    ensures
        r is Some <==> regex_compiles(pattern@),
        r matches Some(p) ==> p@ == pattern@,
{
    match regex::Regex::new(pattern) {
        Ok(compiled) => Some(Pattern { source: pattern.to_string(), compiled }),
        Err(_) => None,
    }
}

/// Whether the pattern matches anywhere in `haystack`
/// (`regex::Regex::is_match`). The contract claims only that the answer is
/// the crate's answer for this pattern and haystack.
#[verifier::external_body]
pub(crate) fn is_match(p: &Pattern, haystack: &str) -> (r: bool)
    ensures
        r == regex_is_match(p@, haystack@),
{
    p.compiled.is_match(haystack)
}

/// The capture groups of the first match in `haystack`
/// (`regex::Regex::captures`), each group converted to an owned string. The
/// contract claims only that they are the crate's groups for this pattern
/// and haystack.
#[verifier::external_body]
pub(crate) fn captures(p: &Pattern, haystack: &str) -> (r: Option<Vec<Option<String>>>)
    ensures
        groups_view(r) == regex_captures(p@, haystack@),
{
    match p.compiled.captures(haystack) {
        None => None,
        Some(caps) => Some(caps.iter().map(|g| g.map(|m| m.as_str().to_string())).collect()),
    }
}

} // verus!
