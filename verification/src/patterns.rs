//! Regular expressions, by `regex`.

use crate::store;
use crate::text;
use vstd::prelude::*;
use vstd::string::*;

verus! {

/// Whether a regular expression matches somewhere in a text; none where it is no regular
/// expression.
pub uninterp spec fn matching(pattern: Seq<char>, text: Seq<char>) -> Option<bool>;

/// The groups of every match of a regular expression in a text, the whole match before them; none where
/// it is no regular expression. A group that took no part in a match has no text.
pub uninterp spec fn groups_in(
    pattern: Seq<char>,
    text: Seq<char>,
) -> Option<Seq<Seq<Option<Seq<char>>>>>;

/// `regex::Regex::new` and `regex::Regex::is_match`.
#[verifier::external_body]
pub(crate) fn is_match(pattern: &str, text: &str) -> (r: Option<bool>)
    ensures
        r == matching(pattern@, text@),
{
    regex::Regex::new(pattern).ok().map(|re| re.is_match(text))
}

/// The texts of groups.
pub open spec fn group_views(m: Seq<Option<String>>) -> Seq<Option<Seq<char>>> {
    m.map_values(|g: Option<String>| store::maybe(g))
}

/// The texts of the groups of matches.
pub open spec fn match_views(v: Seq<Vec<Option<String>>>) -> Seq<Seq<Option<Seq<char>>>> {
    v.map_values(|m: Vec<Option<String>>| group_views(m@))
}

/// `regex::Regex::captures_iter`, with every group of each match as `regex::Captures::iter` gives it.
#[verifier::external_body]
pub(crate) fn groups(pattern: &str, text: &str) -> (r: Option<Vec<Vec<Option<String>>>>)
    ensures
        r is Some <==> groups_in(pattern@, text@) is Some,
        r matches Some(v) ==> groups_in(pattern@, text@) == Some(match_views(v@)),
{
    let re = regex::Regex::new(pattern).ok()?;
    let found = re.captures_iter(text);
    Some(found.map(|c| c.iter().map(|g| g.map(|m| m.as_str().to_string())).collect()).collect())
}

/// The group of a number in a match, where it has a text.
pub open spec fn numbered(m: Seq<Option<Seq<char>>>, n: int) -> Option<Seq<char>> {
    if 0 <= n < m.len() {
        m[n]
    } else {
        None
    }
}

/// The group of a number in a match, where it has a text.
pub fn group_at(m: &Vec<Option<String>>, n: usize) -> (r: Option<String>)
    ensures
        store::maybe(r) == numbered(group_views(m@), n as int),
{
    if n < m.len() {
        assert(group_views(m@)[n as int] == store::maybe(m@[n as int]));
        match &m[n] {
            Some(s) => Some(text::copy(s.as_str())),
            None => None,
        }
    } else {
        None
    }
}

} // verus!
