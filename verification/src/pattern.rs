//! Pattern matching. The matching itself is the `regex` crate's; this
//! module gives its results names that contracts can speak of.

use regex::Regex;
use vstd::prelude::*;

verus! {

/// Whether `Regex::new` accepts `pattern`.
pub uninterp spec fn regex_compiles(pattern: Seq<char>) -> bool;

/// What `Regex::captures` finds for `pattern` in `text`: `None` where the
/// pattern matches nowhere, else the capture groups of the first match,
/// group 0 being the whole match, each with the text it matched or `None`
/// where it took no part in the match.
pub uninterp spec fn regex_captures(pattern: Seq<char>, text: Seq<char>) -> Option<
    Seq<Option<Seq<char>>>,
>;

/// The groups of a match as sequences of characters.
pub open spec fn group_views(groups: Seq<Option<String>>) -> Seq<Option<Seq<char>>> {
    groups.map_values(
        |group: Option<String>|
            match group {
                Some(text) => Some(text@),
                None => None,
            },
    )
}

/// The result of a search as sequences of characters.
pub open spec fn captures_view(found: Option<Vec<Option<String>>>) -> Option<
    Seq<Option<Seq<char>>>,
> {
    match found {
        Some(groups) => Some(group_views(groups@)),
        None => None,
    }
}

/// The text of group `index` of a search result, where the search found a
/// match and that group took part in it.
pub open spec fn group_at(found: Option<Seq<Option<Seq<char>>>>, index: int) -> Option<Seq<char>> {
    match found {
        Some(groups) => if 0 <= index < groups.len() {
            groups[index]
        } else {
            None
        },
        None => None,
    }
}

/// Calls `Regex::new` and says whether it returned `Ok`. The crate documents
/// that an invalid pattern, or one that compiles to more than the default
/// size limit, is an error; which patterns those are is left to it.
#[verifier::external_body]
pub(crate) fn compiles(pattern: &str) -> (ok: bool)
    ensures
        ok == regex_compiles(pattern@),
{
    Regex::new(pattern).is_ok()
}

/// Compiles `pattern` with `Regex::new`, which the precondition says
/// succeeds, calls `Regex::captures` on `text` and copies out the text of
/// every group that `Captures::iter` yields. Nothing is claimed of the
/// groups but that they are what the crate finds for this pattern and text.
#[verifier::external_body]
pub(crate) fn first_captures(pattern: &str, text: &str) -> (found: Option<Vec<Option<String>>>)
    requires
        regex_compiles(pattern@),
    ensures
        captures_view(found) == regex_captures(pattern@, text@),
{
    let re = Regex::new(pattern).unwrap();
    re.captures(text).map(|c| c.iter().map(|g| g.map(|m| m.as_str().to_string())).collect())
}

/// Compiles `pattern` with `Regex::new`, which the precondition says
/// succeeds, and calls `Regex::is_match` on `text`. The crate documents that
/// it is true exactly when the pattern matches somewhere in the text, which
/// is when `Regex::captures` returns a match.
#[verifier::external_body]
pub(crate) fn has_match(pattern: &str, text: &str) -> (found: bool)
    requires
        regex_compiles(pattern@),
    ensures
        found == (regex_captures(pattern@, text@) is Some),
{
    let re = Regex::new(pattern).unwrap();
    re.is_match(text)
}

/// A copy of the text of group `index` of a search result.
pub fn group_text(found: &Option<Vec<Option<String>>>, index: usize) -> (text: Option<String>)
    ensures
        match text {
            Some(t) => group_at(captures_view(*found), index as int) == Some(t@),
            None => group_at(captures_view(*found), index as int) is None,
        },
{
    match found {
        Some(groups) => {
            if index < groups.len() {
                match &groups[index] {
                    Some(t) => Some(t.clone()),
                    None => None,
                }
            } else {
                None
            }
        },
        None => None,
    }
}

} // verus!
