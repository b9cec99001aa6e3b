//! Regular-expression matching, done by the `regex` crate.
use vstd::prelude::*;
use crate::text::str_views;

verus! {

/// The texts of the successive non-overlapping matches of `pattern` in `text`,
/// or `None` when `pattern` does not compile (as `regex::Regex::find_iter` finds them).
pub uninterp spec fn regex_find_all_of(pattern: Seq<char>, text: Seq<char>) -> Option<Seq<Seq<char>>>;

/// Whether `pattern` matches somewhere in `text`, or the compiler's message when
/// `pattern` does not compile (as `regex::Regex::is_match` decides).
pub uninterp spec fn regex_is_match_of(pattern: Seq<char>, text: Seq<char>) -> Result<bool, Seq<char>>;

/// For each successive non-overlapping match of `pattern` in `text`, the texts
/// of capture groups 1 and 2 where they take part; or the compiler's message when
/// `pattern` does not compile (as `regex::Regex::captures_iter` finds them).
pub uninterp spec fn regex_groups_of(pattern: Seq<char>, text: Seq<char>) -> Result<Seq<(Option<Seq<char>>, Option<Seq<char>>)>, Seq<char>>;

/// The characters of an optional string.
pub open spec fn opt_chars(o: Option<String>) -> Option<Seq<char>> {
    match o {
        Some(s) => Some(s@),
        None => None,
    }
}

/// The texts of pairs of optional strings.
pub open spec fn group_texts(v: Seq<(Option<String>, Option<String>)>) -> Seq<(Option<Seq<char>>, Option<Seq<char>>)> {
    v.map_values(|p: (Option<String>, Option<String>)| (opt_chars(p.0), opt_chars(p.1)))
}

/// `regex::Regex::new(pattern)` then `find_iter(text)`, each match as text.
#[verifier::external_body]
pub(crate) fn regex_find_all(pattern: &str, text: &str) -> (r: Option<Vec<String>>)
    ensures
        match regex_find_all_of(pattern@, text@) {
            Some(ms) => r matches Some(v) && str_views(v@) == ms,
            None => r is None,
        },
{
    match regex::Regex::new(pattern) {
        Ok(re) => Some(re.find_iter(text).map(|m| m.as_str().to_string()).collect()),
        Err(_) => None,
    }
}

/// `regex::Regex::new(pattern)` then `is_match(text)`; the compile error as text.
#[verifier::external_body]
pub(crate) fn regex_is_match(pattern: &str, text: &str) -> (r: Result<bool, String>)
    ensures
        match regex_is_match_of(pattern@, text@) {
            Ok(b) => r == Ok::<bool, String>(b),
            Err(m) => r matches Err(e) && e@ == m,
        },
{
    match regex::Regex::new(pattern) {
        Ok(re) => Ok(re.is_match(text)),
        Err(e) => Err(e.to_string()),
    }
}

/// `regex::Regex::new(pattern)` then `captures_iter(text)`, with the texts of
/// groups 1 and 2 of each match; the compile error as text.
#[verifier::external_body]
pub(crate) fn regex_groups(pattern: &str, text: &str) -> (r: Result<Vec<(Option<String>, Option<String>)>, String>)
    ensures
        match regex_groups_of(pattern@, text@) {
            Ok(gs) => r matches Ok(v) && group_texts(v@) == gs,
            Err(m) => r matches Err(e) && e@ == m,
        },
{
    match regex::Regex::new(pattern) {
        Ok(re) => Ok(re.captures_iter(text).map(|c| (c.get(1).map(|m| m.as_str().to_string()), c.get(2).map(|m| m.as_str().to_string()))).collect()),
        Err(e) => Err(e.to_string()),
    }
}

} // verus!
