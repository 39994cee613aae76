//! Regular-expression calls into `lazy_regex` (its re-exported `Regex`).
//!
//! Each function here compiles the pattern it is given and runs one
//! operation; the result is a function of the arguments alone, and is named
//! by an uninterpreted spec function, since the meaning of a regular
//! expression takes pages to state. `None` stands for a pattern that does
//! not compile.

use vstd::prelude::*;

verus! {

/// What `Regex::new(pattern)` followed by `Regex::is_match(text)` yields.
pub uninterp spec fn regex_is_match_result(pattern: Seq<char>, text: Seq<char>) -> Option<bool>;

/// What `Regex::new(pattern)` followed by `Regex::replace_all(text, template)`
/// yields (`template` is expanded, `$n`/`${n}` standing for group `n`).
pub uninterp spec fn regex_replace_all_result(
    pattern: Seq<char>,
    text: Seq<char>,
    template: Seq<char>,
) -> Option<Seq<char>>;

/// What `Regex::new(pattern)` followed by `Regex::replace(text, template)`
/// (first match only) yields.
pub uninterp spec fn regex_replace_first_result(
    pattern: Seq<char>,
    text: Seq<char>,
    template: Seq<char>,
) -> Option<Seq<char>>;

/// What `Regex::new(pattern)` followed by `Regex::captures(text)` yields:
/// for a match, the text of every group (group 0 is the whole match),
/// `None` for a group that did not participate.
pub uninterp spec fn regex_captures_result(pattern: Seq<char>, text: Seq<char>) -> Option<
    Option<Seq<Option<Seq<char>>>>,
>;

/// The text of each group of a capture result.
pub open spec fn groups_view(v: Seq<Option<String>>) -> Seq<Option<Seq<char>>> {
    v.map_values(|g: Option<String>| match g {
        Some(s) => Some(s@),
        None => None,
    })
}

/// Calls `lazy_regex::Regex::new` and `Regex::is_match`; claims only that the
/// result is `regex_is_match_result` of the pattern and the text.
#[verifier::external_body]
pub(crate) fn regex_is_match(pattern: &str, text: &str) -> (r: Option<bool>)
    ensures
        r == regex_is_match_result(pattern@, text@),
{
    match lazy_regex::Regex::new(pattern) {
        Ok(re) => Some(re.is_match(text)),
        Err(_) => None,
    }
}

/// Calls `lazy_regex::Regex::new` and `Regex::replace_all`; claims only that
/// the result is `regex_replace_all_result` of the three arguments.
#[verifier::external_body]
pub(crate) fn regex_replace_all(pattern: &str, text: &str, template: &str) -> (r: Option<String>)
    ensures
        match r {
            Some(s) => regex_replace_all_result(pattern@, text@, template@) == Some(s@),
            None => regex_replace_all_result(pattern@, text@, template@) == None::<Seq<char>>,
        },
{
    match lazy_regex::Regex::new(pattern) {
        Ok(re) => Some(re.replace_all(text, template).into_owned()),
        Err(_) => None,
    }
}

/// Calls `lazy_regex::Regex::new` and `Regex::replace`; claims only that the
/// result is `regex_replace_first_result` of the three arguments.
#[verifier::external_body]
pub(crate) fn regex_replace_first(pattern: &str, text: &str, template: &str) -> (r: Option<String>)
    ensures
        match r {
            Some(s) => regex_replace_first_result(pattern@, text@, template@) == Some(s@),
            None => regex_replace_first_result(pattern@, text@, template@) == None::<Seq<char>>,
        },
{
    match lazy_regex::Regex::new(pattern) {
        Ok(re) => Some(re.replace(text, template).into_owned()),
        Err(_) => None,
    }
}

/// Calls `lazy_regex::Regex::new` and `Regex::captures`; claims only that the
/// groups handed back are `regex_captures_result` of the pattern and the text.
#[verifier::external_body]
pub(crate) fn regex_captures(pattern: &str, text: &str) -> (r: Option<Option<Vec<Option<String>>>>)
    ensures
        match r {
            Some(Some(v)) => regex_captures_result(pattern@, text@) == Some(Some(groups_view(v@))),
            Some(None) => regex_captures_result(pattern@, text@) == Some(None::<Seq<Option<Seq<char>>>>),
            None => regex_captures_result(pattern@, text@) == None::<Option<Seq<Option<Seq<char>>>>>,
        },
{
    match lazy_regex::Regex::new(pattern) {
        Ok(re) => Some(re.captures(text).map(|caps| {
            caps.iter().map(|g| g.map(|m| m.as_str().to_string())).collect()
        })),
        Err(_) => None,
    }
}

} // verus!
