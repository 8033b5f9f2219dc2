//! Searching texts by regular expressions.
use regex::Regex;
use vstd::prelude::*;

verus! {

/// The first group of each match of a pattern in a text, as `regex::Regex` finds them:
/// `None` if the pattern is not a valid one, otherwise an entry for each of the
/// successive matches, which is `None` where the first group took no part in it.
pub uninterp spec fn first_groups(pattern: Seq<char>, text: Seq<char>) -> Option<
    Seq<Option<Seq<char>>>,
>;

/// The texts that a list of optional strings holds.
pub open spec fn opt_texts(v: Seq<Option<String>>) -> Seq<Option<Seq<char>>> {
    v.map_values(
        |s: Option<String>|
            match s {
                Some(s) => Some(s@),
                None => None::<Seq<char>>,
            },
    )
}

/// `Regex::new` and `Regex::captures_iter`: the first group of every match, named
/// [`first_groups`] here.
#[verifier::external_body]
pub(crate) fn groups(pattern: &str, text: &str) -> (r: Option<Vec<Option<String>>>)
    ensures
        match r {
            Some(v) => first_groups(pattern@, text@) == Some(opt_texts(v@)),
            None => first_groups(pattern@, text@) is None,
        },
{
    let re = Regex::new(pattern).ok()?;
    Some(re.captures_iter(text).map(|c| c.get(1).map(|m| m.as_str().to_string())).collect())
}

/// The first group of the first match, where there is one.
pub open spec fn first_group(pattern: Seq<char>, text: Seq<char>) -> Option<Seq<char>> {
    match first_groups(pattern, text) {
        Some(all) => if all.len() > 0 {
            all[0]
        } else {
            None
        },
        None => None,
    }
}

/// The first group of the first match of a pattern, where there is one.
pub fn find_group(pattern: &str, text: &str) -> (r: Option<String>)
    ensures
        match r {
            Some(s) => first_group(pattern@, text@) == Some(s@),
            None => first_group(pattern@, text@) is None,
        },
{
    match groups(pattern, text) {
        Some(mut all) => if all.len() > 0 {
            let ghost before = all@;
            let first: Option<String> = all.remove(0);
            assert(opt_texts(before)[0] == (match first {
                Some(s) => Some(s@),
                None => None::<Seq<char>>,
            }));
            first
        } else {
            None
        },
        None => None,
    }
}

/// A text without what a pattern matches in it, as `regex::Regex` finds the matches;
/// `None` if the pattern is not a valid one.
pub uninterp spec fn without_matches(pattern: Seq<char>, text: Seq<char>) -> Option<Seq<char>>;

/// `Regex::new` and `Regex::replace_all` with nothing in place of each match, named
/// [`without_matches`] here.
#[verifier::external_body]
pub(crate) fn remove_matches(pattern: &str, text: &str) -> (r: Option<String>)
    ensures
        match r {
            Some(s) => without_matches(pattern@, text@) == Some(s@),
            None => without_matches(pattern@, text@) is None,
        },
{
    let re = Regex::new(pattern).ok()?;
    Some(re.replace_all(text, "").into_owned())
}

/// The first group is that of the first match, and there is none without a match.
pub proof fn law_first_match_counts(pattern: Seq<char>, text: Seq<char>)
    ensures
        first_groups(pattern, text) matches Some(all) ==> (all.len() > 0 ==> first_group(
            pattern,
            text,
        ) == all[0]) && (all.len() == 0 ==> first_group(pattern, text) is None),
        first_groups(pattern, text) is None ==> first_group(pattern, text) is None,
{
}

} // verus!
