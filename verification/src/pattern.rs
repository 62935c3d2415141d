//! Regular expressions, as the `regex` crate matches them. Nothing here is
//! proved: each function states what the crate's documentation says of the
//! call that it makes.

use regex::Regex;
use vstd::prelude::*;

verus! {

/// `regex::Regex`, a compiled expression. Nothing of its inside is known
/// here.
#[verifier::external_type_specification]
#[verifier::external_body]
pub struct ExRegex(Regex);

/// The expression that `Regex::new` makes of `pattern`; `None` where it
/// reports an error.
pub uninterp spec fn compiled(pattern: Seq<char>) -> Option<Regex>;

/// What `Regex::captures` finds in `haystack`: nothing, or the groups of
/// the leftmost match. Group 0 is the whole match; a group that took no
/// part in the match is `None`.
pub uninterp spec fn first_match(re: Regex, haystack: Seq<char>) -> Option<Seq<Option<Seq<char>>>>;

/// What `Regex::captures_iter` finds in `haystack`: the groups of each of
/// the successive matches that do not overlap, in order.
pub uninterp spec fn all_matches(re: Regex, haystack: Seq<char>) -> Seq<Seq<Option<Seq<char>>>>;

/// The groups of a match, with their texts as sequences of characters.
pub open spec fn groups_of(groups: Seq<Option<String>>) -> Seq<Option<Seq<char>>> {
    Seq::new(
        groups.len(),
        |i: int|
            match groups[i] {
                Some(text) => Some(text@),
                None => None,
            },
    )
}

/// Calls `Regex::new` and turns its error into `None`. Claimed: the same
/// pattern always gives the same expression, or always none.
#[verifier::external_body]
pub(crate) fn compile(pattern: &str) -> (r: Option<Regex>)
    ensures
        r == compiled(pattern@),
{
    Regex::new(pattern).ok()
}

/// Calls `Regex::captures` and copies the text of each group out of the
/// match, in the order of `Captures::iter`. Claimed: what is found
/// depends on the expression and the haystack alone.
#[verifier::external_body]
pub(crate) fn captures(re: &Regex, haystack: &str) -> (r: Option<Vec<Option<String>>>)
    ensures
        match r {
            Some(groups) => first_match(*re, haystack@) == Some(groups_of(groups@)),
            None => first_match(*re, haystack@) is None,
        },
{
    re.captures(haystack).map(|c| c.iter().map(|m| m.map(|m| m.as_str().to_owned())).collect())
}

/// Calls `Regex::captures_iter` and copies the text of each group out of
/// each match, in the order in which the iterator yields them. Claimed:
/// what is found depends on the expression and the haystack alone.
#[verifier::external_body]
pub(crate) fn captures_iter(re: &Regex, haystack: &str) -> (r: Vec<Vec<Option<String>>>)
    ensures
        r@.len() == all_matches(*re, haystack@).len(),
        forall|i: int|
            0 <= i < r@.len() ==> groups_of(#[trigger] r@[i]@) == all_matches(*re, haystack@)[i],
{
    re.captures_iter(haystack).map(
        |c| c.iter().map(|m| m.map(|m| m.as_str().to_owned())).collect(),
    ).collect()
}

} // verus!
