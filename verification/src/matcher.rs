//! The regular-expression matcher, used as a black box.
//!
//! The pass only ever asks one question of a pattern set: given the set and
//! a string, does some pattern match? Which strings a compiled pattern set
//! matches is not restated here; the result of a match is only given a name,
//! [`pattern_set_matches`], a fixed function of the pattern texts and the
//! string alone, and every contract of the selector speaks through that
//! name.

use vstd::prelude::*;

verus! {

/// The views of a list of strings.
pub open spec fn string_views(ss: Seq<String>) -> Seq<Seq<char>> {
    Seq::new(ss.len(), |j: int| ss[j]@)
}

/// Whether this list of pattern texts compiles as a set of regular
/// expressions. What `regex` accepts is not restated here.
pub uninterp spec fn pattern_set_ok(pats: Seq<Seq<char>>) -> bool;

/// The pattern texts a compiled set was built from.
pub uninterp spec fn patterns_of(set: regex::RegexSet) -> Seq<Seq<char>>;

/// Whether some pattern of the list matches the string. The result is a
/// fixed function of the pattern texts and the string.
pub uninterp spec fn pattern_set_matches(pats: Seq<Seq<char>>, text: Seq<char>) -> bool;

#[verifier::external_type_specification]
#[verifier::external_body]
pub struct ExRegexSet(regex::RegexSet);

/// Relies on `regex::RegexSet::new`: compiling is deterministic, fails if
/// and only if the given pattern texts do not compile as a set, and on
/// success the set holds exactly the given pattern texts.
#[verifier::external_body]
pub(crate) fn regex_set_new(pats: &Vec<String>) -> (r: Result<regex::RegexSet, String>)
    ensures
        r is Ok <==> pattern_set_ok(string_views(pats@)),
        r matches Ok(set) ==> patterns_of(set) == string_views(pats@),
{
    match regex::RegexSet::new(pats) {
        Ok(set) => Ok(set),
        Err(e) => Err(format!("{}", e)),
    }
}

/// Relies on `regex::RegexSet::is_match`: returns true if and only if one
/// of the set's patterns matches the string, a fixed function of the
/// pattern texts and the string; an empty set matches nothing.
#[verifier::external_body]
pub(crate) fn regex_set_is_match(set: &regex::RegexSet, text: &String) -> (r: bool)
    ensures
        r == pattern_set_matches(patterns_of(*set), text@),
        patterns_of(*set).len() == 0 ==> r == false,
{
    set.is_match(text.as_str())
}

} // verus!
