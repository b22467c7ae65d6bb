//! Regular expressions, matched and replaced by the `regex` crate.
use vstd::prelude::*;

verus! {

/// What `Regex::new(pat)` followed by `is_match(hay)` gives: `None` when the
/// pattern does not compile.
pub uninterp spec fn regex_match(pat: Seq<char>, hay: Seq<char>) -> Option<bool>;

/// What `Regex::new(pat)` followed by `replace_all(text, rep)` gives: `None`
/// when the pattern does not compile.
pub uninterp spec fn regex_replace_all(pat: Seq<char>, text: Seq<char>, rep: Seq<char>) -> Option<Seq<char>>;

/// What `Regex::new(pat)` followed by `replace(text, rep)` (the leftmost match
/// only) gives: `None` when the pattern does not compile.
pub uninterp spec fn regex_replace_first(pat: Seq<char>, text: Seq<char>, rep: Seq<char>) -> Option<Seq<char>>;

#[verifier::external_body]
/// Compiles `pat` with `regex::Regex::new` and tests `hay` with `is_match`;
/// named `regex_match`.
pub(crate) fn is_match(pat: &str, hay: &str) -> (r: Option<bool>)
    ensures
        r == regex_match(pat@, hay@),
{
    match regex::Regex::new(pat) {
        Ok(re) => Some(re.is_match(hay)),
        Err(_) => None,
    }
}

#[verifier::external_body]
/// Compiles `pat` with `regex::Regex::new` and rewrites `text` with
/// `replace_all`; named `regex_replace_all`.
pub(crate) fn replace_all(pat: &str, text: &str, rep: &str) -> (r: Option<String>)
    ensures
        crate::posting::opt_str(r) == regex_replace_all(pat@, text@, rep@),
{
    match regex::Regex::new(pat) {
        Ok(re) => Some(re.replace_all(text, rep).into_owned()),
        Err(_) => None,
    }
}

#[verifier::external_body]
/// Compiles `pat` with `regex::Regex::new` and rewrites the leftmost match in
/// `text` with `replace`; named `regex_replace_first`.
pub(crate) fn replace_first(pat: &str, text: &str, rep: &str) -> (r: Option<String>)
    ensures
        crate::posting::opt_str(r) == regex_replace_first(pat@, text@, rep@),
{
    match regex::Regex::new(pat) {
        Ok(re) => Some(re.replace(text, rep).into_owned()),
        Err(_) => None,
    }
}

} // verus!
