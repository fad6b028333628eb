//! The boundary to the `regex` crate.
//!
//! Nothing in this module is proved. Its two spec functions stand for the
//! answers of the regex engine, and the one executable function obtains them.

use vstd::prelude::*;

verus! {

/// `regex::Error`, the error of `regex::Regex::new`. Nothing is said of what
/// it holds; it is only told apart from success.
#[verifier::external_type_specification]
#[verifier::external_body]
pub struct ExRegexError(regex::Error);

/// Whether `regex::Regex::new` compiles `pattern`, that is, returns `Ok`: the
/// pattern is well formed and its compiled form stays under the size limit
/// that the crate sets by default.
pub uninterp spec fn regex_accepts(pattern: Seq<char>) -> bool;

/// What `regex::Regex::is_match` returns for `haystack` on the regex that
/// `regex::Regex::new` compiled from `pattern`.
pub uninterp spec fn regex_is_match(pattern: Seq<char>, haystack: Seq<char>) -> bool;

/// Compiles `pattern` with `regex::Regex::new` and asks the compiled regex
/// with `regex::Regex::is_match` whether it matches anywhere in `haystack`.
/// The regex is not kept: each call compiles anew.
///
/// Believed, not proved: the error of `Regex::new` is handed on exactly when
/// the pattern does not compile, and otherwise the answer of `is_match` is
/// returned. Whether a pattern compiles depends on the pattern alone, and
/// the answer on the pattern and the haystack alone.
#[verifier::external_body]
pub(crate) fn search(pattern: &str, haystack: &str) -> (found: Result<bool, regex::Error>)
    ensures
        found is Ok <==> regex_accepts(pattern@),
        found matches Ok(hit) ==> hit == regex_is_match(pattern@, haystack@),
{
    let compiled = regex::Regex::new(pattern)?;
    Ok(compiled.is_match(haystack))
}

} // verus!
