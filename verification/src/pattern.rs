//! User-supplied asset name patterns, compiled and matched by the `regex` crate.

use vstd::prelude::*;

verus! {

/// `regex::Regex`, carried through opaquely.
#[verifier::external_type_specification]
#[verifier::external_body]
pub struct ExRegex(regex::Regex);

/// `regex::Error`, carried through opaquely.
#[verifier::external_type_specification]
#[verifier::external_body]
pub struct ExRegexError(regex::Error);

/// Whether `regex::Regex::new` accepts `pattern` (syntax and default size limit).
pub uninterp spec fn regex_compiles(pattern: Seq<char>) -> bool;

/// Whether the regex compiled from `pattern` matches somewhere in `haystack`
/// (what `regex::Regex::is_match` answers).
pub uninterp spec fn regex_is_match(pattern: Seq<char>, haystack: Seq<char>) -> bool;

/// A compiled pattern together with the text it was compiled from. Values are
/// only built by `compile_pattern`, so `compiled` is always `source` compiled.
pub struct AssetPattern {
    source: String,
    compiled: regex::Regex,
}

impl AssetPattern {
    /// The pattern text this value was compiled from.
    pub closed spec fn source(&self) -> Seq<char> {
        self.source@
    }
}

/// Calls `regex::Regex::new(pattern)`. Trusted: the call succeeds exactly when
/// `regex_compiles(pattern)` holds, and a success keeps `pattern` as the
/// source; the error value is passed on untouched.
#[verifier::external_body]
pub(crate) fn compile_pattern(pattern: &str) -> (r: Result<AssetPattern, regex::Error>)
    ensures
        r is Ok <==> regex_compiles(pattern@),
        r matches Ok(p) ==> p.source() == pattern@,
{
    match regex::Regex::new(pattern) {
        Ok(compiled) => Ok(AssetPattern { source: pattern.to_string(), compiled }),
        Err(e) => Err(e),
    }
}

/// Calls `regex::Regex::is_match` on the compiled pattern. Trusted: the answer
/// is `regex_is_match` of the pattern's source text and `haystack`.
#[verifier::external_body]
pub(crate) fn pattern_is_match(p: &AssetPattern, haystack: &str) -> (b: bool)
    ensures
        b == regex_is_match(p.source(), haystack@),
{
    p.compiled.is_match(haystack)
}

} // verus!
