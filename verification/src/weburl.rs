//! Repository URLs, parsed by the `url` crate.

use vstd::prelude::*;

verus! {

/// `url::ParseError`, carried through opaquely.
#[verifier::external_type_specification]
#[verifier::external_body]
pub struct ExUrlParseError(url::ParseError);

/// What `url::Url::parse` makes of `input`: `None` when it rejects it,
/// otherwise the URL's host (`Url::host_str`) and path (`Url::path`).
pub uninterp spec fn url_parts(input: Seq<char>) -> Option<(Option<Seq<char>>, Seq<char>)>;

/// The host and the path of a parsed URL, as plain strings.
pub struct UrlParts {
    pub host: Option<String>,
    pub path: String,
}

/// The view of an optional owned string.
pub open spec fn opt_string_view(o: Option<String>) -> Option<Seq<char>> {
    match o {
        Some(s) => Some(s@),
        None => None,
    }
}

/// Calls `url::Url::parse(input)` and reads the host and path of the result.
/// Trusted: success exactly when `url_parts(input)` is `Some`, and then the
/// host and path are the ones `url_parts` names; the parse error is passed on.
#[verifier::external_body]
pub(crate) fn parse_url(input: &str) -> (r: Result<UrlParts, url::ParseError>)
    ensures
        r is Ok <==> url_parts(input@) is Some,
        r matches Ok(p) ==> url_parts(input@) == Some((opt_string_view(p.host), p.path@)),
{
    match url::Url::parse(input) {
        Ok(u) => Ok(UrlParts { host: u.host_str().map(str::to_string), path: u.path().to_string() }),
        Err(e) => Err(e),
    }
}

} // verus!
