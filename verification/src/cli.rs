//! Decisions behind the command line: which GitHub token to use and which
//! repository paths a download request covers.

use vstd::prelude::*;
use vstd::string::StringSliceAdditionalSpecFns;
use vstd::utf8::{decode_utf8, encode_utf8, encode_utf8_decode_utf8, is_char_boundary};
use crate::text::{is_space, lemma_trim_ends, lemma_trim_unpadded, trim, trim_str};

verus! {

/// A token as given, trimmed; blank or absent counts as no token.
pub open spec fn normalized_token(token: Option<Seq<char>>) -> Option<Seq<char>> {
    match token {
        Some(v) => if trim(v).len() == 0 {
            None
        } else {
            Some(trim(v))
        },
        None => None,
    }
}

/// The view of an optional owned string.
pub open spec fn opt_view(o: Option<String>) -> Option<Seq<char>> {
    match o {
        Some(s) => Some(s@),
        None => None,
    }
}

/// The first of two optional values that is present.
pub open spec fn first_present(a: Option<Seq<char>>, b: Option<Seq<char>>) -> Option<Seq<char>> {
    if a is Some {
        a
    } else {
        b
    }
}

/// Trims a token and drops it when nothing is left.
pub fn normalize_token(token: Option<String>) -> (r: Option<String>)
    ensures
        opt_view(r) == normalized_token(opt_view(token)),
{
    match token {
        Some(value) => {
            let t = trim_str(value.as_str());
            if t.unicode_len() == 0 {
                None
            } else {
                Some(String::from_str(t))
            }
        },
        None => None,
    }
}

/// The token given by the environment: the first usable one of
/// `GHGRAB_GITHUB_TOKEN` and `GITHUB_TOKEN`, normalised; an unset or blank
/// variable is passed over. The arguments are the two variables' values,
/// `None` when unset.
pub fn resolve_github_token_from_env(ghgrab_github_token: Option<String>, github_token: Option<String>) -> (r:
    Option<String>)
    ensures
        opt_view(r) == first_present(
            normalized_token(opt_view(ghgrab_github_token)),
            normalized_token(opt_view(github_token)),
        ),
{
    let first = normalize_token(ghgrab_github_token);
    if first.is_some() {
        return first;
    }
    normalize_token(github_token)
}

/// The GitHub token to use: the first usable one of the command-line token,
/// `GHGRAB_GITHUB_TOKEN`, `GITHUB_TOKEN` and the saved token, each
/// normalised; a blank one is passed over.
pub fn resolve_github_token(
    cli_token: Option<String>,
    ghgrab_github_token: Option<String>,
    github_token: Option<String>,
    config_token: Option<String>,
) -> (r: Option<String>)
    ensures
        opt_view(r) == first_present(
            normalized_token(opt_view(cli_token)),
            first_present(
                normalized_token(opt_view(ghgrab_github_token)),
                first_present(
                    normalized_token(opt_view(github_token)),
                    normalized_token(opt_view(config_token)),
                ),
            ),
        ),
{
    let from_cli = normalize_token(cli_token);
    if from_cli.is_some() {
        return from_cli;
    }
    let from_env = resolve_github_token_from_env(ghgrab_github_token, github_token);
    if from_env.is_some() {
        return from_env;
    }
    normalize_token(config_token)
}

/// Conflicting options of a download request.
#[derive(Debug, Clone, Copy, PartialEq, Eq, Structural)]
pub enum DownloadRequestError {
    /// `--repo` was given together with paths or `--subtree`.
    RepoWithPaths,
    /// `--subtree` was given together with positional paths.
    SubtreeWithPaths,
}

impl DownloadRequestError {
    /// The human-readable text of this error.
    pub fn message(&self) -> (m: String)
        ensures
            m@ == match *self {
                DownloadRequestError::RepoWithPaths => "--repo cannot be combined with paths or --subtree"@,
                DownloadRequestError::SubtreeWithPaths => "--subtree cannot be combined with positional paths"@,
            },
    {
        match self {
            DownloadRequestError::RepoWithPaths => String::from_str(
                "--repo cannot be combined with paths or --subtree",
            ),
            DownloadRequestError::SubtreeWithPaths => String::from_str(
                "--subtree cannot be combined with positional paths",
            ),
        }
    }
}

/// The repository paths a download covers: none (the whole repository) for
/// `--repo`, the one subtree for `--subtree`, else the positional paths.
pub fn build_download_request(paths: Vec<String>, repo: bool, subtree: Option<String>) -> (r: Result<
    Vec<String>,
    DownloadRequestError,
>)
    ensures
        repo && (paths@.len() > 0 || subtree is Some) ==> r == Err::<Vec<String>, DownloadRequestError>(
            DownloadRequestError::RepoWithPaths,
        ),
        repo && paths@.len() == 0 && subtree is None ==> (r matches Ok(v) && v@.len() == 0),
        !repo && subtree is Some && paths@.len() > 0 ==> r == Err::<Vec<String>, DownloadRequestError>(
            DownloadRequestError::SubtreeWithPaths,
        ),
        !repo && subtree is Some && paths@.len() == 0 ==> (r matches Ok(v) && v@ == seq![subtree->0]),
        !repo && subtree is None ==> (r matches Ok(v) && v@ == paths@),
{
    if repo && (paths.len() > 0 || subtree.is_some()) {
        return Err(DownloadRequestError::RepoWithPaths);
    }
    if repo {
        return Ok(Vec::new());
    }
    match subtree {
        Some(s) => {
            if paths.len() > 0 {
                return Err(DownloadRequestError::SubtreeWithPaths);
            }
            let mut v: Vec<String> = Vec::new();
            v.push(s);
            Ok(v)
        },
        None => Ok(paths),
    }
}


/// A token that survives normalisation is non-empty, has no whitespace at
/// either end, and normalising it again changes nothing.
pub proof fn lemma_normalized_token_is_clean(token: Option<Seq<char>>)
    ensures
        normalized_token(token) matches Some(v) ==> v.len() > 0 && !is_space(v[0]) && !is_space(v.last()),
        normalized_token(normalized_token(token)) == normalized_token(token),
{
    if let Some(v) = token {
        lemma_trim_ends(v);
        if trim(v).len() > 0 {
            lemma_trim_unpadded(trim(v));
        }
    }
}


/// How a saved token is shown: its first four and last four bytes around
/// `...` when it is longer than eight bytes, otherwise eight asterisks.
pub open spec fn masked_token(token: Seq<char>) -> Seq<char> {
    let b = encode_utf8(token);
    if b.len() > 8 {
        decode_utf8(b.subrange(0, 4)) + "..."@ + decode_utf8(b.subrange(b.len() - 4, b.len() as int))
    } else {
        "********"@
    }
}

/// Masks a token for display (see `masked_token`). A token longer than eight
/// bytes is cut at byte 4 and at four bytes from the end, which must fall on
/// character boundaries (slicing panics otherwise).
pub fn mask_token(token: &str) -> (r: String)
    requires
        encode_utf8(token@).len() <= usize::MAX,
        encode_utf8(token@).len() > 8 ==> is_char_boundary(encode_utf8(token@), 4)
            && is_char_boundary(encode_utf8(token@), encode_utf8(token@).len() - 4),
    ensures
        r@ == masked_token(token@),
{
    let n = token.len();
    proof {
        assert(token.spec_bytes() == encode_utf8(token@));
    }
    if n > 8 {
        let (first, _) = token.split_at(4);
        let (_, last) = token.split_at(n - 4);
        proof {
            encode_utf8_decode_utf8(first@);
            encode_utf8_decode_utf8(last@);
            assert(first.spec_bytes() == encode_utf8(first@));
            assert(last.spec_bytes() == encode_utf8(last@));
        }
        let mut m = String::from_str(first);
        m.append("...");
        m.append(last);
        m
    } else {
        String::from_str("********")
    }
}

} // verus!
