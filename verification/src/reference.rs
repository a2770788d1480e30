//! Resolving a repository reference to its owner and name.

use vstd::prelude::*;
use crate::release::ReleaseError;
use crate::weburl::{parse_url, url_parts};
use crate::text::{
    chars_eq_str, chars_of, has_prefix, has_suffix, is_space, lemma_split_on_append, lemma_split_on_len,
    lemma_split_on_without_sep, lemma_trim_unpadded, range_pieces, ranges_within, split_on,
    split_ranges, starts_with_str, strip_suffix_all, trim, trim_end_matches_str, trim_str,
};

verus! {

/// A repository reference resolved to its owner and name.
#[derive(Debug, Clone)]
pub struct ParsedRepo {
    pub owner: String,
    pub repo: String,
}

/// The non-empty pieces, in order.
pub open spec fn nonempty_pieces(ps: Seq<Seq<char>>) -> Seq<Seq<char>>
    decreases ps.len(),
{
    if ps.len() == 0 {
        ps
    } else if ps.last().len() > 0 {
        nonempty_pieces(ps.drop_last()).push(ps.last())
    } else {
        nonempty_pieces(ps.drop_last())
    }
}

/// What a parsed URL's host and path name as a repository: the host must
/// be github.com, the path must start with `/`, and its first two non-empty
/// segments are the owner and the repository (a trailing `.git`, repeated
/// or not, dropped).
pub open spec fn repo_from_parts(host: Option<Seq<char>>, path: Seq<char>) -> Result<(Seq<char>, Seq<char>), ReleaseError> {
    if host != Some("github.com"@) {
        Err(ReleaseError::NotGitHubUrl)
    } else if path.len() == 0 || path[0] != '/' {
        Err(ReleaseError::InvalidUrlPath)
    } else {
        let segments = nonempty_pieces(split_on(path.drop_first(), '/'));
        if segments.len() < 2 {
            Err(ReleaseError::MissingOwnerOrRepository)
        } else {
            Ok((segments[0], strip_suffix_all(segments[1], ".git"@)))
        }
    }
}

/// What a repository reference stands for: an `https://` or `http://` URL on
/// github.com whose first two non-empty path segments are the owner and the
/// repository (a trailing `.git`, repeated or not, dropped), or else the
/// form `owner/repo` with whitespace around each part ignored.
pub open spec fn repo_reference(value: Seq<char>) -> Result<(Seq<char>, Seq<char>), ReleaseError> {
    if has_prefix(value, "https://"@) || has_prefix(value, "http://"@) {
        match url_parts(value) {
            None => Err(ReleaseError::InvalidRepositoryUrl),
            Some((host, path)) => repo_from_parts(host, path),
        }
    } else {
        let pieces = split_on(value, '/');
        if pieces.len() != 2 || trim(pieces[0]).len() == 0 || trim(pieces[1]).len() == 0 {
            Err(ReleaseError::InvalidRepositoryFormat)
        } else {
            Ok((trim(pieces[0]), trim(pieces[1])))
        }
    }
}

pub(crate) fn nonempty_ranges(s: &[char], ranges: &Vec<(usize, usize)>) -> (r: Vec<(usize, usize)>)
    requires
        ranges_within(s@, ranges@),
    ensures
        ranges_within(s@, r@),
        range_pieces(s@, r@) == nonempty_pieces(range_pieces(s@, ranges@)),
{
    let mut kept: Vec<(usize, usize)> = Vec::new();
    let mut k: usize = 0;
    let ghost all = range_pieces(s@, ranges@);
    proof {
        assert(all.subrange(0, 0) =~= Seq::<Seq<char>>::empty());
        assert(range_pieces(s@, kept@) =~= Seq::<Seq<char>>::empty());
    }
    while k < ranges.len()
        invariant
            ranges_within(s@, ranges@),
            all == range_pieces(s@, ranges@),
            k <= ranges@.len(),
            ranges_within(s@, kept@),
            range_pieces(s@, kept@) == nonempty_pieces(all.subrange(0, k as int)),
        decreases ranges@.len() - k,
    {
        let ghost before = kept@;
        let (a, b) = ranges[k];
        proof {
            assert(all.subrange(0, k + 1).drop_last() =~= all.subrange(0, k as int));
            assert(all.subrange(0, k + 1).last() == all[k as int]);
            assert(all[k as int] == s@.subrange(a as int, b as int));
        }
        if a < b {
            kept.push((a, b));
            proof {
                assert(range_pieces(s@, kept@) =~= range_pieces(s@, before).push(s@.subrange(a as int, b as int)));
            }
        }
        k = k + 1;
    }
    proof {
        assert(all.subrange(0, k as int) =~= all);
    }
    kept
}

/// Resolves the repository named by a parsed URL's host and path (see
/// `repo_from_parts`).
pub fn repo_from_url(host: Option<&str>, path_str: &str) -> (r: Result<ParsedRepo, ReleaseError>)
    ensures
        match r {
            Ok(p) => repo_from_parts(host_view(host), path_str@) == Ok::<(Seq<char>, Seq<char>), ReleaseError>(
                (p.owner@, p.repo@),
            ),
            Err(e) => repo_from_parts(host_view(host), path_str@) == Err::<(Seq<char>, Seq<char>), ReleaseError>(e),
        },
{
    let host_ok = match host {
        Some(h) => {
            let hc = chars_of(h);
            chars_eq_str(hc.as_slice(), "github.com")
        },
        None => false,
    };
    if !host_ok {
        return Err(ReleaseError::NotGitHubUrl);
    }
    let path = chars_of(path_str);
    if path.len() == 0 || path[0] != '/' {
        return Err(ReleaseError::InvalidUrlPath);
    }
    let rest = path_str.substring_char(1, path.len());
    proof {
        assert(rest@ =~= path@.drop_first());
    }
    let rc = chars_of(rest);
    let pieces = split_ranges(rc.as_slice(), '/');
    let kept = nonempty_ranges(rc.as_slice(), &pieces);
    if kept.len() < 2 {
        return Err(ReleaseError::MissingOwnerOrRepository);
    }
    let (a0, b0) = kept[0];
    let (a1, b1) = kept[1];
    proof {
        assert(range_pieces(rc@, kept@)[0] == rc@.subrange(a0 as int, b0 as int));
        assert(range_pieces(rc@, kept@)[1] == rc@.subrange(a1 as int, b1 as int));
    }
    let owner = String::from_str(rest.substring_char(a0, b0));
    let repo_piece = rest.substring_char(a1, b1);
    let repo = String::from_str(trim_end_matches_str(repo_piece, ".git"));
    Ok(ParsedRepo { owner, repo })
}

/// The view of an optional string slice.
pub open spec fn host_view(o: Option<&str>) -> Option<Seq<char>> {
    match o {
        Some(s) => Some(s@),
        None => None,
    }
}

/// Resolves a repository reference, either `owner/repo` or a github.com URL.
pub fn parse_repo_reference(value: &str) -> (r: Result<ParsedRepo, ReleaseError>)
    ensures
        match r {
            Ok(p) => repo_reference(value@) == Ok::<(Seq<char>, Seq<char>), ReleaseError>(
                (p.owner@, p.repo@),
            ),
            Err(e) => repo_reference(value@) == Err::<(Seq<char>, Seq<char>), ReleaseError>(e),
        },
{
    let vc = chars_of(value);
    if starts_with_str(vc.as_slice(), "https://") || starts_with_str(vc.as_slice(), "http://") {
        let parts = match parse_url(value) {
            Ok(p) => p,
            Err(_) => {
                return Err(ReleaseError::InvalidRepositoryUrl);
            },
        };
        let host: Option<&str> = match &parts.host {
            Some(h) => Some(h.as_str()),
            None => None,
        };
        return repo_from_url(host, parts.path.as_str());
    }
    let pieces = split_ranges(vc.as_slice(), '/');
    proof {
        lemma_split_on_len(value@, '/');
        assert(range_pieces(vc@, pieces@).len() == pieces@.len());
    }
    if pieces.len() != 2 {
        return Err(ReleaseError::InvalidRepositoryFormat);
    }
    let (a0, b0) = pieces[0];
    let (a1, b1) = pieces[1];
    proof {
        assert(range_pieces(vc@, pieces@)[0] == vc@.subrange(a0 as int, b0 as int));
        assert(range_pieces(vc@, pieces@)[1] == vc@.subrange(a1 as int, b1 as int));
    }
    let owner = trim_str(value.substring_char(a0, b0));
    let repo = trim_str(value.substring_char(a1, b1));
    if owner.unicode_len() == 0 || repo.unicode_len() == 0 {
        return Err(ReleaseError::InvalidRepositoryFormat);
    }
    Ok(ParsedRepo { owner: String::from_str(owner), repo: String::from_str(repo) })
}


/// `owner/repo` resolves to that owner and repository whenever neither part
/// is empty, contains `/`, or begins or ends with whitespace.
pub proof fn lemma_owner_repo_reference(owner: Seq<char>, repo: Seq<char>)
    requires
        owner.len() > 0,
        repo.len() > 0,
        !owner.contains('/'),
        !repo.contains('/'),
        !is_space(owner[0]),
        !is_space(owner.last()),
        !is_space(repo[0]),
        !is_space(repo.last()),
    ensures
        repo_reference(owner + seq!['/'] + repo) == Ok::<(Seq<char>, Seq<char>), ReleaseError>(
            (owner, repo),
        ),
{
    let x = owner + seq!['/'];
    let v = x + repo;
    lemma_split_on_without_sep(owner, '/');
    assert(x.drop_last() =~= owner);
    assert(split_on(x, '/') == seq![owner].push(Seq::<char>::empty()));
    lemma_split_on_append(x, repo, '/');
    assert(Seq::<char>::empty() + repo =~= repo);
    assert(split_on(v, '/') =~= seq![owner, repo]);
    lemma_trim_unpadded(owner);
    lemma_trim_unpadded(repo);
    reveal_strlit("https://");
    reveal_strlit("http://");
    assert(v[owner.len() as int] == '/');
    assert forall|k: int| 0 <= k < v.len() && k != owner.len() implies v[k] != '/' by {
        if k < owner.len() {
            assert(v[k] == owner[k]);
            assert(owner.contains(owner[k]));
        } else {
            assert(v[k] == repo[k - owner.len() - 1]);
            assert(repo.contains(repo[k - owner.len() - 1]));
        }
    }
    if has_prefix(v, "https://"@) {
        assert(v[6] == "https://"@[6]);
        assert(v[7] == "https://"@[7]);
    }
    if has_prefix(v, "http://"@) {
        assert(v[5] == "http://"@[5]);
        assert(v[6] == "http://"@[6]);
    }
}


/// The path `/owner/repo` of a github.com URL names that owner and
/// repository whenever neither part is empty or contains `/` and the
/// repository does not end in `.git`; so does any `https://` or `http://`
/// reference whose parsed host and path are those.
pub proof fn lemma_github_url_reference(value: Seq<char>, owner: Seq<char>, repo: Seq<char>)
    requires
        owner.len() > 0,
        repo.len() > 0,
        !owner.contains('/'),
        !repo.contains('/'),
        !has_suffix(repo, ".git"@),
    ensures
        repo_from_parts(Some("github.com"@), seq!['/'] + owner + seq!['/'] + repo) == Ok::<
            (Seq<char>, Seq<char>),
            ReleaseError,
        >((owner, repo)),
        (has_prefix(value, "https://"@) || has_prefix(value, "http://"@)) && url_parts(value) == Some(
            (Some("github.com"@), seq!['/'] + owner + seq!['/'] + repo),
        ) ==> repo_reference(value) == Ok::<(Seq<char>, Seq<char>), ReleaseError>((owner, repo)),
{
    let x = owner + seq!['/'];
    let v = x + repo;
    let path = seq!['/'] + owner + seq!['/'] + repo;
    assert(path.drop_first() =~= v);
    assert(path[0] == '/');
    lemma_split_on_without_sep(owner, '/');
    assert(x.drop_last() =~= owner);
    assert(split_on(x, '/') == seq![owner].push(Seq::<char>::empty()));
    lemma_split_on_append(x, repo, '/');
    assert(Seq::<char>::empty() + repo =~= repo);
    assert(split_on(v, '/') =~= seq![owner, repo]);
    let ps = seq![owner, repo];
    assert(ps.drop_last() =~= seq![owner]);
    assert(seq![owner].drop_last() =~= Seq::<Seq<char>>::empty());
    assert(nonempty_pieces(Seq::<Seq<char>>::empty()) == Seq::<Seq<char>>::empty());
    assert(seq![owner].last() == owner);
    assert(nonempty_pieces(seq![owner]) == nonempty_pieces(seq![owner].drop_last()).push(owner));
    assert(Seq::<Seq<char>>::empty().push(owner) =~= seq![owner]);
    assert(nonempty_pieces(seq![owner]) =~= seq![owner]);
    assert(nonempty_pieces(ps) =~= seq![owner, repo]);
    reveal_strlit(".git");
    assert(strip_suffix_all(repo, ".git"@) == repo);
}

} // verus!
