//! Decisions behind the machine-readable `agent` commands: the error codes
//! of their JSON envelope, how repository paths are written, which tree
//! entries a request covers, and the raw download URL of a file.

use vstd::prelude::*;
use crate::reference::{nonempty_pieces, nonempty_ranges, parse_repo_reference, repo_reference};
use crate::release::ReleaseError;
use crate::text::{
    chars_eq_str, chars_of, contains_str, has_prefix, has_sub, lower, lower_str, range_pieces,
    split_on, split_ranges, starts_with_str,
};
use crate::weburl::{opt_string_view, parse_url, url_parts};

verus! {

/// Why an agent command failed, as reported in the envelope's `error.code`.
#[derive(Debug, Clone, Copy, PartialEq, Eq, Structural)]
pub enum AgentErrorCode {
    /// Repository, branch or path does not exist.
    NotFound,
    /// The URL is not a valid GitHub repository URL.
    InvalidUrl,
    /// The token is invalid or expired.
    InvalidToken,
    /// GitHub's rate limit was reached.
    RateLimit,
    /// Another error answer from the GitHub API.
    GitHubApiError,
    /// Conflicting options.
    InvalidArguments,
    /// The output directory could not be resolved or created.
    OutputPathError,
    /// Anything else.
    InternalError,
}

/// The code's text in the envelope.
pub open spec fn code_text(code: AgentErrorCode) -> Seq<char> {
    match code {
        AgentErrorCode::NotFound => "not_found"@,
        AgentErrorCode::InvalidUrl => "invalid_url"@,
        AgentErrorCode::InvalidToken => "invalid_token"@,
        AgentErrorCode::RateLimit => "rate_limit"@,
        AgentErrorCode::GitHubApiError => "github_api_error"@,
        AgentErrorCode::InvalidArguments => "invalid_arguments"@,
        AgentErrorCode::OutputPathError => "output_path_error"@,
        AgentErrorCode::InternalError => "internal_error"@,
    }
}

impl AgentErrorCode {
    /// The code's text in the envelope (see `code_text`).
    pub fn as_text(&self) -> (s: String)
        ensures
            s@ == code_text(*self),
    {
        match self {
            AgentErrorCode::NotFound => String::from_str("not_found"),
            AgentErrorCode::InvalidUrl => String::from_str("invalid_url"),
            AgentErrorCode::InvalidToken => String::from_str("invalid_token"),
            AgentErrorCode::RateLimit => String::from_str("rate_limit"),
            AgentErrorCode::GitHubApiError => String::from_str("github_api_error"),
            AgentErrorCode::InvalidArguments => String::from_str("invalid_arguments"),
            AgentErrorCode::OutputPathError => String::from_str("output_path_error"),
            AgentErrorCode::InternalError => String::from_str("internal_error"),
        }
    }
}

/// The error code for a failed GitHub API answer: 401 is a bad token; 429,
/// or 403 whose body speaks of a rate limit (in any case), is the rate
/// limit; 404 is not found; anything else is an API error.
pub open spec fn status_code_for(status: u16, body: Seq<char>) -> AgentErrorCode {
    if status == 401 {
        AgentErrorCode::InvalidToken
    } else if status == 429 || (status == 403 && has_sub(lower(body), "rate limit"@)) {
        AgentErrorCode::RateLimit
    } else if status == 404 {
        AgentErrorCode::NotFound
    } else {
        AgentErrorCode::GitHubApiError
    }
}

/// Classifies a failed GitHub API answer (see `status_code_for`).
pub fn error_code_for_status(status: u16, body: &str) -> (c: AgentErrorCode)
    ensures
        c == status_code_for(status, body@),
{
    if status == 401 {
        return AgentErrorCode::InvalidToken;
    }
    if status == 429 {
        return AgentErrorCode::RateLimit;
    }
    if status == 403 {
        let l = lower_str(body);
        if contains_str(l.as_slice(), "rate limit") {
            return AgentErrorCode::RateLimit;
        }
    }
    if status == 404 {
        AgentErrorCode::NotFound
    } else {
        AgentErrorCode::GitHubApiError
    }
}

/// A repository path with backslashes read as `/`.
pub open spec fn forward_slashes(path: Seq<char>) -> Seq<char> {
    path.map_values(|c: char| if c == '\\' { '/' } else { c })
}

/// The path without `/` at its start.
pub open spec fn strip_leading_slashes(p: Seq<char>) -> Seq<char>
    decreases p.len(),
{
    if p.len() > 0 && p[0] == '/' {
        strip_leading_slashes(p.drop_first())
    } else {
        p
    }
}

/// The path without `/` at its end.
pub open spec fn strip_trailing_slashes(p: Seq<char>) -> Seq<char>
    decreases p.len(),
{
    if p.len() > 0 && p.last() == '/' {
        strip_trailing_slashes(p.drop_last())
    } else {
        p
    }
}

/// A repository path as the agent uses it: backslashes read as `/`, and
/// leading and trailing slashes dropped.
pub open spec fn clean_repo_path(path: Seq<char>) -> Seq<char> {
    strip_trailing_slashes(strip_leading_slashes(forward_slashes(path)))
}


proof fn lemma_strip_leading(p: Seq<char>, i: int)
    requires
        0 <= i <= p.len(),
        forall|k: int| 0 <= k < i ==> p[k] == '/',
        i == p.len() || p[i] != '/',
    ensures
        strip_leading_slashes(p) == p.subrange(i, p.len() as int),
    decreases i,
{
    if i == 0 {
        assert(p.subrange(0, p.len() as int) =~= p);
    } else {
        let q = p.drop_first();
        assert forall|k: int| 0 <= k < i - 1 implies q[k] == '/' by {
            assert(q[k] == p[k + 1]);
        }
        if i < p.len() {
            assert(q[i - 1] == p[i]);
        }
        lemma_strip_leading(q, i - 1);
        assert(q.subrange(i - 1, q.len() as int) =~= p.subrange(i, p.len() as int));
    }
}

proof fn lemma_strip_trailing(p: Seq<char>, j: int)
    requires
        0 <= j <= p.len(),
        forall|k: int| j <= k < p.len() ==> p[k] == '/',
        j == 0 || p[j - 1] != '/',
    ensures
        strip_trailing_slashes(p) == p.subrange(0, j),
    decreases p.len() - j,
{
    if j == p.len() {
        assert(p.subrange(0, j) =~= p);
    } else {
        let q = p.drop_last();
        assert forall|k: int| j <= k < q.len() implies q[k] == '/' by {
            assert(q[k] == p[k]);
        }
        if j > 0 {
            assert(q[j - 1] == p[j - 1]);
        }
        lemma_strip_trailing(q, j);
        assert(q.subrange(0, j) =~= p.subrange(0, j));
    }
}

/// Writes a repository path as the agent uses it (see `clean_repo_path`).
pub fn normalize_repo_path(path: &str) -> (r: String)
    ensures
        r@ == clean_repo_path(path@),
{
    let cs = chars_of(path);
    let n = cs.len();
    let ghost f = forward_slashes(path@);
    let mut start: usize = 0;
    while start < n && (cs[start] == '/' || cs[start] == '\\')
        invariant
            n == path@.len(),
            cs@ == path@,
            f == forward_slashes(path@),
            start <= n,
            forall|k: int| 0 <= k < start ==> f[k] == '/',
        decreases n - start,
    {
        start = start + 1;
    }
    let mut end: usize = n;
    while end > start && (cs[end - 1] == '/' || cs[end - 1] == '\\')
        invariant
            n == path@.len(),
            cs@ == path@,
            f == forward_slashes(path@),
            start <= end <= n,
            forall|k: int| end <= k < n ==> f[k] == '/',
        decreases end,
    {
        end = end - 1;
    }
    let mut out = String::new();
    let mut i: usize = start;
    proof {
        reveal_strlit("/");
        assert(out@ =~= f.subrange(start as int, start as int));
    }
    while i < end
        invariant
            n == path@.len(),
            cs@ == path@,
            f == forward_slashes(path@),
            start <= i <= end <= n,
            out@ == f.subrange(start as int, i as int),
        decreases end - i,
    {
        let ghost before = out@;
        if cs[i] == '\\' {
            out.append("/");
            proof {
                reveal_strlit("/");
                assert(out@ =~= before.push('/'));
            }
        } else {
            let piece = path.substring_char(i, i + 1);
            out.append(piece);
            proof {
                assert(piece@ =~= seq![path@[i as int]]);
                assert(out@ =~= before.push(path@[i as int]));
            }
        }
        proof {
            assert(f[i as int] == (if path@[i as int] == '\\' { '/' } else { path@[i as int] }));
            assert(f.subrange(start as int, i + 1) =~= f.subrange(start as int, i as int).push(f[i as int]));
        }
        i = i + 1;
    }
    proof {
        lemma_strip_leading(f, start as int);
        let g = f.subrange(start as int, n as int);
        assert forall|k: int| end - start <= k < g.len() implies g[k] == '/' by {
            assert(g[k] == f[k + start]);
        }
        if end > start {
            assert(g[end - start - 1] == f[end - 1]);
        }
        lemma_strip_trailing(g, end - start);
        assert(g.subrange(0, end - start) =~= f.subrange(start as int, end as int));
    }
    out
}


/// A tree entry lies within a requested path: the path is empty (the whole
/// repository), or the entry is that path or lies below it.
pub open spec fn within_scope(entry: Seq<char>, scope: Seq<char>) -> bool {
    scope.len() == 0 || entry == scope || has_prefix(entry, scope.push('/'))
}

/// Whether a tree entry lies within a requested path (see `within_scope`).
pub fn entry_in_scope(entry: &str, scope: &str) -> (r: bool)
    ensures
        r == within_scope(entry@, scope@),
{
    let e = chars_of(entry);
    let sc = chars_of(scope);
    if sc.len() == 0 {
        return true;
    }
    if !starts_with_str(e.as_slice(), scope) {
        proof {
            let n = scope@.len() as int;
            if has_prefix(entry@, scope@.push('/')) {
                assert(entry@.subrange(0, n + 1) == scope@.push('/'));
                assert forall|k: int| 0 <= k < n implies entry@.subrange(0, n)[k] == scope@[k] by {
                    assert(entry@.subrange(0, n)[k] == entry@.subrange(0, n + 1)[k]);
                }
                assert(entry@.subrange(0, n) =~= scope@);
            }
            if entry@ == scope@ {
                assert(entry@.subrange(0, n) =~= scope@);
            }
        }
        return false;
    }
    if e.len() == sc.len() {
        proof {
            assert(entry@ =~= entry@.subrange(0, scope@.len() as int));
        }
        return true;
    }
    let r = e[sc.len()] == '/';
    proof {
        if r {
            assert(entry@.subrange(0, scope@.len() as int + 1) =~= scope@.push('/'));
        } else {
            assert(entry@ != scope@);
            if has_prefix(entry@, scope@.push('/')) {
                assert(entry@.subrange(0, scope@.len() as int + 1)[scope@.len() as int] == entry@[scope@.len() as int]);
            }
        }
    }
    r
}

/// An entry is wanted by a download request: every entry when no path was
/// requested, else those within one of the requested paths.
pub open spec fn wanted_by(entry: Seq<char>, scopes: Seq<Seq<char>>) -> bool {
    scopes.len() == 0 || exists|i: int| 0 <= i < scopes.len() && within_scope(entry, #[trigger] scopes[i])
}

/// The positions, in order, of the tree entries a download request wants
/// (see `wanted_by`); `scopes` are the requested paths.
pub fn wanted_entries(entries: &[String], scopes: &[String]) -> (r: Vec<usize>)
    ensures
        forall|k: int| 0 <= k < r@.len() ==> r@[k] < entries@.len() && wanted_by(
            entries@[r@[k] as int]@,
            scopes@.map_values(|s: String| s@),
        ),
        forall|j: int|
            0 <= j < entries@.len() && wanted_by(entries@[j]@, scopes@.map_values(|s: String| s@)) ==> r@.contains(
                j as usize,
            ),
        forall|a: int, b: int| 0 <= a < b < r@.len() ==> r@[a] < r@[b],
{
    let ghost sv = scopes@.map_values(|s: String| s@);
    let mut r: Vec<usize> = Vec::new();
    let mut j: usize = 0;
    while j < entries.len()
        invariant
            j <= entries@.len(),
            sv == scopes@.map_values(|s: String| s@),
            forall|k: int| 0 <= k < r@.len() ==> r@[k] < j && wanted_by(entries@[r@[k] as int]@, sv),
            forall|q: int| 0 <= q < j && wanted_by(entries@[q]@, sv) ==> r@.contains(q as usize),
            forall|a: int, b: int| 0 <= a < b < r@.len() ==> r@[a] < r@[b],
        decreases entries@.len() - j,
    {
        let mut wanted = scopes.len() == 0;
        let mut i: usize = 0;
        while i < scopes.len() && !wanted
            invariant
                i <= scopes@.len(),
                sv == scopes@.map_values(|s: String| s@),
                j < entries@.len(),
                wanted ==> wanted_by(entries@[j as int]@, sv),
                !wanted ==> scopes@.len() > 0 && forall|m: int| 0 <= m < i ==> !within_scope(entries@[j as int]@, #[trigger] sv[m]),
            decreases scopes@.len() - i,
        {
            if entry_in_scope(entries[j].as_str(), scopes[i].as_str()) {
                proof {
                    assert(sv[i as int] == scopes@[i as int]@);
                }
                wanted = true;
            }
            i = i + 1;
        }
        let ghost before = r@;
        if wanted {
            r.push(j);
            proof {
                assert forall|q: int| 0 <= q < j + 1 && wanted_by(entries@[q]@, sv) implies r@.contains(q as usize) by {
                    if q < j {
                        let t = choose|t: int| 0 <= t < before.len() && before[t] == q as usize;
                        assert(r@[t] == q as usize);
                    } else {
                        assert(r@[before.len() as int] == j);
                    }
                }
            }
        } else {
            proof {
                assert(!wanted_by(entries@[j as int]@, sv));
            }
        }
        j = j + 1;
    }
    r
}

/// The address a file of the repository is downloaded from.
pub open spec fn raw_url(owner: Seq<char>, repo: Seq<char>, branch: Seq<char>, path: Seq<char>) -> Seq<char> {
    "https://raw.githubusercontent.com/"@ + owner + "/"@ + repo + "/"@ + branch + "/"@ + path
}

/// The address a file of the repository is downloaded from (see `raw_url`).
pub fn raw_download_url(owner: &str, repo: &str, branch: &str, path: &str) -> (u: String)
    ensures
        u@ == raw_url(owner@, repo@, branch@, path@),
{
    let mut u = String::from_str("https://raw.githubusercontent.com/");
    u.append(owner);
    u.append("/");
    u.append(repo);
    u.append("/");
    u.append(branch);
    u.append("/");
    u.append(path);
    u
}


/// Path segments joined by `/`.
pub open spec fn join_segments(segs: Seq<Seq<char>>) -> Seq<char>
    decreases segs.len(),
{
    if segs.len() == 0 {
        Seq::empty()
    } else if segs.len() == 1 {
        segs[0]
    } else {
        join_segments(segs.drop_last()) + "/"@ + segs.last()
    }
}

/// The branch and the repository path a github.com URL points at: after
/// owner and repository, a `tree` or `blob` segment is followed by the
/// branch and then the path; without them, no branch and the root.
pub open spec fn tree_location(value: Seq<char>) -> (Option<Seq<char>>, Seq<char>) {
    if has_prefix(value, "https://"@) || has_prefix(value, "http://"@) {
        match url_parts(value) {
            Some((_, path)) => if path.len() > 0 {
                let segs = nonempty_pieces(split_on(path.drop_first(), '/'));
                if segs.len() >= 4 && (segs[2] == "tree"@ || segs[2] == "blob"@) {
                    (Some(segs[3]), join_segments(segs.subrange(4, segs.len() as int)))
                } else {
                    (None, Seq::empty())
                }
            } else {
                (None, Seq::empty())
            },
            None => (None, Seq::empty()),
        }
    } else {
        (None, Seq::empty())
    }
}

/// What an agent command works on: a repository, the branch named in the
/// URL if any, and a path inside the repository (empty for its root).
#[derive(Debug, Clone)]
pub struct AgentTarget {
    pub owner: String,
    pub repo: String,
    pub branch: Option<String>,
    pub path: String,
}

fn url_tree_location(value: &str) -> (r: (Option<String>, String))
    requires
        has_prefix(value@, "https://"@) || has_prefix(value@, "http://"@),
    ensures
        (opt_string_view(r.0), r.1@) == tree_location(value@),
{
    let parts = match parse_url(value) {
        Ok(p) => p,
        Err(_) => {
            return (None, String::new());
        },
    };
    let path_str = parts.path.as_str();
    let path = chars_of(path_str);
    if path.len() == 0 {
        return (None, String::new());
    }
    let rest = path_str.substring_char(1, path.len());
    proof {
        assert(rest@ =~= path@.drop_first());
    }
    let rc = chars_of(rest);
    let pieces = split_ranges(rc.as_slice(), '/');
    let kept = nonempty_ranges(rc.as_slice(), &pieces);
    let ghost segs = range_pieces(rc@, kept@);
    if kept.len() < 4 {
        return (None, String::new());
    }
    let (a2, b2) = kept[2];
    proof {
        assert(segs[2] == rc@.subrange(a2 as int, b2 as int));
    }
    let seg2 = rest.substring_char(a2, b2);
    let s2 = chars_of(seg2);
    if !(chars_eq_str(s2.as_slice(), "tree") || chars_eq_str(s2.as_slice(), "blob")) {
        return (None, String::new());
    }
    let (a3, b3) = kept[3];
    proof {
        assert(segs[3] == rc@.subrange(a3 as int, b3 as int));
    }
    let branch = String::from_str(rest.substring_char(a3, b3));
    let mut out = String::new();
    let mut k: usize = 4;
    proof {
        assert(segs.subrange(4, 4) =~= Seq::<Seq<char>>::empty());
    }
    while k < kept.len()
        invariant
            4 <= k <= kept@.len(),
            segs == range_pieces(rc@, kept@),
            rc@ == rest@,
            crate::text::ranges_within(rc@, kept@),
            out@ == join_segments(segs.subrange(4, k as int)),
        decreases kept@.len() - k,
    {
        let (a, b) = kept[k];
        proof {
            assert(segs[k as int] == rc@.subrange(a as int, b as int));
            assert(segs.subrange(4, k + 1).drop_last() =~= segs.subrange(4, k as int));
            assert(segs.subrange(4, k + 1).last() == segs[k as int]);
            reveal_strlit("/");
        }
        if k > 4 {
            out.append("/");
        }
        out.append(rest.substring_char(a, b));
        proof {
            if k == 4 {
                assert(out@ =~= segs.subrange(4, k + 1)[0]);
            }
        }
        k = k + 1;
    }
    (Some(branch), out)
}

/// Resolves what an agent command works on: the repository as
/// `parse_repo_reference` resolves it, and the branch and path that a
/// github.com URL names (see `tree_location`).
pub fn parse_agent_target(value: &str) -> (r: Result<AgentTarget, ReleaseError>)
    ensures
        match r {
            Ok(t) => repo_reference(value@) == Ok::<(Seq<char>, Seq<char>), ReleaseError>((t.owner@, t.repo@))
                && (opt_string_view(t.branch), t.path@) == tree_location(value@),
            Err(e) => repo_reference(value@) == Err::<(Seq<char>, Seq<char>), ReleaseError>(e),
        },
{
    let parsed = match parse_repo_reference(value) {
        Ok(p) => p,
        Err(e) => {
            return Err(e);
        },
    };
    let vc = chars_of(value);
    let (branch, path) = if starts_with_str(vc.as_slice(), "https://") || starts_with_str(vc.as_slice(), "http://") {
        url_tree_location(value)
    } else {
        (None, String::new())
    };
    Ok(AgentTarget { owner: parsed.owner, repo: parsed.repo, branch, path })
}


proof fn lemma_split_joined(segs: Seq<Seq<char>>)
    requires
        segs.len() >= 1,
        forall|i: int| 0 <= i < segs.len() ==> !(#[trigger] segs[i]).contains('/'),
    ensures
        split_on(join_segments(segs), '/') == segs,
    decreases segs.len(),
{
    if segs.len() == 1 {
        crate::text::lemma_split_on_without_sep(segs[0], '/');
        assert(seq![segs[0]] =~= segs);
    } else {
        let dl = segs.drop_last();
        assert forall|i: int| 0 <= i < dl.len() implies !(#[trigger] dl[i]).contains('/') by {
            assert(dl[i] == segs[i]);
        }
        lemma_split_joined(dl);
        reveal_strlit("/");
        let j = join_segments(dl);
        let x = j + "/"@;
        assert(x.drop_last() =~= j);
        assert(x.last() == '/');
        assert(split_on(x, '/') == split_on(j, '/').push(Seq::<char>::empty()));
        assert(!segs[segs.len() - 1].contains('/'));
        crate::text::lemma_split_on_append(x, segs.last(), '/');
        assert(Seq::<char>::empty() + segs.last() =~= segs.last());
        assert(split_on(x, '/').update(split_on(x, '/').len() - 1, split_on(x, '/').last() + segs.last()) =~= segs);
    }
}

proof fn lemma_nonempty_pieces_keep(ps: Seq<Seq<char>>)
    requires
        forall|i: int| 0 <= i < ps.len() ==> (#[trigger] ps[i]).len() > 0,
    ensures
        nonempty_pieces(ps) == ps,
    decreases ps.len(),
{
    if ps.len() > 0 {
        let dl = ps.drop_last();
        assert forall|i: int| 0 <= i < dl.len() implies (#[trigger] dl[i]).len() > 0 by {
            assert(dl[i] == ps[i]);
        }
        lemma_nonempty_pieces_keep(dl);
        assert(ps.last().len() > 0) by {
            assert(ps[ps.len() - 1] == ps.last());
        }
        assert(dl.push(ps.last()) =~= ps);
    }
}

/// A github.com-style URL whose path is `/owner/repo/tree/<branch>` or
/// `/owner/repo/blob/<branch>`, followed by zero or more further segments,
/// points at that branch and at those segments joined by `/` (the root of
/// the repository when there are none). `segs` are the path's segments,
/// none empty or holding `/`.
pub proof fn lemma_tree_url_location(value: Seq<char>, host: Option<Seq<char>>, segs: Seq<Seq<char>>)
    requires
        has_prefix(value, "https://"@) || has_prefix(value, "http://"@),
        segs.len() >= 4,
        forall|i: int| 0 <= i < segs.len() ==> (#[trigger] segs[i]).len() > 0 && !segs[i].contains('/'),
        segs[2] == "tree"@ || segs[2] == "blob"@,
        url_parts(value) == Some((host, seq!['/'] + join_segments(segs))),
    ensures
        tree_location(value) == (Some(segs[3]), join_segments(segs.subrange(4, segs.len() as int))),
        segs.len() == 4 ==> tree_location(value) == (Some(segs[3]), Seq::<char>::empty()),
        segs.len() == 5 ==> tree_location(value) == (Some(segs[3]), segs[4]),
{
    let path = seq!['/'] + join_segments(segs);
    assert(path.drop_first() =~= join_segments(segs));
    lemma_split_joined(segs);
    lemma_nonempty_pieces_keep(segs);
    assert(segs.subrange(4, 4) =~= Seq::<Seq<char>>::empty());
    if segs.len() == 5 {
        assert(segs.subrange(4, 5) =~= seq![segs[4]]);
    }
}

/// Without a `tree` or `blob` segment after owner and repository, a URL
/// names no branch and the root of the repository.
pub proof fn lemma_plain_url_location(value: Seq<char>, host: Option<Seq<char>>, segs: Seq<Seq<char>>)
    requires
        segs.len() >= 1,
        forall|i: int| 0 <= i < segs.len() ==> (#[trigger] segs[i]).len() > 0 && !segs[i].contains('/'),
        segs.len() < 4 || (segs[2] != "tree"@ && segs[2] != "blob"@),
        url_parts(value) == Some((host, seq!['/'] + join_segments(segs))),
    ensures
        tree_location(value) == (None::<Seq<char>>, Seq::<char>::empty()),
{
    let path = seq!['/'] + join_segments(segs);
    assert(path.drop_first() =~= join_segments(segs));
    lemma_split_joined(segs);
    lemma_nonempty_pieces_keep(segs);
}

} // verus!
