//! Choosing the release asset that fits the platform, the repository and
//! the preferred file type.

use vstd::prelude::*;
use crate::github::GitHubReleaseAsset;
use crate::pattern::{compile_pattern, pattern_is_match, regex_compiles, regex_is_match};
use crate::release::ReleaseError;
use crate::text::{
    chars_eq, chars_eq_str, chars_less, chars_lt, chars_of, contains_chars, contains_str,
    ends_with_str, has_prefix, has_sub, has_suffix, lemma_chars_lt_irreflexive,
    lemma_chars_lt_total, lemma_chars_lt_transitive, lemma_lower_idempotent, lemma_lower_upper, lower,
    lower_chars, upper,
    lower_str, starts_with_str,
};

verus! {

/// Which kind of release file the user prefers.
#[derive(Debug, Clone, Copy, PartialEq, Eq, Structural)]
pub enum FileTypePreference {
    Any,
    Archive,
    Binary,
}

/// The operating system an asset is chosen for, after normalisation.
#[derive(Debug, Clone, Copy, PartialEq, Eq, Structural)]
pub enum OsFamily {
    Windows,
    Darwin,
    Linux,
}

/// The processor architecture an asset is chosen for, after normalisation.
#[derive(Debug, Clone, Copy, PartialEq, Eq, Structural)]
pub enum ArchFamily {
    Amd64,
    Arm64,
    X86,
    Armv7,
}

/// The operating system named by `value`, compared without ASCII case;
/// anything unrecognised counts as Linux.
pub open spec fn os_family(value: Seq<char>) -> OsFamily {
    let v = lower(value);
    if v == "windows"@ || v == "win32"@ || v == "win64"@ || v == "pc-windows-msvc"@ {
        OsFamily::Windows
    } else if v == "macos"@ || v == "darwin"@ || v == "osx"@ || v == "apple-darwin"@ {
        OsFamily::Darwin
    } else {
        OsFamily::Linux
    }
}

/// The architecture named by `value`, compared without ASCII case;
/// anything unrecognised counts as amd64.
pub open spec fn arch_family(value: Seq<char>) -> ArchFamily {
    let v = lower(value);
    if v == "x86_64"@ || v == "amd64"@ {
        ArchFamily::Amd64
    } else if v == "aarch64"@ || v == "arm64"@ {
        ArchFamily::Arm64
    } else if v == "x86"@ || v == "i386"@ || v == "i686"@ {
        ArchFamily::X86
    } else if has_prefix(v, "armv7"@) {
        ArchFamily::Armv7
    } else {
        ArchFamily::Amd64
    }
}

/// A (lower-case) asset name mentions the operating system.
pub open spec fn mentions_os(name: Seq<char>, os: OsFamily) -> bool {
    match os {
        OsFamily::Windows => has_sub(name, "windows"@) || has_sub(name, "win32"@) || has_sub(
            name,
            "win64"@,
        ) || has_sub(name, "pc-windows"@),
        OsFamily::Darwin => has_sub(name, "darwin"@) || has_sub(name, "macos"@) || has_sub(
            name,
            "apple-darwin"@,
        ) || has_sub(name, "osx"@),
        OsFamily::Linux => has_sub(name, "linux"@) || has_sub(name, "unknown-linux"@) || has_sub(
            name,
            "gnu"@,
        ) || has_sub(name, "musl"@),
    }
}

/// A (lower-case) asset name mentions the architecture.
pub open spec fn mentions_arch(name: Seq<char>, arch: ArchFamily) -> bool {
    match arch {
        ArchFamily::Arm64 => has_sub(name, "arm64"@) || has_sub(name, "aarch64"@),
        ArchFamily::X86 => has_sub(name, "386"@) || has_sub(name, "i386"@) || has_sub(name, "i686"@)
            || has_sub(name, "x86"@),
        ArchFamily::Armv7 => has_sub(name, "armv7"@) || has_sub(name, "armv7l"@),
        ArchFamily::Amd64 => has_sub(name, "amd64"@) || has_sub(name, "x86_64"@) || has_sub(
            name,
            "x64"@,
        ),
    }
}

/// The file name ends, without ASCII case, in one of the archive extensions
/// `.zip`, `.tar.gz`, `.tgz`, `.tar.xz`.
pub open spec fn archive_name(name: Seq<char>) -> bool {
    let l = lower(name);
    has_suffix(l, ".zip"@) || has_suffix(l, ".tar.gz"@) || has_suffix(l, ".tgz"@) || has_suffix(
        l,
        ".tar.xz"@,
    )
}

/// The file name fits the preferred file type.
pub open spec fn fits_file_type(name: Seq<char>, file_type: FileTypePreference) -> bool {
    match file_type {
        FileTypePreference::Any => true,
        FileTypePreference::Archive => archive_name(name),
        FileTypePreference::Binary => !archive_name(name),
    }
}

/// The file name looks like a checksum, signature or SBOM rather than a program.
pub open spec fn auxiliary_name(name: Seq<char>) -> bool {
    let l = lower(name);
    has_sub(l, ".sha256"@) || has_sub(l, ".sha512"@) || has_sub(l, ".sig"@) || has_sub(l, ".asc"@)
        || has_sub(l, "checksums"@) || has_sub(l, "checksum"@) || has_sub(l, "sbom"@)
}

/// How well an asset name fits the repository, platform and file type: the
/// sum of the rule weights below, all tested on the lower-cased name.
pub open spec fn asset_score(
    name: Seq<char>,
    repo: Seq<char>,
    os: OsFamily,
    arch: ArchFamily,
    file_type: FileTypePreference,
) -> int {
    let l = lower(name);
    let exe = has_suffix(l, ".exe"@);
    (if has_sub(l, lower(repo)) { 5int } else { 0int })
    + (if mentions_os(l, os) { 40int } else { -40int })
    + (if mentions_arch(l, arch) { 30int } else { -30int })
    + (if fits_file_type(l, file_type) { 25int } else if file_type != FileTypePreference::Any { -25int } else { 0int })
    + (if os == OsFamily::Windows && exe { 20int } else { 0int })
    + (if os != OsFamily::Windows && !exe { 10int } else { 0int })
    + (if archive_name(l) { 5int } else { 0int })
}

fn eq_any4(v: &[char], a: &str, b: &str, c: &str, d: &str) -> (r: bool)
    ensures
        r == (v@ == a@ || v@ == b@ || v@ == c@ || v@ == d@),
{
    chars_eq_str(v, a) || chars_eq_str(v, b) || chars_eq_str(v, c) || chars_eq_str(v, d)
}

fn has_any4(v: &[char], a: &str, b: &str, c: &str, d: &str) -> (r: bool)
    ensures
        r == (has_sub(v@, a@) || has_sub(v@, b@) || has_sub(v@, c@) || has_sub(v@, d@)),
{
    contains_str(v, a) || contains_str(v, b) || contains_str(v, c) || contains_str(v, d)
}

/// Normalises an operating-system name.
pub fn normalize_os(value: &str) -> (r: OsFamily)
    ensures
        r == os_family(value@),
{
    let v = lower_str(value);
    if eq_any4(v.as_slice(), "windows", "win32", "win64", "pc-windows-msvc") {
        OsFamily::Windows
    } else if eq_any4(v.as_slice(), "macos", "darwin", "osx", "apple-darwin") {
        OsFamily::Darwin
    } else {
        OsFamily::Linux
    }
}

/// Normalises an architecture name.
pub fn normalize_arch(value: &str) -> (r: ArchFamily)
    ensures
        r == arch_family(value@),
{
    let v = lower_str(value);
    let vs = v.as_slice();
    if chars_eq_str(vs, "x86_64") || chars_eq_str(vs, "amd64") {
        ArchFamily::Amd64
    } else if chars_eq_str(vs, "aarch64") || chars_eq_str(vs, "arm64") {
        ArchFamily::Arm64
    } else if chars_eq_str(vs, "x86") || chars_eq_str(vs, "i386") || chars_eq_str(vs, "i686") {
        ArchFamily::X86
    } else if starts_with_str(vs, "armv7") {
        ArchFamily::Armv7
    } else {
        ArchFamily::Amd64
    }
}

fn matches_os(name: &[char], os: OsFamily) -> (r: bool)
    ensures
        r == mentions_os(name@, os),
{
    match os {
        OsFamily::Windows => has_any4(name, "windows", "win32", "win64", "pc-windows"),
        OsFamily::Darwin => has_any4(name, "darwin", "macos", "apple-darwin", "osx"),
        OsFamily::Linux => has_any4(name, "linux", "unknown-linux", "gnu", "musl"),
    }
}

fn matches_arch(name: &[char], arch: ArchFamily) -> (r: bool)
    ensures
        r == mentions_arch(name@, arch),
{
    match arch {
        ArchFamily::Arm64 => contains_str(name, "arm64") || contains_str(name, "aarch64"),
        ArchFamily::X86 => has_any4(name, "386", "i386", "i686", "x86"),
        ArchFamily::Armv7 => contains_str(name, "armv7") || contains_str(name, "armv7l"),
        ArchFamily::Amd64 => contains_str(name, "amd64") || contains_str(name, "x86_64")
            || contains_str(name, "x64"),
    }
}

fn is_archive_chars(name: &[char]) -> (r: bool)
    ensures
        r == archive_name(name@),
{
    let l = lower_chars(name);
    let ls = l.as_slice();
    ends_with_str(ls, ".zip") || ends_with_str(ls, ".tar.gz") || ends_with_str(ls, ".tgz")
        || ends_with_str(ls, ".tar.xz")
}

/// Whether a file name has one of the archive extensions this tool extracts.
pub fn is_archive(name: &str) -> (r: bool)
    ensures
        r == archive_name(name@),
{
    let cs = chars_of(name);
    is_archive_chars(cs.as_slice())
}

fn matches_file_type_chars(name: &[char], file_type: FileTypePreference) -> (r: bool)
    ensures
        r == fits_file_type(name@, file_type),
{
    match file_type {
        FileTypePreference::Any => true,
        FileTypePreference::Archive => is_archive_chars(name),
        FileTypePreference::Binary => !is_archive_chars(name),
    }
}

/// Whether a file name fits the preferred file type (see `fits_file_type`).
pub fn matches_file_type(name: &str, file_type: FileTypePreference) -> (r: bool)
    ensures
        r == fits_file_type(name@, file_type),
{
    let cs = chars_of(name);
    matches_file_type_chars(cs.as_slice(), file_type)
}

fn looks_like_auxiliary(name: &[char]) -> (r: bool)
    ensures
        r == auxiliary_name(name@),
{
    let l = lower_chars(name);
    let ls = l.as_slice();
    has_any4(ls, ".sha256", ".sha512", ".sig", ".asc") || contains_str(ls, "checksums")
        || contains_str(ls, "checksum") || contains_str(ls, "sbom")
}

fn score_asset_chars(
    name: &[char],
    repo: &[char],
    os: OsFamily,
    arch: ArchFamily,
    file_type: FileTypePreference,
) -> (r: i32)
    ensures
        r == asset_score(name@, repo@, os, arch, file_type),
{
    let lower_name = lower_chars(name);
    let l = lower_name.as_slice();
    let lower_repo = lower_chars(repo);
    let mut score: i32 = 0;
    if contains_chars(l, lower_repo.as_slice()) {
        score = score + 5;
    }
    if matches_os(l, os) {
        score = score + 40;
    } else {
        score = score - 40;
    }
    if matches_arch(l, arch) {
        score = score + 30;
    } else {
        score = score - 30;
    }
    if matches_file_type_chars(l, file_type) {
        score = score + 25;
    } else if file_type != FileTypePreference::Any {
        score = score - 25;
    }
    let exe = ends_with_str(l, ".exe");
    if os == OsFamily::Windows && exe {
        score = score + 20;
    }
    if os != OsFamily::Windows && !exe {
        score = score + 10;
    }
    if is_archive_chars(l) {
        score = score + 5;
    }
    score
}

/// Scores an asset name for the platform, the repository name and the
/// preferred file type (see `asset_score`).
pub fn score_asset(
    name: &str,
    repo: &str,
    os: OsFamily,
    arch: ArchFamily,
    file_type: FileTypePreference,
) -> (r: i32)
    ensures
        r == asset_score(name@, repo@, os, arch, file_type),
{
    let n = chars_of(name);
    let rc = chars_of(repo);
    score_asset_chars(n.as_slice(), rc.as_slice(), os, arch, file_type)
}

/// An asset that survived the filters, with its score.
#[derive(Debug, Clone, Copy)]
pub struct AssetCandidate {
    /// Position of the asset in the release's asset list.
    pub index: usize,
    pub score: i32,
}

/// The outcome of asset selection.
#[derive(Debug, Clone)]
pub enum AssetSelection {
    /// The asset at this index is the choice.
    Chosen(usize),
    /// No clear winner: all candidates, best first, for the user to pick from.
    Ambiguous(Vec<AssetCandidate>),
}

/// The names of the assets, in order.
pub open spec fn asset_names(assets: Seq<GitHubReleaseAsset>) -> Seq<Seq<char>> {
    assets.map_values(|a: GitHubReleaseAsset| a.name@)
}

/// An asset name passes the filters: not auxiliary, and matching the pattern
/// when there is one.
pub open spec fn asset_eligible(name: Seq<char>, pattern: Option<Seq<char>>) -> bool {
    !auxiliary_name(name) && match pattern {
        Some(p) => regex_is_match(p, name),
        None => true,
    }
}

/// The assets that pass the filters and score above zero, in list order.
pub open spec fn asset_candidates(
    names: Seq<Seq<char>>,
    repo: Seq<char>,
    pattern: Option<Seq<char>>,
    os: OsFamily,
    arch: ArchFamily,
    file_type: FileTypePreference,
) -> Seq<AssetCandidate>
    decreases names.len(),
{
    if names.len() == 0 {
        Seq::empty()
    } else {
        let k = names.len() - 1;
        let earlier = asset_candidates(names.drop_last(), repo, pattern, os, arch, file_type);
        let score = asset_score(names[k], repo, os, arch, file_type);
        if asset_eligible(names[k], pattern) && score > 0 {
            earlier.push(AssetCandidate { index: k as usize, score: score as i32 })
        } else {
            earlier
        }
    }
}

/// Candidate `a` ranks before `b`: a higher score first; on equal scores the
/// lexicographically smaller name; on equal names the earlier asset.
pub open spec fn ranks_before(a: AssetCandidate, b: AssetCandidate, names: Seq<Seq<char>>) -> bool {
    ||| a.score > b.score
    ||| a.score == b.score && chars_lt(names[a.index as int], names[b.index as int])
    ||| a.score == b.score && names[a.index as int] == names[b.index as int] && a.index < b.index
}

/// `r` holds exactly the candidates of `c`, ordered by rank.
pub open spec fn is_ranking(r: Seq<AssetCandidate>, c: Seq<AssetCandidate>, names: Seq<Seq<char>>) -> bool {
    &&& r.len() == c.len()
    &&& forall|x: AssetCandidate| r.contains(x) <==> c.contains(x)
    &&& forall|i: int, j: int| 0 <= i < j < r.len() ==> ranks_before(r[i], r[j], names)
}

/// The candidate `c[k]` ranks before every other candidate.
pub open spec fn is_top(c: Seq<AssetCandidate>, k: int, names: Seq<Seq<char>>) -> bool {
    0 <= k < c.len() && forall|j: int| 0 <= j < c.len() && j != k ==> ranks_before(c[k], c[j], names)
}

/// The candidate `c[k]` scores at least 20 points above every other one.
pub open spec fn leads_clearly(c: Seq<AssetCandidate>, k: int) -> bool {
    forall|j: int| 0 <= j < c.len() && j != k ==> c[k].score >= c[j].score + 20
}

/// Between candidates for different assets, exactly one ranks first.
pub proof fn lemma_ranks_before_total(a: AssetCandidate, b: AssetCandidate, names: Seq<Seq<char>>)
    ensures
        a.index != b.index ==> ranks_before(a, b, names) || ranks_before(b, a, names),
        !(ranks_before(a, b, names) && ranks_before(b, a, names)),
{
    lemma_chars_lt_total(names[a.index as int], names[b.index as int]);
    lemma_chars_lt_irreflexive(names[a.index as int]);
}

/// Ranking is transitive.
pub proof fn lemma_ranks_before_transitive(
    a: AssetCandidate,
    b: AssetCandidate,
    c: AssetCandidate,
    names: Seq<Seq<char>>,
)
    requires
        ranks_before(a, b, names),
        ranks_before(b, c, names),
    ensures
        ranks_before(a, c, names),
{
    let na = names[a.index as int];
    let nb = names[b.index as int];
    let nc = names[c.index as int];
    if a.score == b.score && b.score == c.score {
        if chars_lt(na, nb) && chars_lt(nb, nc) {
            lemma_chars_lt_transitive(na, nb, nc);
        }
    }
}


/// The views of a list of character vectors.
pub open spec fn char_views(v: Seq<Vec<char>>) -> Seq<Seq<char>> {
    v.map_values(|x: Vec<char>| x@)
}

/// The candidates are in rank order.
pub open spec fn sorted_by_rank(r: Seq<AssetCandidate>, names: Seq<Seq<char>>) -> bool {
    forall|i: int, j: int| 0 <= i < j < r.len() ==> ranks_before(r[i], r[j], names)
}

fn ranks_before_exec(a: AssetCandidate, b: AssetCandidate, names: &Vec<Vec<char>>) -> (r: bool)
    requires
        a.index < names@.len(),
        b.index < names@.len(),
    ensures
        r == ranks_before(a, b, char_views(names@)),
{
    if a.score != b.score {
        return a.score > b.score;
    }
    let na = names[a.index].as_slice();
    let nb = names[b.index].as_slice();
    if chars_less(na, nb) {
        return true;
    }
    chars_eq(na, nb) && a.index < b.index
}

/// Inserts `x` into a rank-ordered list, keeping it rank-ordered.
fn insert_by_rank(ranked: &mut Vec<AssetCandidate>, x: AssetCandidate, names: &Vec<Vec<char>>)
    requires
        sorted_by_rank(old(ranked)@, char_views(names@)),
        x.index < names@.len(),
        forall|k: int| 0 <= k < old(ranked)@.len() ==> old(ranked)@[k].index < names@.len(),
        forall|k: int| 0 <= k < old(ranked)@.len() ==> old(ranked)@[k].index != x.index,
    ensures
        sorted_by_rank(final(ranked)@, char_views(names@)),
        final(ranked)@.len() == old(ranked)@.len() + 1,
        forall|y: AssetCandidate| final(ranked)@.contains(y) <==> (old(ranked)@.contains(y) || y == x),
        forall|k: int| 0 <= k < final(ranked)@.len() ==> final(ranked)@[k].index < names@.len(),
{
    let ghost nv = char_views(names@);
    let ghost s = ranked@;
    let mut p: usize = 0;
    while p < ranked.len() && !ranks_before_exec(x, ranked[p], names)
        invariant
            ranked@ == s,
            nv == char_views(names@),
            x.index < names@.len(),
            forall|k: int| 0 <= k < s.len() ==> s[k].index < names@.len(),
            forall|k: int| 0 <= k < s.len() ==> s[k].index != x.index,
            p <= s.len(),
            forall|k: int| 0 <= k < p ==> ranks_before(s[k], x, nv),
        decreases s.len() - p,
    {
        proof {
            lemma_ranks_before_total(x, s[p as int], nv);
        }
        p = p + 1;
    }
    ranked.insert(p, x);
    proof {
        let r = ranked@;
        assert(r == s.insert(p as int, x));
        assert forall|i: int, j: int| 0 <= i < j < r.len() implies ranks_before(r[i], r[j], nv) by {
            if j < p {
            } else if j == p {
            } else if i < p {
            } else if i == p {
                if j - 1 > p {
                    lemma_ranks_before_transitive(x, s[p as int], s[j - 1], nv);
                }
            } else {
            }
        }
        assert forall|y: AssetCandidate| r.contains(y) <==> (s.contains(y) || y == x) by {
            if r.contains(y) {
                let k = choose|k: int| 0 <= k < r.len() && r[k] == y;
                if k < p {
                    assert(s[k] == y);
                } else if k > p {
                    assert(s[k - 1] == y);
                }
            }
            if s.contains(y) {
                let k = choose|k: int| 0 <= k < s.len() && s[k] == y;
                if k < p {
                    assert(r[k] == y);
                } else {
                    assert(r[k + 1] == y);
                }
            }
            if y == x {
                assert(r[p as int] == y);
            }
        }
    }
}


/// The view of an optional string slice.
pub open spec fn opt_str_view(o: Option<&str>) -> Option<Seq<char>> {
    match o {
        Some(s) => Some(s@),
        None => None,
    }
}

/// The given value, or the fallback when none is given.
pub open spec fn given_or(o: Option<&str>, fallback: &str) -> Seq<char> {
    match o {
        Some(s) => s@,
        None => fallback@,
    }
}

/// Candidates refer to assets of the list, in increasing position.
pub proof fn lemma_candidate_indices(
    names: Seq<Seq<char>>,
    repo: Seq<char>,
    pattern: Option<Seq<char>>,
    os: OsFamily,
    arch: ArchFamily,
    file_type: FileTypePreference,
)
    requires
        names.len() <= usize::MAX,
    ensures
        ({
            let c = asset_candidates(names, repo, pattern, os, arch, file_type);
            &&& forall|k: int| 0 <= k < c.len() ==> c[k].index < names.len()
            &&& forall|i: int, j: int| 0 <= i < j < c.len() ==> c[i].index < c[j].index
        }),
    decreases names.len(),
{
    if names.len() > 0 {
        let prev = names.drop_last();
        lemma_candidate_indices(prev, repo, pattern, os, arch, file_type);
        let e = asset_candidates(prev, repo, pattern, os, arch, file_type);
        let c = asset_candidates(names, repo, pattern, os, arch, file_type);
        assert(forall|k: int| 0 <= k < e.len() ==> e[k].index < prev.len());
        if c.len() > e.len() {
            assert(c =~= e.push(c.last()));
            assert(c.last().index == names.len() - 1);
        } else {
            assert(c == e);
        }
    }
}

/// Whether the best-ranked candidate leads the second by at least 20 points
/// (trivially so when there are fewer than two).
pub fn has_clear_best_match(candidates: &[AssetCandidate]) -> (r: bool)
    requires
        candidates@.len() >= 2 ==> candidates@[1].score + 20 <= i32::MAX,
    ensures
        r == (candidates@.len() < 2 || candidates@[0].score >= candidates@[1].score + 20),
{
    if candidates.len() < 2 {
        return true;
    }
    candidates[0].score >= candidates[1].score + 20
}

fn asset_name_chars(assets: &[GitHubReleaseAsset]) -> (names: Vec<Vec<char>>)
    ensures
        char_views(names@) == asset_names(assets@),
        names@.len() == assets@.len(),
        forall|k: int| 0 <= k < names@.len() ==> names@[k]@ == assets@[k].name@,
{
    let mut names: Vec<Vec<char>> = Vec::new();
    let mut i: usize = 0;
    while i < assets.len()
        invariant
            i <= assets@.len(),
            names@.len() == i,
            char_views(names@) == asset_names(assets@.subrange(0, i as int)),
        decreases assets@.len() - i,
    {
        let ghost before = names@;
        let v = chars_of(assets[i].name.as_str());
        names.push(v);
        proof {
            let sub = assets@.subrange(0, i + 1);
            assert(names@ == before.push(v));
            assert forall|k: int| 0 <= k < i + 1 implies char_views(names@)[k] == asset_names(sub)[k] by {
                assert(asset_names(sub)[k] == sub[k].name@);
                assert(sub[k] == assets@[k]);
                assert(char_views(names@)[k] == names@[k]@);
                if k < i {
                    assert(names@[k] == before[k]);
                    assert(char_views(before)[k] == before[k]@);
                    assert(char_views(before)[k] == asset_names(assets@.subrange(0, i as int))[k]);
                    assert(asset_names(assets@.subrange(0, i as int))[k] == assets@.subrange(0, i as int)[k].name@);
                } else {
                    assert(names@[k] == v);
                }
            }
            assert(char_views(names@) =~= asset_names(sub));
        }
        i = i + 1;
    }
    proof {
        assert(assets@.subrange(0, i as int) =~= assets@);
        assert forall|k: int| 0 <= k < names@.len() implies names@[k]@ == assets@[k].name@ by {
            assert(char_views(names@)[k] == asset_names(assets@)[k]);
        }
    }
    names
}

/// Index `i` is the asset of the top-ranked candidate, and that candidate is
/// alone, forced, or leads every other by at least 20 points.
pub open spec fn chosen_fits(c: Seq<AssetCandidate>, names: Seq<Seq<char>>, forced: bool, i: usize) -> bool {
    exists|k: int| #[trigger] is_top(c, k, names) && c[k].index == i && (c.len() == 1 || forced || leads_clearly(c, k))
}

/// The selection rule applied to the candidates `c` (`forced` when a pattern
/// was given): none is an error; otherwise the top-ranked candidate is chosen
/// when it is alone, forced, or leads every other by at least 20 points, and
/// else all candidates are handed back in rank order.
pub open spec fn selection_follows(
    r: Result<AssetSelection, ReleaseError>,
    c: Seq<AssetCandidate>,
    names: Seq<Seq<char>>,
    forced: bool,
) -> bool {
    if c.len() == 0 {
        r == Err::<AssetSelection, ReleaseError>(ReleaseError::NoAssetMatched)
    } else {
        match r {
            Ok(AssetSelection::Chosen(i)) => chosen_fits(c, names, forced, i),
            Ok(AssetSelection::Ambiguous(v)) => is_ranking(v@, c, names) && c.len() > 1 && !forced
                && forall|k: int| is_top(c, k, names) ==> !leads_clearly(c, k),
            Err(_) => false,
        }
    }
}

/// Chooses the release asset that best fits the platform, the repository name
/// and the preferred file type. `os` and `arch` default to `host_os` and
/// `host_arch`. Checksums, signatures and SBOMs are skipped; with a pattern,
/// only matching assets count, and the best of them is taken without asking.
pub fn select_asset(
    assets: &[GitHubReleaseAsset],
    repo: &str,
    asset_regex: Option<&str>,
    os: Option<&str>,
    arch: Option<&str>,
    file_type: FileTypePreference,
    host_os: &str,
    host_arch: &str,
) -> (r: Result<AssetSelection, ReleaseError>)
    ensures
        assets@.len() == 0 ==> r == Err::<AssetSelection, ReleaseError>(ReleaseError::NoAssets),
        assets@.len() > 0 && (asset_regex matches Some(p) && !regex_compiles(p@)) ==> r == Err::<
            AssetSelection,
            ReleaseError,
        >(ReleaseError::InvalidAssetRegex),
        assets@.len() > 0 && !(asset_regex matches Some(p) && !regex_compiles(p@)) ==> selection_follows(
            r,
            asset_candidates(
                asset_names(assets@),
                repo@,
                opt_str_view(asset_regex),
                os_family(given_or(os, host_os)),
                arch_family(given_or(arch, host_arch)),
                file_type,
            ),
            asset_names(assets@),
            asset_regex is Some,
        ),
{
    if assets.len() == 0 {
        return Err(ReleaseError::NoAssets);
    }
    let pattern = match asset_regex {
        Some(p) => match compile_pattern(p) {
            Ok(c) => Some(c),
            Err(_) => {
                return Err(ReleaseError::InvalidAssetRegex);
            },
        },
        None => None,
    };
    let os_name = match os {
        Some(o) => o,
        None => host_os,
    };
    let arch_name = match arch {
        Some(a) => a,
        None => host_arch,
    };
    let detected_os = normalize_os(os_name);
    let detected_arch = normalize_arch(arch_name);
    let repo_chars = chars_of(repo);
    let names = asset_name_chars(assets);
    let ghost all = asset_names(assets@);
    let ghost pat = opt_str_view(asset_regex);
    let ghost cands = asset_candidates(all, repo@, pat, detected_os, detected_arch, file_type);
    let mut ranked: Vec<AssetCandidate> = Vec::new();
    let mut i: usize = 0;
    proof {
        assert(all.subrange(0, 0) =~= Seq::<Seq<char>>::empty());
    }
    while i < assets.len()
        invariant
            i <= assets@.len(),
            all == asset_names(assets@),
            char_views(names@) == all,
            names@.len() == assets@.len(),
            forall|k: int| 0 <= k < names@.len() ==> names@[k]@ == assets@[k].name@,
            repo_chars@ == repo@,
            pat == opt_str_view(asset_regex),
            match pattern {
                Some(p) => asset_regex matches Some(q) && p.source() == q@,
                None => asset_regex is None,
            },
            is_ranking(
                ranked@,
                asset_candidates(all.subrange(0, i as int), repo@, pat, detected_os, detected_arch, file_type),
                all,
            ),
            forall|k: int| 0 <= k < ranked@.len() ==> ranked@[k].index < i,
            forall|k: int| 0 <= k < ranked@.len() ==> ranked@[k].score <= 200,
        decreases assets@.len() - i,
    {
        let ghost before = ranked@;
        let ghost prefix = all.subrange(0, i as int);
        let ghost next = all.subrange(0, i + 1);
        proof {
            assert(next.drop_last() =~= prefix);
            assert(next[i as int] == all[i as int]);
            assert(names@[i as int]@ == all[i as int]);
            assert(all[i as int] == assets@[i as int].name@);
        }
        let name = names[i].as_slice();
        let eligible = !looks_like_auxiliary(name) && match &pattern {
            Some(p) => pattern_is_match(p, assets[i].name.as_str()),
            None => true,
        };
        if eligible {
            let score = score_asset_chars(name, repo_chars.as_slice(), detected_os, detected_arch, file_type);
            if score > 0 {
                let x = AssetCandidate { index: i, score };
                proof {
                    assert forall|k: int| 0 <= k < ranked@.len() implies ranked@[k].index != x.index by {}
                }
                insert_by_rank(&mut ranked, x, &names);
                proof {
                    assert forall|k: int| 0 <= k < ranked@.len() implies ranked@[k].index < i + 1
                        && ranked@[k].score <= 200 by {
                        assert(ranked@.contains(ranked@[k]));
                        if before.contains(ranked@[k]) {
                            let m = choose|m: int| 0 <= m < before.len() && before[m] == ranked@[k];
                        }
                    }
                }
            }
        }
        proof {
            let c0 = asset_candidates(prefix, repo@, pat, detected_os, detected_arch, file_type);
            let c1 = asset_candidates(next, repo@, pat, detected_os, detected_arch, file_type);
            assert(c1 == if asset_eligible(all[i as int], pat) && asset_score(all[i as int], repo@, detected_os, detected_arch, file_type) > 0 {
                c0.push(AssetCandidate { index: i, score: asset_score(all[i as int], repo@, detected_os, detected_arch, file_type) as i32 })
            } else {
                c0
            });
            assert forall|y: AssetCandidate| ranked@.contains(y) <==> c1.contains(y) by {
                if c1.len() > c0.len() {
                    if c1.contains(y) {
                        let k = choose|k: int| 0 <= k < c1.len() && c1[k] == y;
                        if k < c0.len() {
                            assert(c0[k] == y);
                        }
                    }
                    if c0.contains(y) {
                        let k = choose|k: int| 0 <= k < c0.len() && c0[k] == y;
                        assert(c1[k] == y);
                    }
                    assert(c1[c0.len() as int] == c1.last());
                }
            }
        }
        i = i + 1;
    }
    proof {
        assert(all.subrange(0, i as int) =~= all);
        lemma_candidate_indices(all, repo@, pat, detected_os, detected_arch, file_type);
    }
    if ranked.len() == 0 {
        return Err(ReleaseError::NoAssetMatched);
    }
    let decisive = ranked.len() == 1 || asset_regex.is_some() || has_clear_best_match(ranked.as_slice());
    proof {
        lemma_ranking_top(ranked@, cands, all);
    }
    if decisive {
        Ok(AssetSelection::Chosen(ranked[0].index))
    } else {
        Ok(AssetSelection::Ambiguous(ranked))
    }
}

/// In a ranking of candidates with distinct indices, the first element is the
/// top candidate, and it leads every other by 20 points exactly when it leads
/// the second by 20 points.
pub proof fn lemma_ranking_top(r: Seq<AssetCandidate>, c: Seq<AssetCandidate>, names: Seq<Seq<char>>)
    requires
        is_ranking(r, c, names),
        r.len() > 0,
        forall|i: int, j: int| 0 <= i < j < c.len() ==> c[i].index < c[j].index,
    ensures
        exists|k: int| 0 <= k < c.len() && c[k] == r[0] && is_top(c, k, names) && (leads_clearly(c, k) <==> (
        r.len() < 2 || r[0].score >= r[1].score + 20)),
        forall|k: int| is_top(c, k, names) ==> c[k] == r[0],
{
    assert(r.contains(r[0]));
    let k = choose|k: int| 0 <= k < c.len() && c[k] == r[0];
    assert forall|j: int| 0 <= j < c.len() && j != k implies ranks_before(c[k], c[j], names) by {
        assert(c.contains(c[j]));
        let m = choose|m: int| 0 <= m < r.len() && r[m] == c[j];
        if m == 0 {
            assert(c[j] == c[k]);
        }
    }
    assert(is_top(c, k, names));
    if r.len() >= 2 {
        assert(r.contains(r[1]));
        let k1 = choose|k1: int| 0 <= k1 < c.len() && c[k1] == r[1];
        lemma_ranks_before_total(r[0], r[1], names);
        if r[0].score >= r[1].score + 20 {
            assert forall|j: int| 0 <= j < c.len() && j != k implies c[k].score >= c[j].score + 20 by {
                assert(c.contains(c[j]));
                let m = choose|m: int| 0 <= m < r.len() && r[m] == c[j];
                if m == 0 {
                    assert(c[j] == c[k]);
                } else if m > 1 {
                    assert(ranks_before(r[1], r[m], names));
                }
            }
        } else {
            assert(k1 != k);
        }
    }
    assert forall|k2: int| is_top(c, k2, names) implies c[k2] == r[0] by {
        if k2 != k {
            assert(ranks_before(c[k], c[k2], names));
            lemma_ranks_before_total(c[k], c[k2], names);
        }
    }
}


/// The selection rule of `selection_follows`, reporting the chosen asset by
/// name, and an unclear choice as `AmbiguousAssets` with the names in rank
/// order.
pub open spec fn named_selection_follows(
    r: Result<String, ReleaseError>,
    c: Seq<AssetCandidate>,
    names: Seq<Seq<char>>,
    forced: bool,
) -> bool {
    if c.len() == 0 {
        r == Err::<String, ReleaseError>(ReleaseError::NoAssetMatched)
    } else {
        match r {
            Ok(s) => exists|k: int|
                #[trigger] is_top(c, k, names) && names[c[k].index as int] == s@ && (c.len() == 1 || forced
                    || leads_clearly(c, k)),
            Err(ReleaseError::AmbiguousAssets(v)) => c.len() > 1 && !forced && (forall|k: int|
                is_top(c, k, names) ==> !leads_clearly(c, k)) && exists|order: Seq<AssetCandidate>|
                #[trigger] is_ranking(order, c, names) && v@.len() == order.len() && forall|j: int|
                    0 <= j < v@.len() ==> #[trigger] v@[j]@ == names[order[j].index as int],
            Err(_) => false,
        }
    }
}

/// Chooses a release asset as `select_asset` does and returns its name. When
/// there is no clear winner the candidates' names come back, best first, in
/// `ReleaseError::AmbiguousAssets`, for the caller to ask the user.
pub fn select_asset_name_for_request(
    assets: &[GitHubReleaseAsset],
    repo: &str,
    asset_regex: Option<&str>,
    os: Option<&str>,
    arch: Option<&str>,
    file_type: FileTypePreference,
    host_os: &str,
    host_arch: &str,
) -> (r: Result<String, ReleaseError>)
    ensures
        assets@.len() == 0 ==> r == Err::<String, ReleaseError>(ReleaseError::NoAssets),
        assets@.len() > 0 && (asset_regex matches Some(p) && !regex_compiles(p@)) ==> r == Err::<
            String,
            ReleaseError,
        >(ReleaseError::InvalidAssetRegex),
        assets@.len() > 0 && !(asset_regex matches Some(p) && !regex_compiles(p@))
            ==> named_selection_follows(
            r,
            asset_candidates(
                asset_names(assets@),
                repo@,
                opt_str_view(asset_regex),
                os_family(given_or(os, host_os)),
                arch_family(given_or(arch, host_arch)),
                file_type,
            ),
            asset_names(assets@),
            asset_regex is Some,
        ),
{
    let sel = select_asset(assets, repo, asset_regex, os, arch, file_type, host_os, host_arch);
    let n_assets = assets.len();
    let ghost names = asset_names(assets@);
    assert(names.len() == n_assets);
    match sel {
        Err(e) => {
            proof {
                if assets@.len() > 0 && !(asset_regex matches Some(p) && !regex_compiles(p@)) {
                    let c = asset_candidates(
                        names,
                        repo@,
                        opt_str_view(asset_regex),
                        os_family(given_or(os, host_os)),
                        arch_family(given_or(arch, host_arch)),
                        file_type,
                    );
                    assert(selection_follows(sel, c, names, asset_regex is Some));
                    assert(c.len() == 0);
                }
            }
            Err(e)
        },
        Ok(AssetSelection::Chosen(i)) => {
            let ghost c = asset_candidates(
                names,
                repo@,
                opt_str_view(asset_regex),
                os_family(given_or(os, host_os)),
                arch_family(given_or(arch, host_arch)),
                file_type,
            );
            proof {
                assert(selection_follows(sel, c, names, asset_regex is Some));
                assert(c.len() > 0);
                assert(sel == Ok::<AssetSelection, ReleaseError>(AssetSelection::Chosen(i)));
            }
            let ghost k = choose|k: int|
                #[trigger] is_top(c, k, names) && c[k].index == i && (c.len() == 1 || asset_regex is Some
                    || leads_clearly(c, k));
            proof {
                lemma_candidate_indices(
                    names,
                    repo@,
                    opt_str_view(asset_regex),
                    os_family(given_or(os, host_os)),
                    arch_family(given_or(arch, host_arch)),
                    file_type,
                );
            }
            let name = assets[i].name.clone();
            proof {
                assert(names[i as int] == assets@[i as int].name@);
                assert(is_top(c, k, names));
                assert(c[k].index == i);
                assert(name@ == assets@[i as int].name@);
                assert(names[c[k].index as int] == name@);
            }
            Ok(name)
        },
        Ok(AssetSelection::Ambiguous(order)) => {
            let ghost c = asset_candidates(
                names,
                repo@,
                opt_str_view(asset_regex),
                os_family(given_or(os, host_os)),
                arch_family(given_or(arch, host_arch)),
                file_type,
            );
            proof {
                lemma_candidate_indices(
                    names,
                    repo@,
                    opt_str_view(asset_regex),
                    os_family(given_or(os, host_os)),
                    arch_family(given_or(arch, host_arch)),
                    file_type,
                );
            }
            let mut out: Vec<String> = Vec::new();
            let mut j: usize = 0;
            while j < order.len()
                invariant
                    is_ranking(order@, c, names),
                    names == asset_names(assets@),
                    forall|k: int| 0 <= k < c.len() ==> c[k].index < names.len(),
                    j <= order@.len(),
                    out@.len() == j,
                    forall|q: int| 0 <= q < j ==> #[trigger] out@[q]@ == names[order@[q].index as int],
                decreases order@.len() - j,
            {
                proof {
                    assert(order@.contains(order@[j as int]));
                    let k = choose|k: int| 0 <= k < c.len() && c[k] == order@[j as int];
                }
                let idx = order[j].index;
                out.push(assets[idx].name.clone());
                j = j + 1;
            }
            Err(ReleaseError::AmbiguousAssets(out))
        },
    }
}



/// The candidates are exactly the assets that pass the filters and score
/// above zero, each with its score.
pub proof fn lemma_candidate_members(
    names: Seq<Seq<char>>,
    repo: Seq<char>,
    pattern: Option<Seq<char>>,
    os: OsFamily,
    arch: ArchFamily,
    file_type: FileTypePreference,
)
    requires
        names.len() <= usize::MAX,
    ensures
        ({
            let c = asset_candidates(names, repo, pattern, os, arch, file_type);
            &&& forall|k: int| #![trigger c[k]] 0 <= k < c.len() ==> {
                &&& c[k].index < names.len()
                &&& asset_eligible(names[c[k].index as int], pattern)
                &&& c[k].score == asset_score(names[c[k].index as int], repo, os, arch, file_type)
                &&& c[k].score > 0
            }
            &&& forall|j: int| #![trigger names[j]] 0 <= j < names.len() && asset_eligible(names[j], pattern)
                && asset_score(names[j], repo, os, arch, file_type) > 0 ==> exists|k: int|
                0 <= k < c.len() && #[trigger] c[k].index == j
        }),
    decreases names.len(),
{
    if names.len() > 0 {
        let prev = names.drop_last();
        lemma_candidate_members(prev, repo, pattern, os, arch, file_type);
        let e = asset_candidates(prev, repo, pattern, os, arch, file_type);
        let c = asset_candidates(names, repo, pattern, os, arch, file_type);
        let last = names.len() - 1;
        assert forall|k: int| 0 <= k < e.len() implies names[e[k].index as int] == prev[e[k].index as int] by {}
        assert forall|j: int| #![trigger names[j]]
            0 <= j < names.len() && asset_eligible(names[j], pattern) && asset_score(names[j], repo, os, arch, file_type) > 0
            implies exists|k: int| 0 <= k < c.len() && #[trigger] c[k].index == j by {
            if j < last {
                assert(prev[j] == names[j]);
                let k = choose|k: int| 0 <= k < e.len() && #[trigger] e[k].index == j;
                assert(c[k] == e[k]);
            } else {
                assert(c[e.len() as int].index == j);
            }
        }
        assert forall|k: int| #![trigger c[k]] 0 <= k < c.len() implies {
            &&& c[k].index < names.len()
            &&& asset_eligible(names[c[k].index as int], pattern)
            &&& c[k].score == asset_score(names[c[k].index as int], repo, os, arch, file_type)
            &&& c[k].score > 0
        } by {
            if k < e.len() {
                assert(c[k] == e[k]);
            }
        }
    }
}

/// The asset chosen from a release passes the filters (not a checksum,
/// signature or SBOM; matching the pattern when one is given), scores above
/// zero, and no other asset that passes the filters scores higher.
pub proof fn lemma_chosen_asset_is_best(
    names: Seq<Seq<char>>,
    repo: Seq<char>,
    pattern: Option<Seq<char>>,
    os: OsFamily,
    arch: ArchFamily,
    file_type: FileTypePreference,
    forced: bool,
    i: usize,
)
    requires
        names.len() <= usize::MAX,
        chosen_fits(asset_candidates(names, repo, pattern, os, arch, file_type), names, forced, i),
    ensures
        i < names.len(),
        asset_eligible(names[i as int], pattern),
        asset_score(names[i as int], repo, os, arch, file_type) > 0,
        forall|j: int|
            0 <= j < names.len() && asset_eligible(#[trigger] names[j], pattern) ==> asset_score(
                names[j],
                repo,
                os,
                arch,
                file_type,
            ) <= asset_score(names[i as int], repo, os, arch, file_type),
{
    let c = asset_candidates(names, repo, pattern, os, arch, file_type);
    lemma_candidate_members(names, repo, pattern, os, arch, file_type);
    let k = choose|k: int|
        #[trigger] is_top(c, k, names) && c[k].index == i && (c.len() == 1 || forced || leads_clearly(c, k));
    assert(c[k].index == i);
    assert forall|j: int|
        0 <= j < names.len() && asset_eligible(#[trigger] names[j], pattern) implies asset_score(
            names[j],
            repo,
            os,
            arch,
            file_type,
        ) <= asset_score(names[i as int], repo, os, arch, file_type) by {
        if asset_score(names[j], repo, os, arch, file_type) > 0 {
            let m = choose|m: int| 0 <= m < c.len() && #[trigger] c[m].index == j;
            assert(c[m].index == j);
            if m != k {
                assert(ranks_before(c[k], c[m], names));
            }
        }
    }
}

/// Operating-system and architecture names are read without regard to
/// ASCII case, and so are asset and repository names when scored.
pub proof fn lemma_matching_ignores_case(
    value: Seq<char>,
    name: Seq<char>,
    repo: Seq<char>,
    os: OsFamily,
    arch: ArchFamily,
    file_type: FileTypePreference,
)
    ensures
        os_family(lower(value)) == os_family(value),
        arch_family(lower(value)) == arch_family(value),
        asset_score(lower(name), repo, os, arch, file_type) == asset_score(name, repo, os, arch, file_type),
        asset_score(name, lower(repo), os, arch, file_type) == asset_score(name, repo, os, arch, file_type),
        auxiliary_name(lower(name)) == auxiliary_name(name),
{
    lemma_lower_idempotent(value);
    lemma_lower_idempotent(name);
    lemma_lower_idempotent(repo);
}

/// Upper-casing (ASCII) the names read changes nothing: not the operating
/// system or architecture named, not an asset's score, not whether it
/// looks auxiliary.
pub proof fn lemma_upper_case_changes_nothing(
    value: Seq<char>,
    name: Seq<char>,
    repo: Seq<char>,
    os: OsFamily,
    arch: ArchFamily,
    file_type: FileTypePreference,
)
    ensures
        os_family(upper(value)) == os_family(value),
        arch_family(upper(value)) == arch_family(value),
        asset_score(upper(name), upper(repo), os, arch, file_type) == asset_score(name, repo, os, arch, file_type),
        auxiliary_name(upper(name)) == auxiliary_name(name),
{
    lemma_lower_upper(value);
    lemma_lower_upper(name);
    lemma_lower_upper(repo);
}

/// The canonical name of an operating-system family.
pub open spec fn os_name(os: OsFamily) -> Seq<char> {
    match os {
        OsFamily::Windows => "windows"@,
        OsFamily::Darwin => "darwin"@,
        OsFamily::Linux => "linux"@,
    }
}

/// The canonical name of an architecture family.
pub open spec fn arch_name(arch: ArchFamily) -> Seq<char> {
    match arch {
        ArchFamily::Amd64 => "amd64"@,
        ArchFamily::Arm64 => "arm64"@,
        ArchFamily::X86 => "x86"@,
        ArchFamily::Armv7 => "armv7"@,
    }
}

/// Normalising a family's canonical name gives that family back.
pub proof fn lemma_family_names_round_trip(os: OsFamily, arch: ArchFamily)
    ensures
        os_family(os_name(os)) == os,
        arch_family(arch_name(arch)) == arch,
{
    reveal_strlit("windows");
    reveal_strlit("darwin");
    reveal_strlit("linux");
    reveal_strlit("amd64");
    reveal_strlit("arm64");
    reveal_strlit("x86");
    reveal_strlit("armv7");
    reveal_strlit("x86_64");
    reveal_strlit("aarch64");
    reveal_strlit("i386");
    reveal_strlit("i686");
    reveal_strlit("win32");
    reveal_strlit("win64");
    reveal_strlit("pc-windows-msvc");
    reveal_strlit("macos");
    reveal_strlit("osx");
    reveal_strlit("apple-darwin");
    assert(lower("windows"@) =~= "windows"@);
    assert(lower("darwin"@) =~= "darwin"@);
    assert(lower("linux"@) =~= "linux"@);
    assert(lower("amd64"@) =~= "amd64"@);
    assert(lower("arm64"@) =~= "arm64"@);
    assert(lower("x86"@) =~= "x86"@);
    assert(lower("armv7"@) =~= "armv7"@);
    assert("armv7"@.subrange(0, 5) =~= "armv7"@);
    match os {
        OsFamily::Windows => {},
        OsFamily::Darwin => {
            assert("darwin"@[0] != "windows"@[0]);
            assert("darwin"@[0] != "win32"@[0]);
            assert("darwin"@[0] != "win64"@[0]);
            assert("darwin"@[0] != "pc-windows-msvc"@[0]);
        },
        OsFamily::Linux => {
            assert("linux"@[0] != "windows"@[0]);
            assert("linux"@[0] != "win32"@[0]);
            assert("linux"@[0] != "win64"@[0]);
            assert("linux"@[0] != "pc-windows-msvc"@[0]);
            assert("linux"@[0] != "macos"@[0]);
            assert("linux"@[0] != "darwin"@[0]);
            assert("linux"@[0] != "osx"@[0]);
            assert("linux"@[0] != "apple-darwin"@[0]);
        },
    }
    match arch {
        ArchFamily::Amd64 => {},
        ArchFamily::Arm64 => {
            assert("arm64"@[1] != "x86_64"@[1]);
            assert("arm64"@[1] != "amd64"@[1]);
        },
        ArchFamily::X86 => {
            assert("x86"@.len() != "x86_64"@.len());
            assert("x86"@[0] != "amd64"@[0]);
            assert("x86"@[0] != "aarch64"@[0]);
            assert("x86"@[0] != "arm64"@[0]);
        },
        ArchFamily::Armv7 => {
            assert("armv7"@[0] != "x86_64"@[0]);
            assert("armv7"@[1] != "amd64"@[1]);
            assert("armv7"@[1] != "aarch64"@[1]);
            assert("armv7"@[3] != "arm64"@[3]);
            assert("armv7"@[0] != "x86"@[0]);
            assert("armv7"@[0] != "i386"@[0]);
            assert("armv7"@[0] != "i686"@[0]);
        },
    }
}

/// Asset and repository names that differ only in ASCII case score alike.
pub proof fn lemma_score_ignores_case(
    name: Seq<char>,
    other_name: Seq<char>,
    repo: Seq<char>,
    other_repo: Seq<char>,
    os: OsFamily,
    arch: ArchFamily,
    file_type: FileTypePreference,
)
    requires
        lower(name) == lower(other_name),
        lower(repo) == lower(other_repo),
    ensures
        asset_score(name, repo, os, arch, file_type) == asset_score(other_name, other_repo, os, arch, file_type),
{
}

/// Every name fits "any" file type, and it fits exactly one of "archive"
/// and "binary": archive when it has an archive extension.
pub proof fn lemma_file_types_split(name: Seq<char>)
    ensures
        fits_file_type(name, FileTypePreference::Any),
        fits_file_type(name, FileTypePreference::Archive) == archive_name(name),
        fits_file_type(name, FileTypePreference::Binary) == !archive_name(name),
{
}


/// Checksums, signatures and SBOMs are recognised whatever their case: a
/// name containing `.sha256`, `.sha512`, `.sig`, `.asc`, `checksum` (and so
/// `checksums`) or `sbom` is auxiliary.
pub proof fn lemma_auxiliary_markers(name: Seq<char>)
    ensures
        has_sub(lower(name), ".sha256"@) ==> auxiliary_name(name),
        has_sub(lower(name), ".sha512"@) ==> auxiliary_name(name),
        has_sub(lower(name), ".sig"@) ==> auxiliary_name(name),
        has_sub(lower(name), ".asc"@) ==> auxiliary_name(name),
        has_sub(lower(name), "checksums"@) ==> auxiliary_name(name),
        has_sub(lower(name), "checksum"@) ==> auxiliary_name(name),
        has_sub(lower(name), "sbom"@) ==> auxiliary_name(name),
{
}

/// No candidate, and so no chosen or offered asset, is a checksum,
/// signature or SBOM file.
pub proof fn lemma_auxiliary_never_candidates(
    names: Seq<Seq<char>>,
    repo: Seq<char>,
    pattern: Option<Seq<char>>,
    os: OsFamily,
    arch: ArchFamily,
    file_type: FileTypePreference,
)
    requires
        names.len() <= usize::MAX,
    ensures
        ({
            let c = asset_candidates(names, repo, pattern, os, arch, file_type);
            forall|k: int| #![trigger c[k]] 0 <= k < c.len() ==> {
                let l = lower(names[c[k].index as int]);
                &&& !has_sub(l, ".sha256"@)
                &&& !has_sub(l, ".sha512"@)
                &&& !has_sub(l, ".sig"@)
                &&& !has_sub(l, ".asc"@)
                &&& !has_sub(l, "checksum"@)
                &&& !has_sub(l, "sbom"@)
            }
        }),
{
    lemma_candidate_members(names, repo, pattern, os, arch, file_type);
}

/// The usual names of each platform are recognised in a (lower-case) asset
/// name: `linux`, `musl` and `gnu` for Linux; `windows`, `win64` and `win32`
/// for Windows; `darwin`, `macos`, `osx` for macOS; `x64`, `amd64` and
/// `x86_64` for amd64; `arm64` and `aarch64` for arm64; `armv7` for armv7;
/// `386` (so `i386`), `i686` and `x86` for x86.
pub proof fn lemma_platform_markers(l: Seq<char>)
    ensures
        has_sub(l, "linux"@) || has_sub(l, "musl"@) || has_sub(l, "gnu"@) ==> mentions_os(l, OsFamily::Linux),
        has_sub(l, "windows"@) || has_sub(l, "win64"@) || has_sub(l, "win32"@) ==> mentions_os(l, OsFamily::Windows),
        has_sub(l, "darwin"@) || has_sub(l, "macos"@) || has_sub(l, "osx"@) ==> mentions_os(l, OsFamily::Darwin),
        has_sub(l, "x64"@) || has_sub(l, "amd64"@) || has_sub(l, "x86_64"@) ==> mentions_arch(l, ArchFamily::Amd64),
        has_sub(l, "arm64"@) || has_sub(l, "aarch64"@) ==> mentions_arch(l, ArchFamily::Arm64),
        has_sub(l, "armv7"@) ==> mentions_arch(l, ArchFamily::Armv7),
        has_sub(l, "386"@) || has_sub(l, "i686"@) || has_sub(l, "x86"@) ==> mentions_arch(l, ArchFamily::X86),
{
}

/// Whether the name mentions the target architecture moves the score by 60
/// points: changing only the architecture asked for changes the score by
/// 30 points up or down for each of the two families.
pub proof fn lemma_arch_weight(
    name: Seq<char>,
    repo: Seq<char>,
    os: OsFamily,
    a: ArchFamily,
    b: ArchFamily,
    file_type: FileTypePreference,
)
    ensures
        mentions_arch(lower(name), a) && !mentions_arch(lower(name), b) ==> asset_score(name, repo, os, a, file_type)
            == asset_score(name, repo, os, b, file_type) + 60,
        mentions_arch(lower(name), a) == mentions_arch(lower(name), b) ==> asset_score(name, repo, os, a, file_type)
            == asset_score(name, repo, os, b, file_type),
{
}

} // verus!
