//! Where a download goes, how a downloaded archive is unpacked, and which
//! extracted file is installed as the program.

use vstd::prelude::*;
use crate::asset::archive_name;
use crate::text::{
    chars_eq, contains_str, ends_with_str, has_prefix, has_sub, has_suffix, lower, lower_str,
    starts_with_str,
};

verus! {

/// The directory a download is written to.
#[derive(Debug, Clone, PartialEq, Eq)]
pub enum BaseDir {
    /// The current working directory.
    CurrentDir,
    /// The directory the user named.
    Given(String),
    /// The user's downloads directory (or `Downloads` in the home directory).
    UserDownloads,
}

/// Picks the download directory: `--cwd` wins, then an output path, then the
/// user's downloads directory.
pub fn base_dir_choice(output_path: Option<String>, cwd: bool) -> (r: BaseDir)
    ensures
        cwd ==> r == BaseDir::CurrentDir,
        !cwd && output_path is Some ==> r == BaseDir::Given(output_path->0),
        !cwd && output_path is None ==> r == BaseDir::UserDownloads,
{
    if cwd {
        BaseDir::CurrentDir
    } else {
        match output_path {
            Some(path) => BaseDir::Given(path),
            None => BaseDir::UserDownloads,
        }
    }
}

/// The container format of a release archive.
#[derive(Debug, Clone, Copy, PartialEq, Eq, Structural)]
pub enum ArchiveFormat {
    Zip,
    TarGz,
    TarXz,
}

/// The format a file name announces, compared without ASCII case.
pub open spec fn archive_format_of(name: Seq<char>) -> Option<ArchiveFormat> {
    let l = lower(name);
    if has_suffix(l, ".zip"@) {
        Some(ArchiveFormat::Zip)
    } else if has_suffix(l, ".tar.gz"@) || has_suffix(l, ".tgz"@) {
        Some(ArchiveFormat::TarGz)
    } else if has_suffix(l, ".tar.xz"@) {
        Some(ArchiveFormat::TarXz)
    } else {
        None
    }
}

/// The archive format of a file, from its name; `None` for anything that is
/// not a supported archive.
pub fn archive_format(file_name: &str) -> (r: Option<ArchiveFormat>)
    ensures
        r == archive_format_of(file_name@),
{
    let l = lower_str(file_name);
    let ls = l.as_slice();
    if ends_with_str(ls, ".zip") {
        Some(ArchiveFormat::Zip)
    } else if ends_with_str(ls, ".tar.gz") || ends_with_str(ls, ".tgz") {
        Some(ArchiveFormat::TarGz)
    } else if ends_with_str(ls, ".tar.xz") {
        Some(ArchiveFormat::TarXz)
    } else {
        None
    }
}

/// Every file name that counts as an archive when choosing an asset has a
/// format the extractor handles, and no other name does.
pub proof fn lemma_archive_names_are_extractable(name: Seq<char>)
    ensures
        archive_name(name) <==> archive_format_of(name) is Some,
{
}

/// A file extracted from a release archive, as the installer sees it.
#[derive(Debug, Clone)]
pub struct ExtractedFile {
    /// The last component of the path, when it is valid Unicode.
    pub file_name: Option<String>,
    /// How many components the path has.
    pub components: usize,
}

/// The file name, or the empty string when there is none.
pub open spec fn name_or_empty(f: ExtractedFile) -> Seq<char> {
    match f.file_name {
        Some(n) => n@,
        None => Seq::empty(),
    }
}

/// A file looks like the program: it has a name, is not a readme, licence or
/// changelog, and is an `.exe` on Windows, or not a shared library elsewhere.
pub open spec fn probable_binary(name: Seq<char>, windows: bool) -> bool {
    let l = lower(name);
    if l.len() == 0 {
        false
    } else if has_prefix(l, "readme"@) || has_prefix(l, "license"@) || has_prefix(l, "changelog"@) {
        false
    } else if windows {
        has_suffix(l, ".exe"@)
    } else {
        !has_sub(l, ".so"@) && !has_sub(l, ".dylib"@)
    }
}

/// How well a file fits as the program: 50 when its name starts with the
/// repository name, 20 more for an `.exe` on Windows, less one per path
/// component (shallower files win).
pub open spec fn binary_rank(name: Seq<char>, repo: Seq<char>, components: nat, windows: bool) -> int {
    let l = lower(name);
    (if l == lower(repo) || has_prefix(l, lower(repo)) { 50int } else { 0int }) + (if windows
        && has_suffix(l, ".exe"@) { 20int } else { 0int }) - components
}

/// Whether a file looks like the program (see `probable_binary`).
pub fn is_probable_binary(file_name: &str, windows: bool) -> (r: bool)
    ensures
        r == probable_binary(file_name@, windows),
{
    let l = lower_str(file_name);
    let ls = l.as_slice();
    if ls.len() == 0 {
        return false;
    }
    if starts_with_str(ls, "readme") || starts_with_str(ls, "license") || starts_with_str(ls, "changelog") {
        return false;
    }
    if windows {
        return ends_with_str(ls, ".exe");
    }
    !contains_str(ls, ".so") && !contains_str(ls, ".dylib")
}

/// The fitness of a file as the program (see `binary_rank`).
pub fn binary_score(file_name: &str, repo: &str, components: usize, windows: bool) -> (r: i32)
    requires
        components <= i32::MAX,
    ensures
        r == binary_rank(file_name@, repo@, components as nat, windows),
{
    let l = lower_str(file_name);
    let ls = l.as_slice();
    let lr = lower_str(repo);
    let mut score: i32 = 0;
    if chars_eq(ls, lr.as_slice()) || starts_with_prefix_chars(ls, lr.as_slice()) {
        score = score + 50;
    }
    if windows && ends_with_str(ls, ".exe") {
        score = score + 20;
    }
    score - components as i32
}

fn starts_with_prefix_chars(s: &[char], p: &[char]) -> (r: bool)
    ensures
        r == has_prefix(s@, p@),
{
    if p.len() > s.len() {
        return false;
    }
    let mut k: usize = 0;
    while k < p.len()
        invariant
            p@.len() <= s@.len(),
            k <= p@.len(),
            forall|j: int| 0 <= j < k ==> s@[j] == p@[j],
        decreases p@.len() - k,
    {
        if s[k] != p[k] {
            proof {
                assert(s@.subrange(0, p@.len() as int)[k as int] != p@[k as int]);
            }
            return false;
        }
        k = k + 1;
    }
    proof {
        assert(s@.subrange(0, p@.len() as int) =~= p@);
    }
    true
}

/// The program to install among extracted files: the file with the highest
/// `binary_rank` among those that look like programs, the last one when
/// several tie (as `Iterator::max_by_key` picks); `None` when no file does.
pub fn pick_best_binary(files: &[ExtractedFile], repo: &str, windows: bool) -> (r: Option<usize>)
    requires
        forall|k: int| 0 <= k < files@.len() ==> #[trigger] files@[k].components <= i32::MAX,
    ensures
        r is None ==> forall|k: int| 0 <= k < files@.len() ==> !probable_binary(
            #[trigger] name_or_empty(files@[k]),
            windows,
        ),
        r matches Some(i) ==> {
            &&& i < files@.len()
            &&& probable_binary(name_or_empty(files@[i as int]), windows)
            &&& forall|k: int|
                0 <= k < files@.len() && probable_binary(#[trigger] name_or_empty(files@[k]), windows) ==> {
                    &&& binary_rank(name_or_empty(files@[k]), repo@, files@[k].components as nat, windows)
                        <= binary_rank(
                        name_or_empty(files@[i as int]),
                        repo@,
                        files@[i as int].components as nat,
                        windows,
                    )
                    &&& k > i ==> binary_rank(name_or_empty(files@[k]), repo@, files@[k].components as nat, windows)
                        < binary_rank(
                        name_or_empty(files@[i as int]),
                        repo@,
                        files@[i as int].components as nat,
                        windows,
                    )
                }
        },
{
    let mut best: Option<usize> = None;
    let mut best_score: i32 = 0;
    let mut i: usize = 0;
    while i < files.len()
        invariant
            i <= files@.len(),
            forall|k: int| 0 <= k < files@.len() ==> #[trigger] files@[k].components <= i32::MAX,
            best is None ==> forall|k: int| 0 <= k < i ==> !probable_binary(
                #[trigger] name_or_empty(files@[k]),
                windows,
            ),
            best matches Some(b) ==> {
                &&& b < i
                &&& probable_binary(name_or_empty(files@[b as int]), windows)
                &&& best_score == binary_rank(
                    name_or_empty(files@[b as int]),
                    repo@,
                    files@[b as int].components as nat,
                    windows,
                )
                &&& forall|k: int|
                    0 <= k < i && probable_binary(#[trigger] name_or_empty(files@[k]), windows) ==> {
                        &&& binary_rank(name_or_empty(files@[k]), repo@, files@[k].components as nat, windows)
                            <= best_score
                        &&& k > b ==> binary_rank(
                            name_or_empty(files@[k]),
                            repo@,
                            files@[k].components as nat,
                            windows,
                        ) < best_score
                    }
            },
        decreases files@.len() - i,
    {
        let name: &str = match &files[i].file_name {
            Some(n) => n.as_str(),
            None => "",
        };
        proof {
            reveal_strlit("");
            assert(name@ == name_or_empty(files@[i as int]));
        }
        if is_probable_binary(name, windows) {
            let score = binary_score(name, repo, files[i].components, windows);
            let take = match best {
                None => true,
                Some(_) => score >= best_score,
            };
            if take {
                best = Some(i);
                best_score = score;
            }
        }
        i = i + 1;
    }
    best
}


/// Documentation is never installed as the program: a file whose name
/// starts, in any case, with `readme`, `license` or `changelog` is not a
/// probable binary, and neither is a file without a name. Otherwise, on
/// Windows exactly the `.exe` files are, and elsewhere exactly the files
/// that are not shared libraries (`.so`, `.dylib`).
pub proof fn lemma_probable_binaries(name: Seq<char>, windows: bool)
    ensures
        has_prefix(lower(name), "readme"@) ==> !probable_binary(name, windows),
        has_prefix(lower(name), "license"@) ==> !probable_binary(name, windows),
        has_prefix(lower(name), "changelog"@) ==> !probable_binary(name, windows),
        name.len() == 0 ==> !probable_binary(name, windows),
        name.len() > 0 && !has_prefix(lower(name), "readme"@) && !has_prefix(lower(name), "license"@)
            && !has_prefix(lower(name), "changelog"@) ==> probable_binary(name, windows) == if windows {
            has_suffix(lower(name), ".exe"@)
        } else {
            !has_sub(lower(name), ".so"@) && !has_sub(lower(name), ".dylib"@)
        },
{
}

/// The file picked for installation is never documentation: its name is
/// not empty and does not start with `readme`, `license` or `changelog`.
pub proof fn lemma_picked_file_is_no_document(files: Seq<ExtractedFile>, i: int, windows: bool)
    requires
        0 <= i < files.len(),
        probable_binary(name_or_empty(files[i]), windows),
    ensures
        files[i].file_name is Some,
        !has_prefix(lower(name_or_empty(files[i])), "readme"@),
        !has_prefix(lower(name_or_empty(files[i])), "license"@),
        !has_prefix(lower(name_or_empty(files[i])), "changelog"@),
{
    lemma_probable_binaries(name_or_empty(files[i]), windows);
}

} // verus!
