//! Choosing a release for a download request, and the steps around the
//! download.

use vstd::prelude::*;
pub use crate::asset::{
    normalize_arch, normalize_os, select_asset, select_asset_name_for_request, has_clear_best_match,
    is_archive, matches_file_type, score_asset, ArchFamily, AssetCandidate, AssetSelection, FileTypePreference, OsFamily,
};
pub use crate::reference::{parse_repo_reference, repo_from_url, ParsedRepo};
use crate::github::GitHubRelease;
use crate::asset::archive_name;
use crate::text::{chars_eq, chars_of};

verus! {

/// Why a release or asset could not be chosen.
#[derive(Debug, Clone, PartialEq, Eq)]
pub enum ReleaseError {
    /// The repository reference looked like a URL but did not parse as one.
    InvalidRepositoryUrl,
    /// The repository URL does not point to github.com.
    NotGitHubUrl,
    /// The repository URL has no hierarchical path.
    InvalidUrlPath,
    /// The repository URL path lacks an owner or a repository name.
    MissingOwnerOrRepository,
    /// The repository reference is neither `owner/repo` nor a URL.
    InvalidRepositoryFormat,
    /// The repository has no releases at all.
    NoReleases,
    /// No release carries the requested tag.
    TagNotFound(String),
    /// No release is published (non-draft) and, unless allowed, stable.
    NoMatchingRelease,
    /// The chosen release has no assets.
    NoAssets,
    /// The asset pattern is not a valid regular expression.
    InvalidAssetRegex,
    /// No asset passed the filters with a positive score.
    NoAssetMatched,
    /// Several assets matched with no clear winner; their names, best first,
    /// for the caller to choose from.
    AmbiguousAssets(Vec<String>),
    /// The user cancelled the interactive choice.
    SelectionCancelled,
}

/// A release is one that may be picked when no tag is requested.
pub open spec fn release_eligible(r: GitHubRelease, include_prerelease: bool) -> bool {
    !r.draft && (include_prerelease || !r.prerelease)
}

/// `releases[i]` is the first release tagged `tag`.
pub open spec fn first_tagged(releases: Seq<GitHubRelease>, tag: Seq<char>, i: int) -> bool {
    0 <= i < releases.len() && releases[i].tag_name@ == tag && forall|j: int|
        0 <= j < i ==> releases[j].tag_name@ != tag
}

/// No release is tagged `tag`.
pub open spec fn no_tagged(releases: Seq<GitHubRelease>, tag: Seq<char>) -> bool {
    forall|j: int| 0 <= j < releases.len() ==> releases[j].tag_name@ != tag
}

/// `releases[i]` is the first eligible release.
pub open spec fn first_eligible(releases: Seq<GitHubRelease>, include_prerelease: bool, i: int) -> bool {
    0 <= i < releases.len() && release_eligible(releases[i], include_prerelease) && forall|j: int|
        0 <= j < i ==> !release_eligible(releases[j], include_prerelease)
}

/// No release is eligible.
pub open spec fn no_eligible(releases: Seq<GitHubRelease>, include_prerelease: bool) -> bool {
    forall|j: int| 0 <= j < releases.len() ==> !release_eligible(releases[j], include_prerelease)
}

/// Picks a release: the first one with the requested tag, or else the first
/// published release (stable only, unless prereleases are allowed).
/// Returns its index in `releases`.
pub fn select_release(releases: &[GitHubRelease], tag: Option<&str>, include_prerelease: bool) -> (r:
    Result<usize, ReleaseError>)
    ensures
        releases@.len() == 0 ==> r == Err::<usize, ReleaseError>(ReleaseError::NoReleases),
        releases@.len() > 0 && tag is Some ==> match r {
            Ok(i) => first_tagged(releases@, tag->0@, i as int),
            Err(e) => (e matches ReleaseError::TagNotFound(m) && m@ == tag->0@) && no_tagged(
                releases@,
                tag->0@,
            ),
        },
        releases@.len() > 0 && tag is None ==> match r {
            Ok(i) => first_eligible(releases@, include_prerelease, i as int),
            Err(e) => e == ReleaseError::NoMatchingRelease && no_eligible(releases@, include_prerelease),
        },
{
    if releases.len() == 0 {
        return Err(ReleaseError::NoReleases);
    }
    match tag {
        Some(t) => {
            let tc = chars_of(t);
            let mut i: usize = 0;
            while i < releases.len()
                invariant
                    i <= releases@.len(),
                    tag == Some(t),
                    releases@.len() > 0,
                    tc@ == t@,
                    forall|j: int| 0 <= j < i ==> releases@[j].tag_name@ != t@,
                decreases releases@.len() - i,
            {
                let name = chars_of(releases[i].tag_name.as_str());
                if chars_eq(name.as_slice(), tc.as_slice()) {
                    return Ok(i);
                }
                i = i + 1;
            }
            Err(ReleaseError::TagNotFound(String::from_str(t)))
        },
        None => {
            let mut i: usize = 0;
            while i < releases.len()
                invariant
                    i <= releases@.len(),
                    tag is None,
                    releases@.len() > 0,
                    forall|j: int| 0 <= j < i ==> !release_eligible(releases@[j], include_prerelease),
                decreases releases@.len() - i,
            {
                if !releases[i].draft && (include_prerelease || !releases[i].prerelease) {
                    return Ok(i);
                }
                i = i + 1;
            }
            Err(ReleaseError::NoMatchingRelease)
        },
    }
}

/// The human-readable text of an error.
pub open spec fn error_message(e: ReleaseError) -> Seq<char> {
    match e {
        ReleaseError::InvalidRepositoryUrl => "Invalid repository URL"@,
        ReleaseError::NotGitHubUrl => "Repository URL must point to github.com"@,
        ReleaseError::InvalidUrlPath => "Invalid repository URL path"@,
        ReleaseError::MissingOwnerOrRepository => "Repository URL must include owner and repository"@,
        ReleaseError::InvalidRepositoryFormat => "Repository must be in the form owner/repo or a GitHub URL"@,
        ReleaseError::NoReleases => "No releases found for this repository"@,
        ReleaseError::TagNotFound(t) => "Release tag '"@ + t@ + "' was not found"@,
        ReleaseError::NoMatchingRelease => "No matching release found"@,
        ReleaseError::NoAssets => "The selected release has no downloadable assets"@,
        ReleaseError::InvalidAssetRegex => "Invalid asset regex"@,
        ReleaseError::NoAssetMatched => "No release asset matched the requested criteria"@,
        ReleaseError::AmbiguousAssets(_) => "Multiple release assets matched"@,
        ReleaseError::SelectionCancelled => "Release selection cancelled"@,
    }
}

impl ReleaseError {
    /// The human-readable text of this error.
    pub fn message(&self) -> (m: String)
        ensures
            m@ == error_message(*self),
    {
        match self {
            ReleaseError::InvalidRepositoryUrl => String::from_str("Invalid repository URL"),
            ReleaseError::NotGitHubUrl => String::from_str("Repository URL must point to github.com"),
            ReleaseError::InvalidUrlPath => String::from_str("Invalid repository URL path"),
            ReleaseError::MissingOwnerOrRepository => String::from_str(
                "Repository URL must include owner and repository",
            ),
            ReleaseError::InvalidRepositoryFormat => String::from_str(
                "Repository must be in the form owner/repo or a GitHub URL",
            ),
            ReleaseError::NoReleases => String::from_str("No releases found for this repository"),
            ReleaseError::TagNotFound(t) => {
                let mut m = String::from_str("Release tag '");
                m.append(t.as_str());
                m.append("' was not found");
                m
            },
            ReleaseError::NoMatchingRelease => String::from_str("No matching release found"),
            ReleaseError::NoAssets => String::from_str("The selected release has no downloadable assets"),
            ReleaseError::InvalidAssetRegex => String::from_str("Invalid asset regex"),
            ReleaseError::NoAssetMatched => String::from_str(
                "No release asset matched the requested criteria",
            ),
            ReleaseError::AmbiguousAssets(_) => String::from_str("Multiple release assets matched"),
            ReleaseError::SelectionCancelled => String::from_str("Release selection cancelled"),
        }
    }
}


/// What a release download is asked to do.
#[derive(Debug, Clone)]
pub struct ReleaseRequest {
    /// `owner/repo` or a github.com URL.
    pub repo: String,
    pub tag: Option<String>,
    pub include_prerelease: bool,
    pub asset_regex: Option<String>,
    pub os: Option<String>,
    pub arch: Option<String>,
    pub file_type: FileTypePreference,
    /// Unpack the asset when it is an archive.
    pub extract: bool,
    pub output_path: Option<String>,
    /// Write into the current directory.
    pub cwd: bool,
    /// Directory to install the program into.
    pub bin_path: Option<String>,
    pub token: Option<String>,
}

/// What a release download did.
#[derive(Debug, Clone)]
pub struct ReleaseDownloadResult {
    pub owner: String,
    pub repo: String,
    pub tag: String,
    pub asset_name: String,
    pub download_path: String,
    pub installed_binary: Option<String>,
    pub extracted: bool,
}

/// The user cancelled the choice among several matching assets.
#[derive(Debug, Clone, Copy)]
pub struct ReleaseSelectionCancelled;

/// What is installed after the asset has been downloaded.
#[derive(Debug, Clone, PartialEq, Eq)]
pub enum InstallStep {
    /// Nothing.
    Nothing,
    /// The best program among the extracted files, into this directory.
    BestExtractedBinary(String),
    /// The downloaded file itself, into this directory.
    DownloadedFile(String),
}

/// The steps after downloading: whether to extract, and what to install.
#[derive(Debug, Clone, PartialEq, Eq)]
pub struct PostDownload {
    pub extract: bool,
    pub install: InstallStep,
}

/// Decides the steps after the download of `asset_name`: extract when asked
/// and the asset is an archive; with a `bin_path`, install the best program
/// from the extracted files, or the downloaded file itself when nothing was
/// extracted.
pub fn post_download_steps(extract: bool, asset_name: &str, bin_path: Option<String>) -> (r: PostDownload)
    ensures
        r.extract == (extract && archive_name(asset_name@)),
        bin_path is None ==> r.install == InstallStep::Nothing,
        bin_path matches Some(d) ==> r.install == if r.extract {
            InstallStep::BestExtractedBinary(d)
        } else {
            InstallStep::DownloadedFile(d)
        },
{
    let extracted = extract && is_archive(asset_name);
    let install = match bin_path {
        None => InstallStep::Nothing,
        Some(dir) => if extracted {
            InstallStep::BestExtractedBinary(dir)
        } else {
            InstallStep::DownloadedFile(dir)
        },
    };
    PostDownload { extract: extracted, install }
}


/// Allowing prereleases only widens the choice: drafts are never chosen,
/// every published release is eligible when prereleases are allowed, and a
/// published stable release is eligible either way.
pub proof fn lemma_prerelease_flag_only_widens(r: GitHubRelease, include_prerelease: bool)
    ensures
        r.draft ==> !release_eligible(r, include_prerelease),
        !r.draft ==> release_eligible(r, true),
        !r.draft && !r.prerelease ==> release_eligible(r, include_prerelease),
        r.prerelease ==> !release_eligible(r, false),
        release_eligible(r, false) ==> release_eligible(r, include_prerelease),
{
}

/// Without a tag, the release chosen is the first published one when
/// prereleases are allowed, and the first published stable one otherwise;
/// none is chosen only when there is no such release.
pub proof fn lemma_untagged_choice(releases: Seq<GitHubRelease>, include_prerelease: bool, i: int)
    ensures
        first_eligible(releases, include_prerelease, i) ==> {
            &&& 0 <= i < releases.len()
            &&& !releases[i].draft
            &&& !include_prerelease ==> !releases[i].prerelease
            &&& forall|j: int|
                0 <= j < i ==> releases[j].draft || (!include_prerelease && releases[j].prerelease)
        },
        no_eligible(releases, include_prerelease) ==> forall|j: int|
            0 <= j < releases.len() ==> releases[j].draft || (!include_prerelease && releases[j].prerelease),
{
}

} // verus!
