//! Release data as the GitHub releases API describes it.

use vstd::prelude::*;

verus! {

/// One downloadable file attached to a release.
#[derive(Debug, Clone)]
pub struct GitHubReleaseAsset {
    pub name: String,
    pub browser_download_url: String,
    pub content_type: Option<String>,
    pub size: u64,
}

/// A published release of a repository, with its assets.
#[derive(Debug, Clone)]
pub struct GitHubRelease {
    pub tag_name: String,
    pub draft: bool,
    pub prerelease: bool,
    pub assets: Vec<GitHubReleaseAsset>,
}

} // verus!
