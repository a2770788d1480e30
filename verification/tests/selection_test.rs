use ghgrab::github::{GitHubRelease, GitHubReleaseAsset};
use ghgrab::release::{
    has_clear_best_match, is_archive, matches_file_type, normalize_arch, score_asset, normalize_os, post_download_steps,
    select_asset, select_asset_name_for_request, select_release, ArchFamily, AssetCandidate,
    AssetSelection, FileTypePreference, InstallStep, OsFamily, ReleaseError,
};

fn asset(name: &str) -> GitHubReleaseAsset {
    GitHubReleaseAsset {
        name: name.to_string(),
        browser_download_url: format!("https://example.com/{}", name),
        content_type: None,
        size: 10,
    }
}

fn release(tag: &str, draft: bool, prerelease: bool) -> GitHubRelease {
    GitHubRelease {
        tag_name: tag.to_string(),
        draft,
        prerelease,
        assets: vec![asset("tool_linux_amd64.tar.gz")],
    }
}

#[test]
fn os_names_are_normalised_without_case() {
    assert_eq!(normalize_os("Windows"), OsFamily::Windows);
    assert_eq!(normalize_os("PC-WINDOWS-MSVC"), OsFamily::Windows);
    assert_eq!(normalize_os("MacOS"), OsFamily::Darwin);
    assert_eq!(normalize_os("apple-darwin"), OsFamily::Darwin);
    assert_eq!(normalize_os("freebsd"), OsFamily::Linux);
    assert_eq!(normalize_os("linux"), OsFamily::Linux);
}

#[test]
fn arch_names_are_normalised_without_case() {
    assert_eq!(normalize_arch("X86_64"), ArchFamily::Amd64);
    assert_eq!(normalize_arch("AArch64"), ArchFamily::Arm64);
    assert_eq!(normalize_arch("i686"), ArchFamily::X86);
    assert_eq!(normalize_arch("armv7l"), ArchFamily::Armv7);
    assert_eq!(normalize_arch("riscv64"), ArchFamily::Amd64);
}

#[test]
fn archive_extensions_ignore_case() {
    assert!(is_archive("tool.ZIP"));
    assert!(is_archive("tool.tar.gz"));
    assert!(is_archive("tool.TGZ"));
    assert!(is_archive("tool.tar.xz"));
    assert!(!is_archive("tool.tar.bz2"));
    assert!(!is_archive("tool.exe"));
}

#[test]
fn equal_scores_are_ambiguous_and_ranked_by_name() {
    let assets = vec![
        asset("tool_linux_x86_64.tar.gz"),
        asset("tool_linux_amd64.tar.gz"),
        asset("tool_darwin_arm64.tar.gz"),
    ];
    let sel = select_asset(
        &assets,
        "tool",
        None,
        Some("linux"),
        Some("amd64"),
        FileTypePreference::Archive,
        "linux",
        "x86_64",
    )
    .unwrap();
    match sel {
        AssetSelection::Ambiguous(order) => {
            assert_eq!(order.len(), 2);
            // 5 (repo) + 40 (os) + 30 (arch) + 25 (type) + 10 (not .exe) + 5 (archive)
            assert_eq!(order[0].index, 1);
            assert_eq!(order[0].score, 115);
            assert_eq!(order[1].index, 0);
            assert_eq!(order[1].score, 115);
        }
        AssetSelection::Chosen(_) => panic!("expected no clear winner"),
    }
    let named = select_asset_name_for_request(
        &assets,
        "tool",
        None,
        Some("linux"),
        Some("amd64"),
        FileTypePreference::Archive,
        "linux",
        "x86_64",
    );
    assert_eq!(
        named,
        Err(ReleaseError::AmbiguousAssets(vec![
            "tool_linux_amd64.tar.gz".to_string(),
            "tool_linux_x86_64.tar.gz".to_string(),
        ]))
    );
}

#[test]
fn pattern_forces_the_best_match_even_when_close() {
    let assets = vec![
        asset("tool_linux_x86_64.tar.gz"),
        asset("tool_linux_amd64.tar.gz"),
    ];
    let sel = select_asset(
        &assets,
        "tool",
        Some("linux"),
        Some("linux"),
        Some("amd64"),
        FileTypePreference::Archive,
        "linux",
        "x86_64",
    )
    .unwrap();
    match sel {
        AssetSelection::Chosen(i) => assert_eq!(i, 1),
        AssetSelection::Ambiguous(_) => panic!("a pattern must force the choice"),
    }
}

#[test]
fn host_platform_is_the_default() {
    let assets = vec![
        asset("tool_linux_amd64.tar.gz"),
        asset("tool_darwin_arm64.tar.gz"),
    ];
    let chosen = select_asset_name_for_request(
        &assets,
        "tool",
        None,
        None,
        None,
        FileTypePreference::Any,
        "macos",
        "aarch64",
    )
    .unwrap();
    assert_eq!(chosen, "tool_darwin_arm64.tar.gz");
}

#[test]
fn asset_errors() {
    let none: Vec<GitHubReleaseAsset> = Vec::new();
    assert_eq!(
        select_asset_name_for_request(&none, "tool", None, None, None, FileTypePreference::Any, "linux", "x86_64"),
        Err(ReleaseError::NoAssets)
    );
    let assets = vec![asset("tool_linux_amd64.tar.gz")];
    assert_eq!(
        select_asset_name_for_request(&assets, "tool", Some("tool("), None, None, FileTypePreference::Any, "linux", "x86_64"),
        Err(ReleaseError::InvalidAssetRegex)
    );
    assert_eq!(
        select_asset_name_for_request(&assets, "tool", Some("^nothing$"), None, None, FileTypePreference::Any, "linux", "x86_64"),
        Err(ReleaseError::NoAssetMatched)
    );
    let only_checksums = vec![asset("tool_linux_amd64.tar.gz.sha256"), asset("SBOM.json")];
    assert_eq!(
        select_asset_name_for_request(&only_checksums, "tool", None, None, None, FileTypePreference::Any, "linux", "x86_64"),
        Err(ReleaseError::NoAssetMatched)
    );
    let wrong_platform = vec![asset("tool_windows_arm64.zip")];
    assert_eq!(
        select_asset_name_for_request(&wrong_platform, "tool", None, Some("linux"), Some("amd64"), FileTypePreference::Binary, "linux", "x86_64"),
        Err(ReleaseError::NoAssetMatched)
    );
}

#[test]
fn single_candidate_is_chosen() {
    let assets = vec![asset("tool_windows_arm64.zip"), asset("other_linux.tar.gz")];
    let chosen = select_asset_name_for_request(
        &assets,
        "tool",
        None,
        Some("linux"),
        Some("amd64"),
        FileTypePreference::Any,
        "linux",
        "x86_64",
    )
    .unwrap();
    assert_eq!(chosen, "other_linux.tar.gz");
}

#[test]
fn clear_best_needs_a_twenty_point_lead() {
    let a = AssetCandidate { index: 0, score: 100 };
    let b = AssetCandidate { index: 1, score: 80 };
    let c = AssetCandidate { index: 2, score: 81 };
    assert!(has_clear_best_match(&[a]));
    assert!(has_clear_best_match(&[]));
    assert!(has_clear_best_match(&[a, b]));
    assert!(!has_clear_best_match(&[a, c]));
}

#[test]
fn release_selection_by_tag() {
    let releases = vec![release("v2", false, false), release("v1", false, false), release("v1", true, false)];
    assert_eq!(select_release(&releases, Some("v1"), false), Ok(1));
    assert_eq!(
        select_release(&releases, Some("v3"), false),
        Err(ReleaseError::TagNotFound("v3".to_string()))
    );
    assert_eq!(
        ReleaseError::TagNotFound("v3".to_string()).message(),
        "Release tag 'v3' was not found"
    );
}

#[test]
fn release_selection_skips_drafts_and_prereleases() {
    let releases = vec![release("v3", true, false), release("v2-rc", false, true), release("v1", false, false)];
    assert_eq!(select_release(&releases, None, false), Ok(2));
    assert_eq!(select_release(&releases, None, true), Ok(1));
    let drafts = vec![release("v3", true, false)];
    assert_eq!(select_release(&drafts, None, true), Err(ReleaseError::NoMatchingRelease));
    let none: Vec<GitHubRelease> = Vec::new();
    assert_eq!(select_release(&none, None, true), Err(ReleaseError::NoReleases));
    assert_eq!(select_release(&none, Some("v1"), true), Err(ReleaseError::NoReleases));
}

#[test]
fn error_messages() {
    assert_eq!(ReleaseError::NoReleases.message(), "No releases found for this repository");
    assert_eq!(ReleaseError::NoMatchingRelease.message(), "No matching release found");
    assert_eq!(ReleaseError::NoAssets.message(), "The selected release has no downloadable assets");
    assert_eq!(ReleaseError::InvalidAssetRegex.message(), "Invalid asset regex");
    assert_eq!(
        ReleaseError::NoAssetMatched.message(),
        "No release asset matched the requested criteria"
    );
    assert_eq!(ReleaseError::SelectionCancelled.message(), "Release selection cancelled");
}

#[test]
fn steps_after_download() {
    let s = post_download_steps(true, "tool.tar.gz", Some("/bin".to_string()));
    assert!(s.extract);
    assert_eq!(s.install, InstallStep::BestExtractedBinary("/bin".to_string()));
    let s = post_download_steps(true, "tool.exe", Some("/bin".to_string()));
    assert!(!s.extract);
    assert_eq!(s.install, InstallStep::DownloadedFile("/bin".to_string()));
    let s = post_download_steps(false, "tool.zip", None);
    assert!(!s.extract);
    assert_eq!(s.install, InstallStep::Nothing);
}

#[test]
fn asset_order_does_not_change_the_choice() {
    let names = [
        "tool_linux_amd64.tar.gz",
        "tool_linux_amd64.zip",
        "tool_darwin_arm64.tar.gz",
        "tool_windows_amd64.zip",
    ];
    let forward: Vec<GitHubReleaseAsset> = names.iter().map(|n| asset(n)).collect();
    let backward: Vec<GitHubReleaseAsset> = names.iter().rev().map(|n| asset(n)).collect();
    let a = select_asset_name_for_request(&forward, "tool", None, None, None, FileTypePreference::Any, "linux", "x86_64");
    let b = select_asset_name_for_request(&backward, "tool", None, None, None, FileTypePreference::Any, "linux", "x86_64");
    assert_eq!(a, b);
    let ambiguous = [asset("app-linux-amd64.tar.gz"), asset("app-linux-amd64.zip")];
    let reversed = [asset("app-linux-amd64.zip"), asset("app-linux-amd64.tar.gz")];
    let a = select_asset_name_for_request(&ambiguous, "app", None, None, None, FileTypePreference::Any, "linux", "x86_64");
    let b = select_asset_name_for_request(&reversed, "app", None, None, None, FileTypePreference::Any, "linux", "x86_64");
    assert_eq!(a, b);
}

#[test]
fn asset_and_repository_case_does_not_change_the_choice() {
    let lower = [asset("tool-linux-amd64.tar.gz"), asset("tool-darwin-arm64.tar.gz")];
    let upper = [asset("TOOL-LINUX-AMD64.TAR.GZ"), asset("TOOL-DARWIN-ARM64.TAR.GZ")];
    let a = select_asset(&lower, "tool", None, None, None, FileTypePreference::Any, "linux", "x86_64");
    let b = select_asset(&upper, "TOOL", None, None, None, FileTypePreference::Any, "linux", "x86_64");
    assert!(matches!(a, Ok(AssetSelection::Chosen(0))));
    assert!(matches!(b, Ok(AssetSelection::Chosen(0))));
}

#[test]
fn scoring_ignores_case_of_name_and_repository() {
    for (name, repo) in [("Tool_Linux_AMD64.tar.gz", "Tool"), ("app-darwin-arm64.zip", "app"), ("x.exe", "X")] {
        for os in [OsFamily::Linux, OsFamily::Darwin, OsFamily::Windows] {
            for ft in [FileTypePreference::Any, FileTypePreference::Archive, FileTypePreference::Binary] {
                assert_eq!(
                    score_asset(&name.to_ascii_uppercase(), &repo.to_ascii_uppercase(), os, ArchFamily::Amd64, ft),
                    score_asset(name, repo, os, ArchFamily::Amd64, ft)
                );
            }
        }
    }
    assert_eq!(score_asset("tool_linux_amd64.tar.gz", "tool", OsFamily::Linux, ArchFamily::Amd64, FileTypePreference::Any), 115);
}

#[test]
fn file_type_preferences_split_names() {
    for name in ["tool.zip", "tool.TAR.GZ", "tool", "tool.exe", "tool.tgz", "tool.tar.xz"] {
        assert!(matches_file_type(name, FileTypePreference::Any));
        assert_eq!(matches_file_type(name, FileTypePreference::Archive), is_archive(name));
        assert_eq!(matches_file_type(name, FileTypePreference::Binary), !is_archive(name));
    }
}

#[test]
fn canonical_os_and_arch_names_normalise_to_themselves() {
    assert_eq!(normalize_os("windows"), OsFamily::Windows);
    assert_eq!(normalize_os("darwin"), OsFamily::Darwin);
    assert_eq!(normalize_os("linux"), OsFamily::Linux);
    assert_eq!(normalize_os("WINDOWS"), OsFamily::Windows);
    assert_eq!(normalize_arch("amd64"), ArchFamily::Amd64);
    assert_eq!(normalize_arch("arm64"), ArchFamily::Arm64);
    assert_eq!(normalize_arch("x86"), ArchFamily::X86);
    assert_eq!(normalize_arch("armv7"), ArchFamily::Armv7);
    assert_eq!(normalize_arch("ARMV7L"), ArchFamily::Armv7);
}
