use ghgrab::install::{
    archive_format, base_dir_choice, binary_score, is_probable_binary, pick_best_binary,
    ArchiveFormat, BaseDir, ExtractedFile,
};

fn file(name: &str, components: usize) -> ExtractedFile {
    ExtractedFile { file_name: Some(name.to_string()), components }
}

#[test]
fn archive_formats() {
    assert_eq!(archive_format("a.ZIP"), Some(ArchiveFormat::Zip));
    assert_eq!(archive_format("a.tar.gz"), Some(ArchiveFormat::TarGz));
    assert_eq!(archive_format("a.tgz"), Some(ArchiveFormat::TarGz));
    assert_eq!(archive_format("a.Tar.Xz"), Some(ArchiveFormat::TarXz));
    assert_eq!(archive_format("a.tar"), None);
}

#[test]
fn base_dir_precedence() {
    assert_eq!(base_dir_choice(Some("/out".to_string()), true), BaseDir::CurrentDir);
    assert_eq!(base_dir_choice(Some("/out".to_string()), false), BaseDir::Given("/out".to_string()));
    assert_eq!(base_dir_choice(None, false), BaseDir::UserDownloads);
}

#[test]
fn probable_binaries() {
    assert!(is_probable_binary("tool", false));
    assert!(!is_probable_binary("README.md", false));
    assert!(!is_probable_binary("LICENSE-MIT", false));
    assert!(!is_probable_binary("libtool.so.1", false));
    assert!(!is_probable_binary("libtool.dylib", false));
    assert!(!is_probable_binary("", false));
    assert!(is_probable_binary("tool.exe", true));
    assert!(!is_probable_binary("tool", true));
}

#[test]
fn binary_scores() {
    assert_eq!(binary_score("Tool", "tool", 3, false), 47);
    assert_eq!(binary_score("tool-cli", "Tool", 2, false), 48);
    assert_eq!(binary_score("tool.exe", "tool", 2, true), 68);
    assert_eq!(binary_score("other", "tool", 1, false), -1);
}

#[test]
fn best_binary_prefers_repo_name_then_shallow_then_last() {
    let files = vec![
        file("README.md", 2),
        file("helper", 2),
        file("tool", 4),
        file("tool", 3),
        file("tool2", 3),
    ];
    assert_eq!(pick_best_binary(&files, "tool", false), Some(4));
    let none = vec![file("README", 2), ExtractedFile { file_name: None, components: 1 }];
    assert_eq!(pick_best_binary(&none, "tool", false), None);
}

#[test]
fn archive_assets_are_extractable() {
    for name in ["a.zip", "A.TAR.GZ", "a.tgz", "a.tar.xz", "a.tar", "a.exe", "zip", ".tgz"] {
        assert_eq!(
            ghgrab::release::is_archive(name),
            archive_format(name).is_some(),
            "{}",
            name
        );
    }
}
