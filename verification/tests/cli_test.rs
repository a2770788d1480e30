use ghgrab::cli::{
    build_download_request, mask_token, normalize_token, resolve_github_token, resolve_github_token_from_env,
    DownloadRequestError,
};

fn s(v: &str) -> Option<String> {
    Some(v.to_string())
}

#[test]
fn tokens_are_trimmed_and_blank_ones_dropped() {
    assert_eq!(normalize_token(s("  abc \n")), s("abc"));
    assert_eq!(normalize_token(s(" \t ")), None);
    assert_eq!(normalize_token(None), None);
}

#[test]
fn command_line_beats_environment_beats_config() {
    assert_eq!(resolve_github_token(s("cli"), s("env1"), s("env2"), s("cfg")), s("cli"));
    assert_eq!(resolve_github_token(s("  "), s("env1"), s("env2"), s("cfg")), s("env1"));
    assert_eq!(resolve_github_token(None, None, s("env2"), s("cfg")), s("env2"));
    assert_eq!(resolve_github_token(None, None, None, s(" cfg ")), s("cfg"));
    assert_eq!(resolve_github_token(None, None, None, None), None);
}

#[test]
fn blank_environment_variable_is_passed_over() {
    assert_eq!(resolve_github_token_from_env(s("   "), s("ghp_env")), s("ghp_env"));
    assert_eq!(resolve_github_token_from_env(s(" a "), s("ghp_env")), s("a"));
    assert_eq!(resolve_github_token_from_env(s(" "), s(" ")), None);
    assert_eq!(resolve_github_token(None, s(" "), s("env2"), s("cfg")), s("env2"));
    assert_eq!(resolve_github_token(None, s(" "), s("\t"), s("cfg")), s("cfg"));
}

#[test]
fn download_request_modes() {
    let paths = vec!["README.md".to_string()];
    assert_eq!(
        build_download_request(paths.clone(), true, None),
        Err(DownloadRequestError::RepoWithPaths)
    );
    assert_eq!(
        build_download_request(Vec::new(), true, s("src")),
        Err(DownloadRequestError::RepoWithPaths)
    );
    assert_eq!(build_download_request(Vec::new(), true, None), Ok(Vec::new()));
    assert_eq!(
        build_download_request(paths.clone(), false, s("src")),
        Err(DownloadRequestError::SubtreeWithPaths)
    );
    assert_eq!(build_download_request(Vec::new(), false, s("src")), Ok(vec!["src".to_string()]));
    assert_eq!(build_download_request(paths.clone(), false, None), Ok(paths));
}

#[test]
fn download_request_messages() {
    assert!(DownloadRequestError::RepoWithPaths
        .message()
        .contains("--repo cannot be combined"));
    assert_eq!(
        DownloadRequestError::SubtreeWithPaths.message(),
        "--subtree cannot be combined with positional paths"
    );
}

#[test]
fn normalising_twice_changes_nothing() {
    for t in ["  a b  ", "\u{3000}tok\u{a0}", "x", "   "] {
        let once = normalize_token(s(t));
        assert_eq!(normalize_token(once.clone()), once);
        if let Some(v) = once {
            assert_eq!(v.trim(), v);
            assert!(!v.is_empty());
        }
    }
}

#[test]
fn saved_tokens_are_masked() {
    assert_eq!(mask_token("ghp_1234567890abcd"), "ghp_...abcd");
    assert_eq!(mask_token("123456789"), "1234...6789");
    assert_eq!(mask_token("12345678"), "********");
    assert_eq!(mask_token("short"), "********");
    assert_eq!(mask_token(""), "********");
}
