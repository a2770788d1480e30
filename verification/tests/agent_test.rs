use ghgrab::agent::{
    entry_in_scope, error_code_for_status, normalize_repo_path, parse_agent_target,
    raw_download_url, wanted_entries, AgentErrorCode,
};
use ghgrab::cli::build_download_request;

#[test]
fn error_codes_have_their_envelope_names() {
    assert_eq!(AgentErrorCode::NotFound.as_text(), "not_found");
    assert_eq!(AgentErrorCode::InvalidUrl.as_text(), "invalid_url");
    assert_eq!(AgentErrorCode::InvalidToken.as_text(), "invalid_token");
    assert_eq!(AgentErrorCode::RateLimit.as_text(), "rate_limit");
    assert_eq!(AgentErrorCode::GitHubApiError.as_text(), "github_api_error");
    assert_eq!(AgentErrorCode::InvalidArguments.as_text(), "invalid_arguments");
    assert_eq!(AgentErrorCode::OutputPathError.as_text(), "output_path_error");
    assert_eq!(AgentErrorCode::InternalError.as_text(), "internal_error");
}

#[test]
fn api_statuses_map_to_codes() {
    assert_eq!(error_code_for_status(401, "Bad credentials"), AgentErrorCode::InvalidToken);
    assert_eq!(error_code_for_status(403, "API Rate Limit exceeded"), AgentErrorCode::RateLimit);
    assert_eq!(error_code_for_status(429, ""), AgentErrorCode::RateLimit);
    assert_eq!(error_code_for_status(403, "Forbidden"), AgentErrorCode::GitHubApiError);
    assert_eq!(error_code_for_status(404, "Not Found"), AgentErrorCode::NotFound);
    assert_eq!(error_code_for_status(500, ""), AgentErrorCode::GitHubApiError);
}

#[test]
fn repo_paths_use_forward_slashes_without_outer_slashes() {
    assert_eq!(normalize_repo_path("/src/tools/"), "src/tools");
    assert_eq!(normalize_repo_path("src\\tools\\rustfmt"), "src/tools/rustfmt");
    assert_eq!(normalize_repo_path("\\\\docs\\"), "docs");
    assert_eq!(normalize_repo_path("///"), "");
    assert_eq!(normalize_repo_path("README.md"), "README.md");
}

#[test]
fn entries_within_a_scope() {
    assert!(entry_in_scope("src/lib.rs", ""));
    assert!(entry_in_scope("src", "src"));
    assert!(entry_in_scope("src/lib.rs", "src"));
    assert!(!entry_in_scope("srcx/lib.rs", "src"));
    assert!(!entry_in_scope("sr", "src"));
    let entries: Vec<String> = ["README.md", "src/a.rs", "src/b/c.rs", "docs/x.md", "srcx"]
        .iter()
        .map(|s| s.to_string())
        .collect();
    assert_eq!(wanted_entries(&entries, &[]), vec![0, 1, 2, 3, 4]);
    assert_eq!(
        wanted_entries(&entries, &["src".to_string(), "README.md".to_string()]),
        vec![0, 1, 2]
    );
    assert_eq!(wanted_entries(&entries, &["nothing".to_string()]), Vec::<usize>::new());
}

#[test]
fn raw_urls() {
    assert_eq!(
        raw_download_url("rust-lang", "rust", "master", "README.md"),
        "https://raw.githubusercontent.com/rust-lang/rust/master/README.md"
    );
}

#[test]
fn agent_targets_from_urls() {
    let t = parse_agent_target("https://github.com/rust-lang/rust/tree/master/src/tools").unwrap();
    assert_eq!(t.owner, "rust-lang");
    assert_eq!(t.repo, "rust");
    assert_eq!(t.branch, Some("master".to_string()));
    assert_eq!(t.path, "src/tools");
    let t = parse_agent_target("https://github.com/owner/repo").unwrap();
    assert_eq!(t.branch, None);
    assert_eq!(t.path, "");
    let t = parse_agent_target("https://github.com/owner/repo/blob/main/README.md").unwrap();
    assert_eq!(t.branch, Some("main".to_string()));
    assert_eq!(t.path, "README.md");
    let t = parse_agent_target("owner/repo").unwrap();
    assert_eq!((t.owner.as_str(), t.repo.as_str(), t.branch, t.path.as_str()), ("owner", "repo", None, ""));
    let e = parse_agent_target("not-a-url").err().unwrap();
    assert!(format!("Invalid URL: {}", e.message()).contains("Invalid URL"));
}

#[test]
fn conflicting_download_flags_are_invalid_arguments() {
    let e = build_download_request(vec!["README.md".to_string()], true, None).unwrap_err();
    assert!(e.message().contains("--repo cannot be combined"));
}
