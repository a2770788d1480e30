use ghgrab::release::{parse_repo_reference, repo_from_url, ReleaseError};

fn parts(v: &str) -> (String, String) {
    let p = parse_repo_reference(v).unwrap();
    (p.owner, p.repo)
}

#[test]
fn owner_repo_form_is_trimmed() {
    assert_eq!(parts(" owner / repo\t"), ("owner".to_string(), "repo".to_string()));
}

#[test]
fn owner_repo_form_errors() {
    for bad in ["a/b/c", "/repo", "owner/", "owner/  ", "", "  /x"] {
        assert_eq!(
            parse_repo_reference(bad).unwrap_err(),
            ReleaseError::InvalidRepositoryFormat,
            "{}",
            bad
        );
    }
}

#[test]
fn url_form_strips_git_suffixes_and_empty_segments() {
    assert_eq!(
        parts("https://github.com/owner/repo.git.git"),
        ("owner".to_string(), "repo".to_string())
    );
    assert_eq!(
        parts("http://github.com//owner//repo/tree/main"),
        ("owner".to_string(), "repo".to_string())
    );
    assert_eq!(
        parts("https://GitHub.com/Owner/Repo"),
        ("Owner".to_string(), "Repo".to_string())
    );
}

#[test]
fn url_form_errors() {
    assert_eq!(parse_repo_reference("https://gitlab.com/a/b").unwrap_err(), ReleaseError::NotGitHubUrl);
    assert_eq!(
        parse_repo_reference("https://github.com/owner").unwrap_err(),
        ReleaseError::MissingOwnerOrRepository
    );
    assert_eq!(parse_repo_reference("https://").unwrap_err(), ReleaseError::InvalidRepositoryUrl);
    assert_eq!(
        ReleaseError::NotGitHubUrl.message(),
        "Repository URL must point to github.com"
    );
    assert_eq!(ReleaseError::InvalidRepositoryUrl.message(), "Invalid repository URL");
    assert_eq!(
        ReleaseError::MissingOwnerOrRepository.message(),
        "Repository URL must include owner and repository"
    );
}

#[test]
fn repositories_from_url_host_and_path() {
    let p = repo_from_url(Some("github.com"), "/owner/repo.git").unwrap();
    assert_eq!((p.owner.as_str(), p.repo.as_str()), ("owner", "repo"));
    let p = repo_from_url(Some("github.com"), "//owner//repo/tree/main").unwrap();
    assert_eq!((p.owner.as_str(), p.repo.as_str()), ("owner", "repo"));
    assert_eq!(repo_from_url(Some("gitlab.com"), "/owner/repo").unwrap_err(), ReleaseError::NotGitHubUrl);
    assert_eq!(repo_from_url(None, "/owner/repo").unwrap_err(), ReleaseError::NotGitHubUrl);
    assert_eq!(repo_from_url(Some("github.com"), "").unwrap_err(), ReleaseError::InvalidUrlPath);
    assert_eq!(repo_from_url(Some("github.com"), "/owner").unwrap_err(), ReleaseError::MissingOwnerOrRepository);
}

#[test]
fn owner_repo_and_url_forms_agree() {
    for (o, r) in [("owner", "repo"), ("a-b", "c_d"), ("X1", "y2")] {
        let short = parse_repo_reference(&format!("{}/{}", o, r)).unwrap();
        let url = parse_repo_reference(&format!("https://github.com/{}/{}", o, r)).unwrap();
        assert_eq!((short.owner.as_str(), short.repo.as_str()), (o, r));
        assert_eq!((url.owner.as_str(), url.repo.as_str()), (o, r));
    }
}
