use remind_me_to::errors::CheckError;
use remind_me_to::ops::github::{
    add_tag_page, after_retry, ancestor_from_compare, base_url_of, bearer, branch_found,
    compare_path, issue_status_from, latest_found, pull_path, pr_status_from, retry_wait,
    status_error, tags_path,
};
use remind_me_to::ops::nixpkgs::{package_versions, search_url, SearchPackage};
use remind_me_to::ops::types::{AncestorStatus, IssueState, PrState, Release, Tag};

#[test]
fn github_paths() {
    assert_eq!(pull_path("tokio-rs", "tokio", 5432), "/repos/tokio-rs/tokio/pulls/5432");
    assert_eq!(tags_path("a", "b", 2), "/repos/a/b/tags?per_page=100&page=2");
    assert_eq!(compare_path("a", "b", "abc", "v1"), "/repos/a/b/compare/abc...v1");
    assert_eq!(bearer("tok"), "Bearer tok");
    assert_eq!(base_url_of("http://localhost:8080//"), "http://localhost:8080");
}

#[test]
fn http_status_errors() {
    match status_error("github", true, 429, "/x", None) {
        CheckError::RateLimited { forge, reset_at } => {
            assert_eq!(forge, "github");
            assert_eq!(reset_at, "unknown");
        }
        _ => panic!("expected RateLimited"),
    }
    assert!(matches!(
        status_error("github", true, 403, "/x", None),
        CheckError::AuthRequired { .. }
    ));
    match status_error("nixhub", false, 403, "/x", None) {
        CheckError::ApiError {
            operation,
            message,
            status,
            retryable,
        } => {
            assert_eq!(operation, "/x");
            assert_eq!(message, "HTTP 403");
            assert_eq!(status, Some(403));
            assert!(!retryable);
        }
        _ => panic!("expected ApiError"),
    }
    match status_error("github", true, 502, "/y", None) {
        CheckError::ApiError { retryable, .. } => assert!(retryable),
        _ => panic!("expected ApiError"),
    }
}

#[test]
fn retry_after_rate_limit() {
    assert_eq!(retry_wait("12"), Some(12));
    assert_eq!(retry_wait("3600"), Some(30));
    assert_eq!(retry_wait("unknown"), None);
    let second: Result<u8, CheckError> = Err(CheckError::Network {
        message: "x".into(),
    });
    match after_retry("github", "unknown", second) {
        Err(CheckError::RateLimited { forge, .. }) => assert_eq!(forge, "github"),
        _ => panic!("expected RateLimited"),
    }
    assert_eq!(after_retry::<u8>("github", "unknown", Ok(3)).ok(), Some(3));
}

#[test]
fn answers_become_statuses() {
    let pr = pr_status_from(1, "open", None, None, None);
    assert_eq!(pr.state, PrState::Open);
    assert!(!pr.merged);
    let pr = pr_status_from(1, "closed", Some(true), Some("t".into()), Some("s".into()));
    assert_eq!(pr.state, PrState::Closed);
    assert!(pr.merged);
    assert_eq!(issue_status_from(2, "closed").state, IssueState::Closed);
    assert_eq!(issue_status_from(2, "open").state, IssueState::Open);
    assert_eq!(ancestor_from_compare("ahead"), AncestorStatus::Ancestor);
    assert_eq!(ancestor_from_compare("identical"), AncestorStatus::Ancestor);
    assert_eq!(ancestor_from_compare("diverged"), AncestorStatus::NotAncestor);
}

fn not_found() -> CheckError {
    CheckError::ApiError {
        operation: "/b".into(),
        message: "HTTP 404".into(),
        status: Some(404),
        retryable: false,
    }
}

#[test]
fn not_found_means_absent() {
    assert_eq!(branch_found(Ok(())).ok(), Some(true));
    assert_eq!(branch_found(Err(not_found())).ok(), Some(false));
    assert!(branch_found(Err(CheckError::Network { message: "x".into() })).is_err());
    assert!(latest_found(Err(not_found())).unwrap().is_none());
    let rel = Release {
        tag_name: "v1".into(),
        target_commitish: "main".into(),
    };
    assert_eq!(latest_found(Ok(rel)).unwrap().unwrap().tag_name, "v1");
}

#[test]
fn tag_pages() {
    let mut all: Vec<Tag> = Vec::new();
    let full: Vec<Tag> = (0..100)
        .map(|i| Tag {
            name: format!("v{i}"),
            commit_sha: "x".into(),
        })
        .collect();
    assert!(add_tag_page(&mut all, full));
    assert!(!add_tag_page(
        &mut all,
        vec![Tag {
            name: "last".into(),
            commit_sha: "y".into()
        }]
    ));
    assert!(!add_tag_page(&mut all, vec![]));
    assert_eq!(all.len(), 101);
    assert_eq!(all[100].name, "last");
}

#[test]
fn nixhub_search() {
    assert_eq!(
        search_url("https://search.devbox.sh", "redis"),
        "https://search.devbox.sh/v1/search?q=redis"
    );
    let packages = vec![
        SearchPackage {
            name: "redis-full".into(),
            versions: vec![Some("1.0".into())],
        },
        SearchPackage {
            name: "redis".into(),
            versions: vec![Some("7.2.4".into()), None, Some("7.0.12".into())],
        },
        SearchPackage {
            name: "redis".into(),
            versions: vec![Some("0.1".into())],
        },
    ];
    assert_eq!(package_versions(&packages, "redis"), vec!["7.2.4", "7.0.12"]);
    assert!(package_versions(&packages, "valkey").is_empty());
}

#[test]
fn rate_limit_keeps_retry_after() {
    match status_error("github", true, 429, "/x", Some("7")) {
        CheckError::RateLimited { reset_at, .. } => {
            assert_eq!(reset_at, "7");
            assert_eq!(retry_wait(&reset_at), Some(7));
        }
        _ => panic!("expected RateLimited"),
    }
}

#[test]
fn unauthenticated_budget_is_half_the_hourly_limit() {
    assert!(!remind_me_to::ops::github::budget_spent(false, 29));
    assert!(remind_me_to::ops::github::budget_spent(false, 30));
    assert!(!remind_me_to::ops::github::budget_spent(true, 5000));
}
