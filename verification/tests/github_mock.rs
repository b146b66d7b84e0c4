use remind_me_to::ops::github::mock::MockForgeClient;
use remind_me_to::ops::types::{ForgeClient, IssueState, IssueStatus, PrState, PrStatus, Tag};

#[test]
fn mock_pr_status_merged() {
    let mut mock = MockForgeClient::new();
    mock.pr_responses.insert(
        ("tokio-rs".into(), "tokio".into(), 5432),
        Ok(PrStatus {
            number: 5432,
            state: PrState::Closed,
            merged: true,
            merged_at: Some("2025-01-15T00:00:00Z".into()),
            merge_commit_sha: Some("abc123".into()),
        }),
    );

    let result = mock.get_pr_status("tokio-rs", "tokio", 5432).unwrap();
    assert!(result.merged);
    assert_eq!(result.state, PrState::Closed);
    assert_eq!(mock.call_count("get_pr_status"), 1);
}

#[test]
fn mock_pr_not_found() {
    let mock = MockForgeClient::new();
    let result = mock.get_pr_status("foo", "bar", 999);
    assert!(result.is_err());
}

#[test]
fn mock_tags() {
    let mut mock = MockForgeClient::new();
    mock.tag_responses.insert(
        ("owner".into(), "repo".into()),
        Ok(vec![
            Tag {
                name: "v1.0.0".into(),
                commit_sha: "aaa".into(),
            },
            Tag {
                name: "v2.0.0".into(),
                commit_sha: "bbb".into(),
            },
        ]),
    );

    let tags = mock.get_tags("owner", "repo").unwrap();
    assert_eq!(tags.len(), 2);
}

#[test]
fn mock_issue_closed() {
    let mut mock = MockForgeClient::new();
    mock.issue_responses.insert(
        ("owner".into(), "repo".into(), 42),
        Ok(IssueStatus {
            number: 42,
            state: IssueState::Closed,
        }),
    );

    let result = mock.get_issue_status("owner", "repo", 42).unwrap();
    assert_eq!(result.state, IssueState::Closed);
}

#[test]
fn mock_branch_exists() {
    let mut mock = MockForgeClient::new();
    mock.branch_responses
        .insert(("owner".into(), "repo".into(), "main".into()), Ok(true));

    assert!(mock.branch_exists("owner", "repo", "main").unwrap());
    assert!(!mock.branch_exists("owner", "repo", "deleted-branch").unwrap());
}

#[test]
fn github_mock_call_counting() {
    let mock = MockForgeClient::new();
    let _ = mock.get_tags("a", "b");
    let _ = mock.get_tags("a", "b");
    let _ = mock.get_tags("c", "d");
    assert_eq!(mock.call_count("get_tags"), 3);
}

#[test]
fn unknown_method_counts_zero() {
    let mock = MockForgeClient::new();
    let _ = mock.get_tags("a", "b");
    assert_eq!(mock.call_count("get_everything"), 0);
    assert_eq!(mock.call_count("get_pr_status"), 0);
}

#[test]
fn latest_release_defaults_to_none() {
    let mock = MockForgeClient::new();
    assert!(mock.get_latest_release("a", "b").unwrap().is_none());
    assert_eq!(mock.call_count("get_latest_release"), 1);
}

#[test]
fn mock_later_answer_replaces_earlier() {
    let mut mock = MockForgeClient::new();
    mock.branch_responses
        .insert(("owner".into(), "repo".into(), "main".into()), Ok(true));
    mock.branch_responses
        .insert(("owner".into(), "repo".into(), "main".into()), Ok(false));

    assert!(!mock.branch_exists("owner", "repo", "main").unwrap());
}
