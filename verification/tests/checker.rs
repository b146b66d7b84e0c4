use remind_me_to::dates::Clock;
use remind_me_to::errors::CheckError;
use remind_me_to::ops::checker::{
    check_all, check_date_passed, date_result, pr_closed_result, pr_merged_result,
    tag_exists_result,
};
use remind_me_to::ops::github::mock::MockForgeClient;
use remind_me_to::ops::nixpkgs::mock::MockNixpkgsClient;
use remind_me_to::ops::types::{
    ForgeClient,
    ForgeRef, IssueRef, IssueState, IssueStatus, NixpkgRef, Operation, OperationStatus, PrState,
    PrStatus, RefRef, Release, Reminder, Tag, AncestorStatus,
};

fn make_reminder(ops: Vec<Operation>) -> Reminder {
    Reminder {
        file: "test.rs".to_string(),
        line: 1,
        description: "test reminder".to_string(),
        operations: ops,
    }
}

fn forge_ref() -> ForgeRef {
    ForgeRef {
        forge: "github".into(),
        owner: "owner".into(),
        repo: "repo".into(),
    }
}

#[test]
fn pr_merged_triggered() {
    let mut mock = MockForgeClient::new();
    mock.pr_responses.insert(
        ("owner".into(), "repo".into(), 1),
        Ok(PrStatus {
            number: 1,
            state: PrState::Closed,
            merged: true,
            merged_at: Some("2025-01-15".into()),
            merge_commit_sha: Some("abc".into()),
        }),
    );

    let reminders = vec![make_reminder(vec![Operation::PrMerged(IssueRef {
        forge_ref: forge_ref(),
        number: 1,
    })])];

    let result = check_all(&reminders, &mock, None, 1);
    assert!(result.reminders[0].triggered);
    assert_eq!(
        result.reminders[0].results[0].status,
        OperationStatus::Triggered
    );
}

#[test]
fn pr_not_merged_pending() {
    let mut mock = MockForgeClient::new();
    mock.pr_responses.insert(
        ("owner".into(), "repo".into(), 1),
        Ok(PrStatus {
            number: 1,
            state: PrState::Open,
            merged: false,
            merged_at: None,
            merge_commit_sha: None,
        }),
    );

    let reminders = vec![make_reminder(vec![Operation::PrMerged(IssueRef {
        forge_ref: forge_ref(),
        number: 1,
    })])];

    let result = check_all(&reminders, &mock, None, 1);
    assert!(!result.reminders[0].triggered);
}

#[test]
fn or_semantics_one_triggered() {
    let mut mock = MockForgeClient::new();
    mock.pr_responses.insert(
        ("owner".into(), "repo".into(), 1),
        Ok(PrStatus {
            number: 1,
            state: PrState::Closed,
            merged: true,
            merged_at: Some("2025-01-15".into()),
            merge_commit_sha: Some("abc".into()),
        }),
    );
    mock.tag_responses.insert(
        ("owner".into(), "repo".into()),
        Ok(vec![Tag {
            name: "v0.1.0".into(),
            commit_sha: "xxx".into(),
        }]),
    );

    let reminders = vec![make_reminder(vec![
        Operation::PrMerged(IssueRef {
            forge_ref: forge_ref(),
            number: 1,
        }),
        Operation::TagExists(RefRef {
            forge_ref: forge_ref(),
            value: ">=2.0.0".into(),
        }),
    ])];

    let result = check_all(&reminders, &mock, None, 1);
    assert!(result.reminders[0].triggered);
}

#[test]
fn deduplication() {
    let mock = MockForgeClient::new();
    let op = Operation::PrMerged(IssueRef {
        forge_ref: forge_ref(),
        number: 1,
    });

    let reminders = vec![
        make_reminder(vec![op.clone()]),
        make_reminder(vec![op.clone()]),
        make_reminder(vec![op]),
    ];

    let result = check_all(&reminders, &mock, None, 1);
    // Same operation should only be called once
    assert_eq!(mock.call_count("get_pr_status"), 1);
    assert_eq!(result.reminders.len(), 3);
}

#[test]
fn date_passed_past() {
    let result = check_date_passed("2020-01-01");
    assert_eq!(result.status, OperationStatus::Triggered);
}

#[test]
fn date_passed_future() {
    let result = check_date_passed("2099-12-31");
    assert_eq!(result.status, OperationStatus::Pending);
}

#[test]
fn error_isolation() {
    let mut mock = MockForgeClient::new();
    mock.issue_responses.insert(
        ("owner".into(), "repo".into(), 1),
        Ok(IssueStatus {
            number: 1,
            state: IssueState::Closed,
        }),
    );

    let reminders = vec![make_reminder(vec![
        Operation::PrMerged(IssueRef {
            forge_ref: forge_ref(),
            number: 999,
        }),
        Operation::IssueClosed(IssueRef {
            forge_ref: forge_ref(),
            number: 1,
        }),
    ])];

    let result = check_all(&reminders, &mock, None, 1);
    assert!(result.reminders[0].triggered);
}

#[test]
fn branch_deleted_triggered() {
    let mock = MockForgeClient::new();
    let reminders = vec![make_reminder(vec![Operation::BranchDeleted(RefRef {
        forge_ref: forge_ref(),
        value: "deleted-branch".into(),
    })])];

    let result = check_all(&reminders, &mock, None, 1);
    assert!(result.reminders[0].triggered);
}

#[test]
fn nixpkg_version_triggered() {
    let forge_mock = MockForgeClient::new();
    let mut nix_mock = MockNixpkgsClient::new();
    nix_mock.version_responses.insert(
        "redis".into(),
        Ok(vec!["7.2.4".into(), "7.0.12".into(), "6.2.6".into()]),
    );

    let reminders = vec![make_reminder(vec![Operation::NixpkgVersion(NixpkgRef {
        package: "redis".into(),
        version_constraint: ">=7.0.0".into(),
    })])];

    let result = check_all(&reminders, &forge_mock, Some(&nix_mock), 1);
    assert!(result.reminders[0].triggered);
    assert_eq!(
        result.reminders[0].results[0].status,
        OperationStatus::Triggered
    );
}

#[test]
fn nixpkg_version_pending() {
    let forge_mock = MockForgeClient::new();
    let mut nix_mock = MockNixpkgsClient::new();
    nix_mock
        .version_responses
        .insert("redis".into(), Ok(vec!["6.2.6".into(), "6.0.10".into()]));

    let reminders = vec![make_reminder(vec![Operation::NixpkgVersion(NixpkgRef {
        package: "redis".into(),
        version_constraint: ">=7.0.0".into(),
    })])];

    let result = check_all(&reminders, &forge_mock, Some(&nix_mock), 1);
    assert!(!result.reminders[0].triggered);
    assert_eq!(
        result.reminders[0].results[0].status,
        OperationStatus::Pending
    );
}

#[test]
fn nixpkg_version_no_client() {
    let forge_mock = MockForgeClient::new();

    let reminders = vec![make_reminder(vec![Operation::NixpkgVersion(NixpkgRef {
        package: "redis".into(),
        version_constraint: ">=7.0.0".into(),
    })])];

    let result = check_all(&reminders, &forge_mock, None, 1);
    assert_eq!(
        result.reminders[0].results[0].status,
        OperationStatus::Error
    );
}

// ---- details and error collection ----

fn merged_pr() -> PrStatus {
    PrStatus {
        number: 1,
        state: PrState::Closed,
        merged: true,
        merged_at: Some("2025-01-15".into()),
        merge_commit_sha: Some("abc".into()),
    }
}

#[test]
fn details_of_each_outcome() {
    let op = Operation::PrMerged(IssueRef {
        forge_ref: forge_ref(),
        number: 1,
    });
    let r = pr_merged_result(op.clone(), &Ok(merged_pr()));
    assert_eq!(r.detail.as_deref(), Some("merged 2025-01-15"));
    let open = PrStatus {
        number: 1,
        state: PrState::Open,
        merged: false,
        merged_at: None,
        merge_commit_sha: None,
    };
    let r = pr_merged_result(op.clone(), &Ok(open.clone()));
    assert_eq!(r.status, OperationStatus::Pending);
    assert_eq!(r.detail.as_deref(), Some("PR is Open"));
    let r = pr_closed_result(op.clone(), &Ok(open));
    assert_eq!(r.detail.as_deref(), Some("PR is open"));
    let r = pr_closed_result(op.clone(), &Ok(merged_pr()));
    assert_eq!(r.detail.as_deref(), Some("closed (merged)"));
    let err = CheckError::Network {
        message: "down".into(),
    };
    let r = pr_merged_result(op, &Err(err));
    assert_eq!(r.status, OperationStatus::Error);
    assert_eq!(r.detail.as_deref(), Some("network error: down"));
}

#[test]
fn tag_details_name_the_match_or_the_latest() {
    let op = Operation::TagExists(RefRef {
        forge_ref: forge_ref(),
        value: ">=2.0.0".into(),
    });
    let tags = vec![
        Tag {
            name: "v1.4.1".into(),
            commit_sha: "a".into(),
        },
        Tag {
            name: "v2.1.0".into(),
            commit_sha: "b".into(),
        },
    ];
    let r = tag_exists_result(op.clone(), ">=2.0.0", &Ok(tags));
    assert_eq!(r.detail.as_deref(), Some("matched tag: v2.1.0"));
    let old = vec![Tag {
        name: "v1.4.1".into(),
        commit_sha: "a".into(),
    }];
    let r = tag_exists_result(op.clone(), ">=2.0.0", &Ok(old));
    assert_eq!(r.detail.as_deref(), Some("latest: v1.4.1, not yet"));
    let r = tag_exists_result(op, ">=2.0.0", &Ok(vec![]));
    assert_eq!(r.detail.as_deref(), Some("latest: none, not yet"));
}

#[test]
fn date_details() {
    let op = Operation::DatePassed("2025-06-01".into());
    let r = date_result(op.clone(), "2025-06-01", &Ok((2025, 6, 1)), Clock { date: (2025, 6, 1), time: (0, 0, 0, 0), zone: None });
    assert_eq!(r.status, OperationStatus::Triggered);
    assert_eq!(r.detail.as_deref(), Some("date 2025-06-01 has passed"));
    let r = date_result(op.clone(), "2025-06-01", &Ok((2025, 6, 1)), Clock { date: (2025, 5, 31), time: (0, 0, 0, 0), zone: None });
    assert_eq!(r.status, OperationStatus::Pending);
    assert_eq!(r.detail.as_deref(), Some("date 2025-06-01 is in the future"));
    let r = date_result(op, "x", &Err("bad".into()), Clock { date: (2025, 5, 31), time: (0, 0, 0, 0), zone: None });
    assert_eq!(r.status, OperationStatus::Error);
    assert_eq!(r.detail.as_deref(), Some("invalid date 'x': bad"));
}

#[test]
fn date_with_time_past_is_triggered() {
    let r = check_date_passed("2020-01-01T00:00:00Z");
    assert_eq!(r.status, OperationStatus::Triggered);
    let r = check_date_passed("not-a-date");
    assert_eq!(r.status, OperationStatus::Error);
    assert!(r.detail.unwrap().starts_with("invalid date 'not-a-date': "));
}

#[test]
fn errors_are_collected_in_order_and_reminders_keep_their_results() {
    let mut mock = MockForgeClient::new();
    mock.pr_responses
        .insert(("owner".into(), "repo".into(), 1), Ok(merged_pr()));
    let missing = Operation::PrMerged(IssueRef {
        forge_ref: forge_ref(),
        number: 2,
    });
    let merged = Operation::PrMerged(IssueRef {
        forge_ref: forge_ref(),
        number: 1,
    });
    let reminders = vec![
        make_reminder(vec![missing.clone()]),
        make_reminder(vec![merged.clone(), missing]),
    ];
    let result = check_all(&reminders, &mock, None, 4);
    assert_eq!(result.reminders.len(), 2);
    assert!(!result.reminders[0].triggered);
    assert!(result.reminders[1].triggered);
    assert_eq!(result.reminders[1].results.len(), 2);
    assert_eq!(
        result.errors,
        vec![
            "API request failed for github:owner/repo#2: not found in mock".to_string(),
            "API request failed for github:owner/repo#2: not found in mock".to_string(),
        ]
    );
    // asked once for each distinct pull request
    assert_eq!(mock.call_count("get_pr_status"), 2);
}

#[test]
fn commit_released_follows_the_latest_release() {
    let mut mock = MockForgeClient::new();
    mock.release_responses.insert(
        ("owner".into(), "repo".into()),
        Ok(vec![Release {
            tag_name: "v1.2.0".into(),
            target_commitish: "main".into(),
        }]),
    );
    mock.ancestor_responses.insert(
        ("owner".into(), "repo".into(), "abc".into(), "v1.2.0".into()),
        Ok(AncestorStatus::Ancestor),
    );
    let released = Operation::CommitReleased(RefRef {
        forge_ref: forge_ref(),
        value: "abc".into(),
    });
    let not_yet = Operation::CommitReleased(RefRef {
        forge_ref: forge_ref(),
        value: "def".into(),
    });
    let result = check_all(&[make_reminder(vec![released, not_yet])], &mock, None, 1);
    let results = &result.reminders[0].results;
    assert_eq!(results[0].status, OperationStatus::Triggered);
    assert_eq!(results[0].detail.as_deref(), Some("included in release v1.2.0"));
    assert_eq!(results[1].status, OperationStatus::Pending);
    assert_eq!(results[1].detail.as_deref(), Some("not in latest release (v1.2.0)"));
}

#[test]
fn pr_released_needs_a_merge_commit_and_a_release() {
    let mut mock = MockForgeClient::new();
    mock.pr_responses
        .insert(("owner".into(), "repo".into(), 1), Ok(merged_pr()));
    let op = Operation::PrReleased(IssueRef {
        forge_ref: forge_ref(),
        number: 1,
    });
    let result = check_all(&[make_reminder(vec![op])], &mock, None, 1);
    let r = &result.reminders[0].results[0];
    assert_eq!(r.status, OperationStatus::Pending);
    assert_eq!(r.detail.as_deref(), Some("no releases found"));
}

#[test]
fn datetime_later_the_same_day_is_pending() {
    let op = Operation::DatePassed("2025-06-01T23:00:00Z".into());
    let now = Clock { date: (2025, 6, 1), time: (10, 0, 0, 0), zone: None };
    let r = date_result(op.clone(), "2025-06-01T23:00:00Z", &Ok((2025, 6, 1)), now);
    assert_eq!(r.status, OperationStatus::Pending);
    let now = Clock { date: (2025, 6, 1), time: (23, 0, 0, 0), zone: None };
    let r = date_result(op, "2025-06-01T23:00:00Z", &Ok((2025, 6, 1)), now);
    assert_eq!(r.status, OperationStatus::Triggered);
}

#[test]
fn datetime_fraction_counts() {
    let op = Operation::DatePassed("2025-06-01T10:00:00.5".into());
    let now = Clock { date: (2025, 6, 1), time: (10, 0, 0, 400_000_000), zone: None };
    let r = date_result(op.clone(), "2025-06-01T10:00:00.5", &Ok((2025, 6, 1)), now);
    assert_eq!(r.status, OperationStatus::Pending);
    let now = Clock { date: (2025, 6, 1), time: (10, 0, 0, 500_000_000), zone: None };
    let r = date_result(op, "2025-06-01T10:00:00.5", &Ok((2025, 6, 1)), now);
    assert_eq!(r.status, OperationStatus::Triggered);
}

#[test]
fn date_with_a_bad_time_is_an_error() {
    let r = check_date_passed("2025-06-01Tnonsense");
    assert_eq!(r.status, OperationStatus::Error);
    assert_eq!(r.detail.as_deref(), Some("invalid time in '2025-06-01Tnonsense'"));
}

#[test]
fn date_cut_inside_a_character_is_an_error() {
    let r = check_date_passed("2025-06-0\u{e9}");
    assert_eq!(r.status, OperationStatus::Error);
}

#[test]
fn commit_released_falls_back_to_version_tags() {
    let mut mock = MockForgeClient::new();
    mock.tag_responses.insert(
        ("owner".into(), "repo".into()),
        Ok(vec![
            Tag { name: "nightly".into(), commit_sha: "n".into() },
            Tag { name: "v1.2.3".into(), commit_sha: "x".into() },
            Tag { name: "v1.3.0".into(), commit_sha: "y".into() },
        ]),
    );
    mock.ancestor_responses.insert(
        ("owner".into(), "repo".into(), "abc".into(), "v1.3.0".into()),
        Ok(AncestorStatus::Ancestor),
    );
    let released = Operation::CommitReleased(RefRef { forge_ref: forge_ref(), value: "abc".into() });
    let not_yet = Operation::CommitReleased(RefRef { forge_ref: forge_ref(), value: "def".into() });
    let result = check_all(&[make_reminder(vec![released, not_yet])], &mock, None, 1);
    let results = &result.reminders[0].results;
    assert_eq!(results[0].status, OperationStatus::Triggered);
    assert_eq!(results[0].detail.as_deref(), Some("included in release v1.3.0"));
    assert_eq!(results[1].status, OperationStatus::Pending);
    assert_eq!(results[1].detail.as_deref(), Some("not in any release tag"));
    // "nightly" is not asked about
    assert_eq!(mock.call_count("is_ancestor"), 4);
}

#[test]
fn commit_released_without_releases_or_version_tags() {
    let mock = MockForgeClient::new();
    let op = Operation::CommitReleased(RefRef { forge_ref: forge_ref(), value: "abc".into() });
    let result = check_all(&[make_reminder(vec![op])], &mock, None, 1);
    assert_eq!(result.reminders[0].results[0].status, OperationStatus::Pending);
    assert_eq!(result.reminders[0].results[0].detail.as_deref(), Some("no releases found"));
}

/// A forge whose rate limit is exhausted; it must not be asked anything.
struct Exhausted;

impl ForgeClient for Exhausted {
    fn rate_limit_reset(&self) -> Option<String> {
        Some("1700000000".into())
    }
    fn get_pr_status(&self, _: &str, _: &str, _: u64) -> Result<PrStatus, CheckError> {
        panic!("asked after the rate limit was exhausted")
    }
    fn get_tags(&self, _: &str, _: &str) -> Result<Vec<Tag>, CheckError> {
        panic!("asked after the rate limit was exhausted")
    }
    fn get_issue_status(&self, _: &str, _: &str, _: u64) -> Result<IssueStatus, CheckError> {
        panic!("asked after the rate limit was exhausted")
    }
    fn branch_exists(&self, _: &str, _: &str, _: &str) -> Result<bool, CheckError> {
        panic!("asked after the rate limit was exhausted")
    }
    fn get_latest_release(&self, _: &str, _: &str) -> Result<Option<Release>, CheckError> {
        panic!("asked after the rate limit was exhausted")
    }
    fn is_ancestor(&self, _: &str, _: &str, _: &str, _: &str) -> Result<AncestorStatus, CheckError> {
        panic!("asked after the rate limit was exhausted")
    }
}

#[test]
fn exhausted_rate_limit_stops_asking_the_forge() {
    let ops = vec![
        Operation::PrMerged(IssueRef { forge_ref: forge_ref(), number: 1 }),
        Operation::DatePassed("2020-01-01".into()),
    ];
    let result = check_all(&[make_reminder(ops)], &Exhausted, None, 1);
    let results = &result.reminders[0].results;
    assert_eq!(results[0].status, OperationStatus::Error);
    assert_eq!(
        results[0].detail.as_deref(),
        Some("rate limited by github, resets at 1700000000")
    );
    assert_eq!(results[1].status, OperationStatus::Triggered);
    assert!(result.reminders[0].triggered);
}
