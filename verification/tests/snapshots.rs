use remind_me_to::errors::ScanError;
use remind_me_to::ops::types::{ForgeRef, IssueRef, Operation, RefRef};
use remind_me_to::scanner::{grammar, parser};

fn forge(owner: &str, repo: &str) -> ForgeRef {
    ForgeRef {
        forge: "github".into(),
        owner: owner.into(),
        repo: repo.into(),
    }
}

#[test]
fn parser_snapshot_single_reminder() {
    let line = "// REMIND-ME-TO: Remove custom TLS config when the fix lands pr_merged=github:hyper-rs/hyper#3210 tag_exists=github:hyper-rs/hyper@>=1.5.0";
    for parse in [parser::parse_file, grammar::parse_file] {
        let result = parse("src/tls.rs", line);
        assert_eq!(result.reminders.len(), 1);
        let r = &result.reminders[0];
        assert_eq!(r.file, "src/tls.rs");
        assert_eq!(r.line, 1);
        assert_eq!(r.description, "Remove custom TLS config when the fix lands");
        assert_eq!(
            r.operations,
            vec![
                Operation::PrMerged(IssueRef {
                    forge_ref: forge("hyper-rs", "hyper"),
                    number: 3210,
                }),
                Operation::TagExists(RefRef {
                    forge_ref: forge("hyper-rs", "hyper"),
                    value: ">=1.5.0".into(),
                }),
            ]
        );
    }
}

#[test]
fn parser_snapshot_parse_error() {
    let line = "// REMIND-ME-TO: fix this pr_merged=invalid_value";
    let result = parser::parse_file("src/bad.rs", line);
    assert_eq!(result.errors.len(), 1);
    match &result.errors[0] {
        ScanError::Parse {
            file,
            line: n,
            col,
            message,
            span,
            source_line,
            expected,
            found,
        } => {
            assert_eq!(file, "src/bad.rs");
            assert_eq!(*n, 1);
            assert_eq!(*col, 0);
            assert_eq!(
                message,
                "expected forge prefix (e.g., 'github:') in 'invalid_value'"
            );
            assert_eq!(span.clone(), 0..23);
            assert_eq!(source_line, line);
            assert_eq!(expected, &vec!["valid value for pr_merged".to_string()]);
            assert_eq!(found.as_deref(), Some("invalid_value"));
        }
        _ => panic!("expected Parse error"),
    }
    let result = grammar::parse_file("src/bad.rs", line);
    assert_eq!(result.errors.len(), 1);
    match &result.errors[0] {
        ScanError::Parse {
            file,
            line: n,
            col,
            message,
            span,
            source_line,
            expected,
            found,
        } => {
            assert_eq!(file, "src/bad.rs");
            assert_eq!(*n, 1);
            assert_eq!(*col, 0);
            assert_eq!(
                message,
                "expected forge prefix (e.g. 'github:') in 'invalid_value'"
            );
            assert_eq!(span.clone(), 0..32);
            assert_eq!(source_line, line);
            assert!(expected.is_empty());
            assert_eq!(found.as_deref(), Some(message.as_str()));
        }
        _ => panic!("expected Parse error"),
    }
}

#[test]
fn parser_snapshot_mixed_valid_and_invalid() {
    let line = "// REMIND-ME-TO: fix pr_merged=bad tag_exists=github:a/b@>=1.0 issue_closed=github:c/d#5";
    for parse in [parser::parse_file, grammar::parse_file] {
        let result = parse("src/mixed.rs", line);
        assert_eq!(result.reminders.len(), 1);
        assert_eq!(result.reminders[0].description, "fix");
        assert_eq!(
            result.reminders[0].operations,
            vec![
                Operation::TagExists(RefRef {
                    forge_ref: forge("a", "b"),
                    value: ">=1.0".into(),
                }),
                Operation::IssueClosed(IssueRef {
                    forge_ref: forge("c", "d"),
                    number: 5,
                }),
            ]
        );
        assert_eq!(result.errors.len(), 1);
        match &result.errors[0] {
            ScanError::Parse { message, .. } => assert!(message.contains("'bad'")),
            _ => panic!("expected Parse error"),
        }
    }
}
