use remind_me_to::errors::{ScanError, ScanResult};
use remind_me_to::ops::types::Operation;
use remind_me_to::scanner::{grammar, parser};

/// The whitespace-token parser.
fn ws_parse(content: &str) -> ScanResult {
    parser::parse_file("test.rs", content)
}

/// The grammar parser.
fn grammar_parse(content: &str) -> ScanResult {
    grammar::parse_file("test.rs", content)
}

fn both(content: &str) -> [ScanResult; 2] {
    [ws_parse(content), grammar_parse(content)]
}

// ---- Marker detection ----

#[test]
fn parser_finds_marker_case_insensitive() {
    for parse in [ws_parse, grammar_parse] {
        let r1 = parse("// REMIND-ME-TO: do something pr_merged=github:foo/bar#1");
        assert_eq!(r1.reminders.len(), 1);

        let r2 = parse("// remind-me-to: do something pr_merged=github:foo/bar#1");
        assert_eq!(r2.reminders.len(), 1);

        let r3 = parse("// Remind-Me-To: do something pr_merged=github:foo/bar#1");
        assert_eq!(r3.reminders.len(), 1);
    }
}

#[test]
fn parser_no_marker_returns_empty() {
    for result in both("// This is a normal comment\nfn main() {}") {
        assert!(result.reminders.is_empty());
        assert!(result.errors.is_empty());
    }
}

#[test]
fn parser_multiple_reminders_in_file() {
    let content = "// REMIND-ME-TO: first pr_merged=github:a/b#1\n\
                    fn foo() {}\n\
                    // REMIND-ME-TO: second issue_closed=github:c/d#2\n";
    for result in both(content) {
        assert_eq!(result.reminders.len(), 2);
        assert_eq!(result.reminders[0].line, 1);
        assert_eq!(result.reminders[1].line, 3);
    }
}

// ---- Operation parsing ----

#[test]
fn parser_parse_pr_merged() {
    for result in both("// REMIND-ME-TO: fix this pr_merged=github:tokio-rs/tokio#5432") {
        assert_eq!(result.reminders.len(), 1);
        let op = &result.reminders[0].operations[0];
        match op {
            Operation::PrMerged(r) => {
                assert_eq!(r.forge_ref.forge, "github");
                assert_eq!(r.forge_ref.owner, "tokio-rs");
                assert_eq!(r.forge_ref.repo, "tokio");
                assert_eq!(r.number, 5432);
            }
            _ => panic!("expected PrMerged, got {op:?}"),
        }
    }
}

#[test]
fn parser_parse_pr_closed() {
    for result in both("// REMIND-ME-TO: cleanup pr_closed=github:owner/repo#99") {
        assert_eq!(result.reminders[0].operations.len(), 1);
        assert!(matches!(
            &result.reminders[0].operations[0],
            Operation::PrClosed(_)
        ));
    }
}

#[test]
fn parser_parse_tag_exists() {
    for result in both("// REMIND-ME-TO: upgrade tag_exists=github:serde-rs/serde@>=2.0.0") {
        assert_eq!(result.reminders.len(), 1);
        let op = &result.reminders[0].operations[0];
        match op {
            Operation::TagExists(r) => {
                assert_eq!(r.forge_ref.owner, "serde-rs");
                assert_eq!(r.forge_ref.repo, "serde");
                assert_eq!(r.value, ">=2.0.0");
            }
            _ => panic!("expected TagExists, got {op:?}"),
        }
    }
}

#[test]
fn parser_parse_commit_released() {
    for result in both("// REMIND-ME-TO: remove hack commit_released=github:foo/bar@abc1234") {
        match &result.reminders[0].operations[0] {
            Operation::CommitReleased(r) => assert_eq!(r.value, "abc1234"),
            other => panic!("expected CommitReleased, got {other:?}"),
        }
    }
}

#[test]
fn parser_parse_pr_released() {
    for result in both("// REMIND-ME-TO: update pr_released=github:foo/bar#42") {
        assert!(matches!(
            &result.reminders[0].operations[0],
            Operation::PrReleased(_)
        ));
    }
}

#[test]
fn parser_parse_issue_closed() {
    for result in both("// REMIND-ME-TO: remove workaround issue_closed=github:foo/bar#456") {
        match &result.reminders[0].operations[0] {
            Operation::IssueClosed(r) => assert_eq!(r.number, 456),
            other => panic!("expected IssueClosed, got {other:?}"),
        }
    }
}

#[test]
fn parser_parse_branch_deleted() {
    for result in both("// REMIND-ME-TO: cleanup branch_deleted=github:foo/bar@feature-branch") {
        match &result.reminders[0].operations[0] {
            Operation::BranchDeleted(r) => assert_eq!(r.value, "feature-branch"),
            other => panic!("expected BranchDeleted, got {other:?}"),
        }
    }
}

#[test]
fn parser_parse_date_passed() {
    for result in both("// REMIND-ME-TO: review date_passed=2025-06-01") {
        match &result.reminders[0].operations[0] {
            Operation::DatePassed(d) => assert_eq!(d, "2025-06-01"),
            other => panic!("expected DatePassed, got {other:?}"),
        }
    }
}

#[test]
fn parser_parse_date_passed_rfc3339() {
    for result in both("// REMIND-ME-TO: review date_passed=2025-06-01T15:30:00Z") {
        match &result.reminders[0].operations[0] {
            Operation::DatePassed(d) => assert_eq!(d, "2025-06-01T15:30:00Z"),
            other => panic!("expected DatePassed, got {other:?}"),
        }
    }
}

// ---- Description extraction ----

#[test]
fn parser_extracts_description() {
    for result in both(
        "// REMIND-ME-TO: Remove this override when the upstream bug is fixed pr_merged=github:tokio-rs/tokio#5432",
    ) {
        assert_eq!(
            result.reminders[0].description,
            "Remove this override when the upstream bug is fixed"
        );
    }
}

#[test]
fn description_only_no_operations() {
    let result = ws_parse("// REMIND-ME-TO: just a note with no operations");
    assert_eq!(result.reminders.len(), 1);
    assert!(result.reminders[0].operations.is_empty());
    assert_eq!(
        result.reminders[0].description,
        "just a note with no operations"
    );
}

#[test]
fn description_only_no_operations_is_skipped() {
    let r = grammar_parse("// REMIND-ME-TO: just a note with no operations");
    assert!(r.reminders.is_empty());
    assert!(r.errors.is_empty());
}

#[test]
fn parser_unknown_key_value_treated_as_description() {
    for result in both("// REMIND-ME-TO: when x=5 is fixed pr_merged=github:a/b#1") {
        assert_eq!(result.reminders[0].description, "when x=5 is fixed");
        assert_eq!(result.reminders[0].operations.len(), 1);
    }
}

// ---- Multiple operations ----

#[test]
fn parser_multiple_operations_or_semantics() {
    for result in both(
        "// REMIND-ME-TO: Remove custom TLS config pr_merged=github:hyper-rs/hyper#3210 tag_exists=github:hyper-rs/hyper@>=1.5.0",
    ) {
        assert_eq!(result.reminders[0].operations.len(), 2);
        assert!(matches!(
            &result.reminders[0].operations[0],
            Operation::PrMerged(_)
        ));
        assert!(matches!(
            &result.reminders[0].operations[1],
            Operation::TagExists(_)
        ));
    }
}

// ---- Error handling ----

#[test]
fn parser_known_op_with_bad_value_is_error() {
    let result = ws_parse("// REMIND-ME-TO: fix pr_merged=bad_value");
    assert_eq!(result.errors.len(), 1);
    match &result.errors[0] {
        ScanError::Parse { message, found, .. } => {
            assert!(message.contains("forge prefix"));
            assert_eq!(found.as_deref(), Some("bad_value"));
        }
        _ => panic!("expected Parse error"),
    }
    let r = grammar_parse("// REMIND-ME-TO: fix pr_merged=bad_value");
    assert_eq!(r.errors.len(), 1);
    match &r.errors[0] {
        ScanError::Parse { message, .. } => {
            assert!(message.contains("forge prefix"));
        }
        _ => panic!("expected Parse error"),
    }
}

#[test]
fn parser_error_recovery_still_collects_valid_ops() {
    for result in both("// REMIND-ME-TO: fix pr_merged=bad_value tag_exists=github:a/b@>=1.0") {
        assert_eq!(result.errors.len(), 1);
        assert_eq!(result.reminders.len(), 1);
        assert_eq!(result.reminders[0].operations.len(), 1);
        assert!(matches!(
            &result.reminders[0].operations[0],
            Operation::TagExists(_)
        ));
    }
}

// ---- Comment closers ----

#[test]
fn parser_html_comment_closer_in_description() {
    for parse in [parser::parse_file, grammar::parse_file] {
        let result = parse(
            "test.html",
            "<!-- REMIND-ME-TO: Remove polyfill tag_exists=github:nicolo-ribaudo/tc39-proposal@>=1.0.0 -->",
        );
        assert_eq!(result.reminders.len(), 1);
        assert_eq!(result.reminders[0].operations.len(), 1);
        assert!(result.reminders[0].description.contains("-->"));
    }
}

#[test]
fn parser_block_comment_closer_in_description() {
    for parse in [parser::parse_file, grammar::parse_file] {
        let result = parse("test.c", "/* REMIND-ME-TO: Remove hack pr_merged=github:a/b#1 */");
        assert_eq!(result.reminders[0].operations.len(), 1);
        assert!(result.reminders[0].description.contains("*/"));
    }
}

// ---- Various comment styles ----

#[test]
fn parser_python_comment() {
    for parse in [parser::parse_file, grammar::parse_file] {
        let result = parse(
            "test.py",
            "# remind-me-to: Drop this fork tag_exists=github:serde-rs/serde@>=2.0.0",
        );
        assert_eq!(result.reminders.len(), 1);
        assert_eq!(result.reminders[0].operations.len(), 1);
    }
}

#[test]
fn parser_lua_comment() {
    for parse in [parser::parse_file, grammar::parse_file] {
        let result = parse(
            "test.lua",
            "-- Remind-Me-To: Switch back to upstream pr_merged=github:neovim/neovim#28100",
        );
        assert_eq!(result.reminders.len(), 1);
    }
}

// ---- Edge cases ----

#[test]
fn parser_empty_file() {
    for result in both("") {
        assert!(result.reminders.is_empty());
        assert!(result.errors.is_empty());
    }
}

#[test]
fn parser_marker_with_no_content() {
    for result in both("// REMIND-ME-TO:") {
        assert!(result.reminders.is_empty());
    }
}

#[test]
fn parser_marker_with_only_whitespace() {
    for result in both("// REMIND-ME-TO:   ") {
        assert!(result.reminders.is_empty());
    }
}

#[test]
fn parser_date_invalid() {
    for result in both("// REMIND-ME-TO: fix date_passed=not-a-date") {
        assert_eq!(result.errors.len(), 1);
    }
}

#[test]
fn parser_issue_ref_missing_number() {
    for result in both("// REMIND-ME-TO: fix pr_merged=github:a/b#notnum") {
        assert_eq!(result.errors.len(), 1);
    }
}

#[test]
fn parser_ref_ref_missing_at() {
    for result in both("// REMIND-ME-TO: fix tag_exists=github:a/b") {
        assert_eq!(result.errors.len(), 1);
    }
}

#[test]
fn parser_ref_ref_empty_value() {
    for result in both("// REMIND-ME-TO: fix tag_exists=github:a/b@") {
        assert_eq!(result.errors.len(), 1);
    }
}

// ---- Markers outside comments (grammar parser) ----

#[test]
fn ignores_marker_in_rust_string_literal() {
    let r = grammar_parse(r#"        let s = "// REMIND-ME-TO: not real pr_merged=github:a/b#1";"#);
    assert!(r.reminders.is_empty());
    assert!(r.errors.is_empty());
}

#[test]
fn ignores_marker_in_multiline_string_continuation() {
    let r = grammar_parse(r#"                        // REMIND-ME-TO: not real issue_closed=github:c/d#2\n";"#);
    assert!(r.errors.is_empty());
}

#[test]
fn value_with_trailing_junk_stops_at_junk() {
    let r = grammar_parse(r#"// REMIND-ME-TO: fix pr_merged=github:a/b#1","#);
    assert!(r.errors.is_empty());
    assert_eq!(r.reminders[0].operations.len(), 1);
    assert!(r.reminders[0].description.starts_with("fix"));
}

#[test]
fn clean_value_parses_without_trailing_junk() {
    let r = grammar_parse("// REMIND-ME-TO: fix pr_merged=github:a/b#1");
    assert!(r.errors.is_empty());
    assert_eq!(r.reminders[0].operations.len(), 1);
}

#[test]
fn value_stops_at_invalid_chars() {
    let r = grammar_parse(r#"// REMIND-ME-TO: fix pr_merged=github:a/b#1\n"#);
    assert!(r.errors.is_empty());
    assert_eq!(r.reminders[0].operations.len(), 1);
    assert!(r.reminders[0].description.contains(r"\n"));
}

#[test]
fn inline_comment_after_code_is_detected() {
    let r = grammar_parse(r#"let x = 5; // REMIND-ME-TO: fix pr_merged=github:a/b#1"#);
    assert_eq!(r.reminders.len(), 1);
    assert_eq!(r.reminders[0].operations.len(), 1);
}

#[test]
fn marker_in_pure_code_is_ignored() {
    let r = grammar_parse(r#"println!("REMIND-ME-TO: not a comment")"#);
    assert!(r.reminders.is_empty());
}

// ---- nixpkg_version (grammar parser) ----

#[test]
fn parse_nixpkg_version() {
    let r = grammar_parse("// REMIND-ME-TO: remove workaround nixpkg_version=redis@>=7.0.0");
    assert_eq!(r.reminders.len(), 1);
    match &r.reminders[0].operations[0] {
        Operation::NixpkgVersion(nixpkg_ref) => {
            assert_eq!(nixpkg_ref.package, "redis");
            assert_eq!(nixpkg_ref.version_constraint, ">=7.0.0");
        }
        other => panic!("expected NixpkgVersion, got {other:?}"),
    }
}

#[test]
fn parse_nixpkg_version_with_hyphen_package() {
    let r = grammar_parse("// REMIND-ME-TO: upgrade nixpkg_version=python3-full@>=3.13");
    match &r.reminders[0].operations[0] {
        Operation::NixpkgVersion(nixpkg_ref) => {
            assert_eq!(nixpkg_ref.package, "python3-full");
            assert_eq!(nixpkg_ref.version_constraint, ">=3.13");
        }
        other => panic!("expected NixpkgVersion, got {other:?}"),
    }
}

#[test]
fn parse_nixpkg_version_missing_at() {
    let r = grammar_parse("// REMIND-ME-TO: fix nixpkg_version=redis");
    assert_eq!(r.errors.len(), 1);
}

#[test]
fn parse_nixpkg_version_empty_package() {
    let r = grammar_parse("// REMIND-ME-TO: fix nixpkg_version=@>=1.0");
    assert_eq!(r.errors.len(), 1);
}

#[test]
fn parse_nixpkg_version_empty_constraint() {
    let r = grammar_parse("// REMIND-ME-TO: fix nixpkg_version=redis@");
    assert_eq!(r.errors.len(), 1);
}

// ---- what a parse error records ----

#[test]
fn parse_error_records_line_and_source() {
    for result in both("fn main() {}\n// REMIND-ME-TO: fix pr_merged=bad_value") {
        match &result.errors[0] {
            ScanError::Parse {
                file,
                line,
                source_line,
                ..
            } => {
                assert_eq!(file, "test.rs");
                assert_eq!(*line, 2);
                assert_eq!(source_line, "// REMIND-ME-TO: fix pr_merged=bad_value");
            }
            _ => panic!("expected Parse error"),
        }
    }
}

#[test]
fn crlf_line_endings_are_stripped() {
    for result in both("// REMIND-ME-TO: a pr_merged=github:a/b#1\r\n// REMIND-ME-TO: b pr_merged=github:a/b#2\r\n") {
        assert_eq!(result.reminders.len(), 2);
        assert_eq!(result.reminders[1].line, 2);
    }
}

#[test]
fn both_parsers_accept_ordinary_content() {
    let content = "// REMIND-ME-TO: x date_passed=2025-06-01\nplain line";
    assert!(parser::content_parsable(content));
    assert!(grammar::content_parsable(content));
}
