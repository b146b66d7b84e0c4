use remind_me_to::errors::{ScanError, ScanResult};
use remind_me_to::scanner::{grammar, parser};

fn message(r: &ScanResult) -> String {
    match &r.errors[0] {
        ScanError::Parse { message, .. } => message.clone(),
        _ => panic!("expected Parse error"),
    }
}

fn grammar_message(value: &str) -> String {
    let r = grammar::parse_file("x.rs", &format!("// REMIND-ME-TO: fix {value}"));
    assert_eq!(r.errors.len(), 1);
    message(&r)
}

fn token_message(value: &str) -> String {
    let r = parser::parse_file("x.rs", &format!("// REMIND-ME-TO: fix {value}"));
    assert_eq!(r.errors.len(), 1);
    message(&r)
}

#[test]
fn grammar_reference_faults() {
    assert_eq!(
        grammar_message("pr_merged=bad"),
        "expected forge prefix (e.g. 'github:') in 'bad'"
    );
    assert_eq!(
        grammar_message("pr_merged=github:ab"),
        "expected 'owner/repo' in 'github:ab'"
    );
    assert_eq!(grammar_message("pr_merged=github:/b#1"), "empty owner in 'github:/b#1'");
    assert_eq!(grammar_message("pr_merged=github:a/#1"), "empty repo in 'github:a/#1'");
    assert_eq!(grammar_message("pr_merged=github:a/b"), "expected '#' in 'github:a/b'");
    assert_eq!(grammar_message("tag_exists=github:a/b"), "expected '@' in 'github:a/b'");
    assert_eq!(
        grammar_message("pr_merged=github:a/b#x1"),
        "expected number after '#' in 'github:a/b#x1'"
    );
    assert_eq!(
        grammar_message("tag_exists=github:a/b@"),
        "expected value after '@' in 'github:a/b@'"
    );
    assert_eq!(
        grammar_message("nixpkg_version=redis"),
        "expected 'package@constraint' in 'redis'"
    );
    assert_eq!(grammar_message("nixpkg_version=@1"), "empty package name in '@1'");
    assert_eq!(
        grammar_message("nixpkg_version=redis@"),
        "expected version constraint after '@' in 'redis@'"
    );
}

#[test]
fn token_reference_faults() {
    assert_eq!(
        token_message("pr_merged=bad"),
        "expected forge prefix (e.g., 'github:') in 'bad'"
    );
    assert_eq!(
        token_message("pr_merged=github:ab"),
        "expected 'owner/repo' after 'github:' in 'github:ab'"
    );
    assert_eq!(token_message("pr_merged=github:/b#1"), "empty owner in 'github:/b#1'");
    assert_eq!(token_message("pr_merged=github:a/#1"), "empty repo in 'github:a/#1'");
    assert_eq!(
        token_message("pr_merged=github:a/b!"),
        "expected '#' after repo in 'github:a/b!', got ''"
    );
    assert_eq!(
        token_message("pr_merged=github:a/b#x1"),
        "expected issue/PR number after '#', got 'x1'"
    );
    assert_eq!(
        token_message("branch_deleted=github:a/b@"),
        "expected value after '@' in 'github:a/b@'"
    );
}

#[test]
fn the_grammar_rejects_other_whitespace_between_tokens() {
    let r = grammar::parse_file("x.rs", "// REMIND-ME-TO: fix\u{a0}pr_merged=github:a/b#1");
    assert!(r.reminders.is_empty());
    assert_eq!(
        message(&r),
        "found '\u{a0}' where a space, a tab or a token was expected"
    );
}

#[test]
fn an_operation_name_without_a_value_is_a_word() {
    let r = grammar::parse_file("x.rs", "// REMIND-ME-TO: fix pr_merged= x pr_closed=github:a/b#2");
    assert!(r.errors.is_empty());
    assert_eq!(r.reminders[0].description, "fix pr_merged= x");
}
