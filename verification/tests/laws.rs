use remind_me_to::dates::Clock;
use remind_me_to::ops::checker::date_result;
use remind_me_to::ops::types::{Operation, OperationStatus};
use remind_me_to::scanner::git_context::{resolve_shorthand, GitContext};
use remind_me_to::scanner::{grammar, parser};

fn first_op(result: &remind_me_to::errors::ScanResult) -> &Operation {
    &result.reminders[0].operations[0]
}

#[test]
fn rendering_a_parsed_operation_reads_back_the_same_operation() {
    let line = "// REMIND-ME-TO: fix pr_merged=github:a/b#007 tag_exists=github:c/d@>=1.0";
    for parse in [parser::parse_file, grammar::parse_file] {
        let first = parse("x.rs", line);
        let rendered: Vec<String> = first.reminders[0]
            .operations
            .iter()
            .map(|op| op.render())
            .collect();
        assert_eq!(
            rendered,
            vec![
                "pr_merged=github:a/b#7".to_string(),
                "tag_exists=github:c/d@>=1.0".to_string()
            ]
        );
        let again = parse("x.rs", &format!("// REMIND-ME-TO: fix {}", rendered.join(" ")));
        assert_eq!(again.reminders[0].operations, first.reminders[0].operations);
    }
}

#[test]
fn nixpkg_value_renders_unchanged() {
    let r = grammar::parse_file("x.rs", "// REMIND-ME-TO: up nixpkg_version=python3-full@>=3.13");
    assert_eq!(first_op(&r).render(), "nixpkg_version=python3-full@>=3.13");
}

#[test]
fn every_token_is_an_operation_a_word_or_an_error() {
    let line = "// REMIND-ME-TO: a b pr_merged=bad tag_exists=github:a/b@1 c";
    for parse in [parser::parse_file, grammar::parse_file] {
        let r = parse("x.rs", line);
        let ops = r.reminders[0].operations.len();
        let words = r.reminders[0].description.split(' ').count();
        assert_eq!((ops, words, r.errors.len()), (1, 3, 1));
    }
}

#[test]
fn a_date_cut_inside_a_character_is_a_parse_error() {
    let r = grammar::parse_file(
        "x.rs",
        "// REMIND-ME-TO: a date_passed=2025-06-01T00:00:00Z\n// REMIND-ME-TO: b date_passed=2025-06-0\u{e9}",
    );
    assert_eq!(r.reminders.len(), 1);
    assert_eq!(r.errors.len(), 1);
    let r = parser::parse_file("x.rs", "// REMIND-ME-TO: b date_passed=2025-06-0\u{e9}");
    assert!(r.reminders.iter().all(|m| m.operations.is_empty()));
    assert_eq!(r.errors.len(), 1);
}

#[test]
fn a_passed_date_stays_passed() {
    let op = Operation::DatePassed("2025-06-01".into());
    let on_the_day = date_result(op.clone(), "2025-06-01", &Ok((2025, 6, 1)), Clock { date: (2025, 6, 1), time: (0, 0, 0, 0), zone: None });
    let later = date_result(op, "2025-06-01", &Ok((2025, 6, 1)), Clock { date: (2026, 1, 1), time: (0, 0, 0, 0), zone: None });
    assert_eq!(on_the_day.status, OperationStatus::Triggered);
    assert_eq!(later.status, OperationStatus::Triggered);
    assert_eq!(later.detail, on_the_day.detail);
}

#[test]
fn a_resolved_shorthand_reads_back_as_the_context_reference() {
    let ctx = Some(GitContext {
        forge: "github".to_string(),
        owner: "tokio-rs".to_string(),
        repo: "tokio".to_string(),
    });
    let issue = resolve_shorthand("#5432", &ctx).unwrap();
    let r = grammar::parse_file("x.rs", &format!("// REMIND-ME-TO: x pr_merged={issue}"));
    match first_op(&r) {
        Operation::PrMerged(i) => {
            assert_eq!(i.forge_ref.owner, "tokio-rs");
            assert_eq!(i.forge_ref.repo, "tokio");
            assert_eq!(i.number, 5432);
        }
        other => panic!("expected PrMerged, got {other:?}"),
    }
    let tag = resolve_shorthand("@>=1.0", &ctx).unwrap();
    let r = parser::parse_file("x.rs", &format!("// REMIND-ME-TO: x tag_exists={tag}"));
    match first_op(&r) {
        Operation::TagExists(t) => assert_eq!(t.value, ">=1.0"),
        other => panic!("expected TagExists, got {other:?}"),
    }
}

fn shape(r: &remind_me_to::errors::ScanResult) -> (Vec<(usize, String, usize)>, Vec<usize>) {
    let rems = r
        .reminders
        .iter()
        .map(|m| (m.line, m.description.clone(), m.operations.len()))
        .collect();
    let errs = r
        .errors
        .iter()
        .map(|e| match e {
            remind_me_to::errors::ScanError::Parse { line, .. } => *line,
            _ => 0,
        })
        .collect();
    (rems, errs)
}

#[test]
fn parsing_appended_contents_shifts_the_second_part() {
    let a = "// REMIND-ME-TO: one pr_merged=github:a/b#1\nfn x() {}";
    let b = "// REMIND-ME-TO: two date_passed=2025-02-30\n// REMIND-ME-TO: three";
    let whole = format!("{a}\n{b}");
    let (ra, ea) = shape(&parser::parse_file("f.rs", a));
    let (rb, eb) = shape(&parser::parse_file("f.rs", b));
    let (rw, ew) = shape(&parser::parse_file("f.rs", &whole));
    let mut expected_r = ra.clone();
    expected_r.extend(rb.into_iter().map(|(l, d, n)| (l + 2, d, n)));
    let mut expected_e = ea.clone();
    expected_e.extend(eb.into_iter().map(|l| l + 2));
    assert_eq!(rw, expected_r);
    assert_eq!(ew, expected_e);
    assert_eq!(ew, vec![3]);
}

#[test]
fn results_stand_at_marker_lines_in_order() {
    let content = "x\n// remind-me-to: a pr_merged=github:a/b#1\ny\n// REMIND-ME-TO: b\n";
    let (r, e) = shape(&parser::parse_file("f.rs", content));
    assert_eq!(r.iter().map(|x| x.0).collect::<Vec<_>>(), vec![2, 4]);
    assert!(e.is_empty());
    let (r, e) = shape(&parser::parse_file("f.rs", "no markers here\nat all"));
    assert!(r.is_empty() && e.is_empty());
}

#[test]
fn every_github_url_form_reads_back() {
    for url in [
        "git@github.com:own/rep",
        "git@github.com:own/rep.git",
        "ssh://git@github.com/own/rep",
        "ssh://git@github.com/own/rep.git",
        "https://github.com/own/rep",
        "https://github.com/own/rep.git",
        "http://github.com/own/rep",
        "http://github.com/own/rep.git",
    ] {
        let c = remind_me_to::scanner::git_context::parse_remote_url(url).unwrap();
        assert_eq!((c.forge.as_str(), c.owner.as_str(), c.repo.as_str()), ("github", "own", "rep"), "{url}");
    }
}

#[test]
fn a_datetime_with_an_offset_is_judged_in_that_zone() {
    let r = remind_me_to::ops::checker::check_date_passed("2000-01-01T10:00:00+05:00");
    assert_eq!(r.status, OperationStatus::Triggered);
    let r = remind_me_to::ops::checker::check_date_passed("2999-01-01T10:00:00-05:00");
    assert_eq!(r.status, OperationStatus::Pending);
}
