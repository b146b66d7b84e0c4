use remind_me_to::ops::types::{
    CheckResult, CheckedReminder, ForgeRef, IssueRef, Operation, OperationResult,
    OperationStatus, Reminder,
};
use remind_me_to::output::llm::format_llm;
use remind_me_to::output::status::{dry_run_status, exit_status};
use remind_me_to::output::text::{format_dry_run, format_text, Style};

fn op(n: u64) -> Operation {
    Operation::PrMerged(IssueRef {
        forge_ref: ForgeRef {
            forge: "github".into(),
            owner: "a".into(),
            repo: "b".into(),
        },
        number: n,
    })
}

fn reminder(line: usize, desc: &str, ops: Vec<Operation>) -> Reminder {
    Reminder {
        file: "src/x.rs".into(),
        line,
        description: desc.into(),
        operations: ops,
    }
}

fn checked(line: usize, triggered: bool, detail: Option<&str>) -> CheckedReminder {
    let status = if triggered {
        OperationStatus::Triggered
    } else {
        OperationStatus::Pending
    };
    CheckedReminder {
        reminder: reminder(line, "do it", vec![op(1)]),
        results: vec![OperationResult {
            operation: op(1),
            status,
            detail: detail.map(|d| d.to_string()),
        }],
        triggered,
    }
}

fn text_of(segments: &[remind_me_to::output::text::Segment]) -> String {
    segments.iter().map(|s| s.text.as_str()).collect()
}

#[test]
fn llm_report_with_nothing_triggered() {
    let result = CheckResult {
        reminders: vec![checked(1, false, None)],
        errors: vec![],
    };
    assert_eq!(
        format_llm(&result),
        "No reminders are currently triggered. No action needed.\n"
    );
}

#[test]
fn llm_report_numbers_triggered_reminders() {
    let result = CheckResult {
        reminders: vec![
            checked(3, false, None),
            checked(7, true, Some("merged 2025-01-15")),
        ],
        errors: vec![],
    };
    let expected = "The following 1 reminder(s) need attention:\n\n\
## Reminder 1\n\
- **File:** src/x.rs\n\
- **Line:** 7\n\
- **Description:** do it\n\
- **Conditions met:**\n  - `pr_merged=github:a/b#1`: MET \u{2014} merged 2025-01-15\n\
\n\
Please review each reminder and take the described action. The conditions that triggered these reminders indicate it's time to remove workarounds, update code, or complete cleanup tasks as described.\n";
    assert_eq!(format_llm(&result), expected);
}

#[test]
fn text_report_summary_when_nothing_triggered() {
    let result = CheckResult {
        reminders: vec![checked(1, false, None), checked(2, false, None)],
        errors: vec![],
    };
    let out = format_text(&result, false);
    assert_eq!(text_of(&out), "2 reminder(s) found, 0 triggered.\n");
    assert_eq!(out[0].style, Style::Bold);
    assert_eq!(out[2].style, Style::GreenBold);
}

#[test]
fn text_report_lists_triggered_then_pending_when_verbose() {
    let result = CheckResult {
        reminders: vec![checked(1, false, None), checked(2, true, Some("merged"))],
        errors: vec![],
    };
    let quiet = text_of(&format_text(&result, false));
    assert_eq!(
        quiet,
        "src/x.rs:2 do it\n  \u{2713} pr_merged=github:a/b#1 (merged)\n\n1 triggered, 1 pending.\n"
    );
    let verbose = text_of(&format_text(&result, true));
    assert_eq!(
        verbose,
        "src/x.rs:2 do it\n  \u{2713} pr_merged=github:a/b#1 (merged)\n\n\
--- Pending reminders ---\n\n\
src/x.rs:1 do it\n  \u{00b7} pr_merged=github:a/b#1\n\n\
1 triggered, 1 pending.\n"
    );
}

#[test]
fn dry_run_listing() {
    let none = format_dry_run(&[]);
    assert_eq!(text_of(&none), "No REMIND-ME-TO comments found.\n");
    let one = format_dry_run(&[reminder(4, "fix", vec![op(9)])]);
    assert_eq!(
        text_of(&one),
        "Found 1 reminder(s) (dry run, no conditions checked):\n\nsrc/x.rs:4 fix\n  pr_merged=github:a/b#9\n\n"
    );
}

#[test]
fn exit_codes() {
    let quiet = CheckResult {
        reminders: vec![checked(1, false, None)],
        errors: vec![],
    };
    assert_eq!(exit_status(0, &quiet), 0);
    let fired = CheckResult {
        reminders: vec![checked(1, true, None)],
        errors: vec![],
    };
    assert_eq!(exit_status(0, &fired), 1);
    assert_eq!(exit_status(1, &fired), 2);
    let failed = CheckResult {
        reminders: vec![],
        errors: vec!["x".into()],
    };
    assert_eq!(exit_status(0, &failed), 2);
    assert_eq!(dry_run_status(0), 0);
    assert_eq!(dry_run_status(3), 2);
}
