use remind_me_to::scanner::{grammar, parser};

fn date_ops(content: &str) -> Vec<(usize, usize)> {
    let mut out = Vec::new();
    for parse in [parser::parse_file, grammar::parse_file] {
        let r = parse("x.rs", content);
        let ops: usize = r.reminders.iter().map(|m| m.operations.len()).sum();
        out.push((ops, r.errors.len()));
    }
    out
}

#[test]
fn february_thirtieth_is_rejected() {
    assert_eq!(date_ops("// REMIND-ME-TO: x date_passed=2025-02-30"), vec![(0, 1), (0, 1)]);
}

#[test]
fn leap_day_is_accepted() {
    assert_eq!(date_ops("// REMIND-ME-TO: x date_passed=2024-02-29"), vec![(1, 0), (1, 0)]);
    assert_eq!(date_ops("// REMIND-ME-TO: x date_passed=2025-02-29"), vec![(0, 1), (0, 1)]);
}

#[test]
fn nonsense_after_t_is_rejected() {
    assert_eq!(date_ops("// REMIND-ME-TO: x date_passed=2025-06-01Tnonsense"), vec![(0, 1), (0, 1)]);
}

#[test]
fn rfc3339_times_are_accepted() {
    for v in [
        "2025-06-01T15:30:00Z",
        "2025-06-01t15:30:00z",
        "2025-06-01T15:30:00",
        "2025-06-01T15:30:00.123+02:00",
        "2025-06-01T23:59:60-05:30",
    ] {
        let line = format!("// REMIND-ME-TO: x date_passed={v}");
        assert_eq!(date_ops(&line), vec![(1, 0), (1, 0)], "{v}");
    }
}

#[test]
fn malformed_times_are_rejected() {
    for v in [
        "2025-06-01T24:00:00Z",
        "2025-06-01T15:60:00Z",
        "2025-06-01T15:30Z",
        "2025-06-01T15:30:00.Z",
        "2025-06-01T15:30:00+2:00",
        "2025-06-01T15:30:00+02:00x",
    ] {
        let line = format!("// REMIND-ME-TO: x date_passed={v}");
        assert_eq!(date_ops(&line), vec![(0, 1), (0, 1)], "{v}");
    }
}

#[test]
fn a_date_cut_inside_a_character_does_not_panic() {
    assert_eq!(date_ops("// REMIND-ME-TO: x date_passed=2025-06-0\u{e9}"), vec![(0, 1), (0, 1)]);
}
