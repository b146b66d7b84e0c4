use remind_me_to::ops::version::{check_version_constraint, is_prerelease, strip_version_prefix, Version};

fn tags(names: &[&str]) -> Vec<String> {
    names.iter().map(|s| s.to_string()).collect()
}

#[test]
fn greater_or_equal() {
    let t = tags(&["v1.9.0", "v2.0.0", "v2.1.3"]);
    assert!(check_version_constraint(">=2.0.0", &t).is_some());
}

#[test]
fn greater_than() {
    let t = tags(&["v1.0.0", "v1.5.0"]);
    assert!(check_version_constraint(">1.0.0", &t).is_some());
    assert!(check_version_constraint(">1.5.0", &t).is_none());
}

#[test]
fn less_than() {
    let t = tags(&["v1.0.0", "v2.0.0"]);
    assert!(check_version_constraint("<1.5.0", &t).is_some());
}

#[test]
fn less_or_equal() {
    let t = tags(&["v1.0.0", "v2.0.0"]);
    assert!(check_version_constraint("<=1.0.0", &t).is_some());
}

#[test]
fn exact_match() {
    let t = tags(&["v1.0.0", "v2.0.0"]);
    assert!(check_version_constraint("=2.0.0", &t).is_some());
    assert!(check_version_constraint("=1.5.0", &t).is_none());
}

#[test]
fn caret_constraint() {
    let t = tags(&["v1.9.0", "v2.0.0", "v2.5.1", "v3.0.0"]);
    let result = check_version_constraint("^2.0", &t);
    assert!(result.is_some());
}

#[test]
fn tilde_constraint() {
    let t = tags(&["v1.0.0", "v1.1.0", "v1.2.0", "v2.0.0"]);
    let result = check_version_constraint("~1.1", &t);
    assert!(result.is_some());
}

#[test]
fn wildcard_constraint() {
    let t = tags(&["v1.0.0"]);
    assert!(check_version_constraint("*", &t).is_some());
}

#[test]
fn skips_prerelease_by_default() {
    let t = tags(&["v3.0.0-beta.1"]);
    assert!(check_version_constraint(">=2.0.0", &t).is_none());
}

#[test]
fn includes_stable_versions_alongside_prereleases() {
    let t = tags(&["v2.0.0", "v3.0.0-beta.1"]);
    let result = check_version_constraint(">=2.0.0", &t);
    assert_eq!(result, Some("v2.0.0".to_string()));
}

#[test]
fn strips_v_prefix() {
    let t = tags(&["v1.0.0"]);
    assert!(check_version_constraint(">=1.0.0", &t).is_some());
}

#[test]
fn strips_capital_v_prefix() {
    let t = tags(&["V1.0.0"]);
    assert!(check_version_constraint(">=1.0.0", &t).is_some());
}

#[test]
fn no_prefix_also_works() {
    let t = tags(&["1.0.0"]);
    assert!(check_version_constraint(">=1.0.0", &t).is_some());
}

#[test]
fn skips_unparseable_tags() {
    let t = tags(&["v2.0.0"]);
    let result = check_version_constraint(">=1.0.0", &t);
    assert_eq!(result, Some("v2.0.0".to_string()));
}

#[test]
fn calver_comparison() {
    let t = tags(&["2024.12.01", "2025.01.15", "2025.03.01"]);
    assert!(check_version_constraint(">=2025.01", &t).is_some());
}

#[test]
fn four_segment_versions() {
    let t = tags(&["1.2.3.3", "1.2.3.4", "1.2.3.5"]);
    assert!(check_version_constraint(">=1.2.3.4", &t).is_some());
}

#[test]
fn invalid_constraint_returns_none() {
    let t = tags(&["v1.0.0"]);
    assert!(check_version_constraint("not_a_constraint!!!", &t).is_none());
}

#[test]
fn no_matching_tags() {
    let t = tags(&["v0.1.0", "v0.2.0"]);
    assert!(check_version_constraint(">=1.0.0", &t).is_none());
}

#[test]
fn empty_tags() {
    let t: Vec<String> = vec![];
    assert!(check_version_constraint(">=1.0.0", &t).is_none());
}

#[test]
fn behavior_example_1() {
    let t = tags(&["v1.9.0", "v2.0.0", "v2.1.3", "v3.0.0-beta.1"]);
    assert!(check_version_constraint(">=2.0.0", &t).is_some());
}

#[test]
fn behavior_example_2() {
    let t = tags(&["v1.9.0", "v2.0.0", "v2.5.1", "v3.0.0"]);
    assert!(check_version_constraint("^2.0", &t).is_some());
}

#[test]
fn behavior_example_3() {
    let t = tags(&["2024.12.01", "2025.01.15", "2025.03.01"]);
    assert!(check_version_constraint(">=2025.01", &t).is_some());
}

#[test]
fn behavior_example_4() {
    let t = tags(&["1.2.3.3", "1.2.3.4", "1.2.3.5"]);
    assert!(check_version_constraint(">=1.2.3.4", &t).is_some());
}

#[test]
fn strip_prefix_v() {
    assert_eq!(strip_version_prefix("v1.0.0"), "1.0.0");
    assert_eq!(strip_version_prefix("V1.0.0"), "1.0.0");
    assert_eq!(strip_version_prefix("1.0.0"), "1.0.0");
}

#[test]
fn prerelease_detection() {
    let v = Version::parse("1.0.0-beta.1").unwrap();
    assert!(is_prerelease(&v));

    let v = Version::parse("1.0.0").unwrap();
    assert!(!is_prerelease(&v));
}

// ---- which tag is reported ----

#[test]
fn first_matching_tag_in_list_order_is_reported() {
    let t = tags(&["v3.0.0", "v2.0.0", "v1.0.0"]);
    assert_eq!(check_version_constraint(">=2.0.0", &t), Some("v3.0.0".to_string()));
}

#[test]
fn prerelease_constraint_admits_prerelease_tags() {
    let t = tags(&["v3.0.0-beta.1"]);
    assert_eq!(
        check_version_constraint(">=3.0.0-0", &t),
        Some("v3.0.0-beta.1".to_string())
    );
}

#[test]
fn caret_keeps_the_major() {
    let t = tags(&["v3.0.0"]);
    assert_eq!(check_version_constraint("^2.0", &t), None);
    let t = tags(&["v1.9.0", "v2.0.0", "v2.5.1", "v3.0.0"]);
    assert_eq!(check_version_constraint("^2.0", &t), Some("v2.0.0".to_string()));
    let t = tags(&["v3.0.0", "v2.5.1"]);
    assert_eq!(check_version_constraint("^2.0", &t), Some("v2.5.1".to_string()));
}

#[test]
fn caret_on_zero_major_keeps_the_minor() {
    let t = tags(&["0.3.0", "0.2.9"]);
    assert_eq!(check_version_constraint("^0.2", &t), Some("0.2.9".to_string()));
}

#[test]
fn tilde_keeps_major_and_minor() {
    let t = tags(&["1.6.0", "1.5.9"]);
    assert_eq!(check_version_constraint("~1.5", &t), Some("1.5.9".to_string()));
    let t = tags(&["1.6.0"]);
    assert_eq!(check_version_constraint("~1.5", &t), None);
}
