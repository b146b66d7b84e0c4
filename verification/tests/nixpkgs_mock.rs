use remind_me_to::ops::nixpkgs::mock::MockNixpkgsClient;
use remind_me_to::ops::types::NixpkgsBackend;

#[test]
fn mock_returns_versions() {
    let mut mock = MockNixpkgsClient::new();
    mock.version_responses.insert(
        "redis".into(),
        Ok(vec!["7.2.4".into(), "7.0.12".into(), "6.2.6".into()]),
    );

    let versions = mock.get_package_versions("redis").unwrap();
    assert_eq!(versions.len(), 3);
    assert_eq!(versions[0], "7.2.4");
    assert_eq!(mock.call_count("get_package_versions"), 1);
}

#[test]
fn mock_unknown_package_returns_empty() {
    let mock = MockNixpkgsClient::new();
    let versions = mock.get_package_versions("nonexistent").unwrap();
    assert!(versions.is_empty());
}

#[test]
fn nixpkgs_mock_call_counting() {
    let mock = MockNixpkgsClient::new();
    let _ = mock.get_package_versions("a");
    let _ = mock.get_package_versions("b");
    let _ = mock.get_package_versions("a");
    assert_eq!(mock.call_count("get_package_versions"), 3);
}
