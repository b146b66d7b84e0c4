use remind_me_to::errors::{CheckError, FatalError, ScanError};

#[test]
fn scan_error_parse_display() {
    let err = ScanError::Parse {
        file: "src/main.rs".to_string(),
        line: 42,
        col: 10,
        message: "unexpected token".to_string(),
        span: 100..115,
        source_line: "// REMIND-ME-TO: fix this pr_merged=bad".to_string(),
        expected: vec!["forge reference".to_string()],
        found: Some("bad".to_string()),
    };
    assert_eq!(err.render(), "parse error in src/main.rs:42: unexpected token");
}

#[test]
fn scan_error_file_read_display() {
    let err = ScanError::FileRead {
        path: "/tmp/missing.rs".to_string(),
        source: std::io::Error::new(std::io::ErrorKind::NotFound, "not found"),
    };
    assert!(err.render().contains("failed to read /tmp/missing.rs"));
}

#[test]
fn scan_error_walk_display() {
    let err = ScanError::Walk {
        path: "/tmp".to_string(),
        message: "permission denied".to_string(),
    };
    assert!(err.render().contains("failed to walk directory /tmp"));
}

#[test]
fn check_error_api_display() {
    let err = CheckError::ApiError {
        operation: "pr_merged=github:foo/bar#1".to_string(),
        message: "not found".to_string(),
        status: Some(404),
        retryable: false,
    };
    assert!(err.render().contains("API request failed"));
}

#[test]
fn check_error_rate_limited_display() {
    let err = CheckError::RateLimited {
        forge: "github".to_string(),
        reset_at: "2025-06-01T00:00:00Z".to_string(),
    };
    assert!(err.render().contains("rate limited by github"));
}

#[test]
fn check_error_auth_display() {
    let err = CheckError::AuthRequired {
        forge: "github".to_string(),
    };
    assert!(err.render().contains("authentication required"));
}

#[test]
fn check_error_network_display() {
    let err = CheckError::Network {
        message: "connection refused".to_string(),
    };
    assert!(err.render().contains("network error"));
}

#[test]
fn fatal_error_config_display() {
    let err = FatalError::Config {
        message: "missing token".to_string(),
    };
    assert!(err.render().contains("configuration error"));
}

#[test]
fn fatal_error_no_input_display() {
    let err = FatalError::NoInput;
    assert_eq!(err.render(), "no files to scan");
}

// ---- exact messages ----

#[test]
fn check_error_messages_are_exact() {
    let api = CheckError::ApiError {
        operation: "/repos/a/b/pulls/1".to_string(),
        message: "HTTP 500".to_string(),
        status: Some(500),
        retryable: true,
    };
    assert_eq!(api.render(), "API request failed for /repos/a/b/pulls/1: HTTP 500");
    let rate = CheckError::RateLimited {
        forge: "github".to_string(),
        reset_at: "unknown".to_string(),
    };
    assert_eq!(rate.render(), "rate limited by github, resets at unknown");
    let auth = CheckError::AuthRequired {
        forge: "github".to_string(),
    };
    assert_eq!(auth.render(), "authentication required for github");
    let net = CheckError::Network {
        message: "timeout".to_string(),
    };
    assert_eq!(net.render(), "network error: timeout");
}

#[test]
fn scan_error_walk_message_is_exact() {
    let err = ScanError::Walk {
        path: "<walk error>".to_string(),
        message: "loop detected".to_string(),
    };
    assert_eq!(err.render(), "failed to walk directory <walk error>: loop detected");
}

#[test]
fn file_read_message_carries_the_io_text() {
    let err = ScanError::FileRead {
        path: "a.rs".to_string(),
        source: std::io::Error::new(std::io::ErrorKind::Other, "disk gone"),
    };
    assert_eq!(err.render(), "failed to read a.rs: disk gone");
}

#[test]
fn fatal_config_message_is_exact() {
    let err = FatalError::Config {
        message: "bad".to_string(),
    };
    assert_eq!(err.render(), "configuration error: bad");
}

#[test]
fn duplicate_keeps_every_field() {
    let api = CheckError::ApiError {
        operation: "op".to_string(),
        message: "m".to_string(),
        status: Some(404),
        retryable: false,
    };
    match api.duplicate() {
        CheckError::ApiError {
            operation,
            message,
            status,
            retryable,
        } => {
            assert_eq!(operation, "op");
            assert_eq!(message, "m");
            assert_eq!(status, Some(404));
            assert!(!retryable);
        }
        _ => panic!("expected ApiError"),
    }
}
