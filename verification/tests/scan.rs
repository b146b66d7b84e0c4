use remind_me_to::errors::ScanError;
use remind_me_to::scanner::scan::{add_file, empty_scan, looks_binary};

#[test]
fn nul_bytes_mark_binary_content() {
    assert!(looks_binary(b"hello\x00world"));
    assert!(!looks_binary(b"hello world"));
    assert!(!looks_binary(b""));
}

#[test]
fn files_join_the_scan_in_order() {
    let mut acc = empty_scan();
    add_file(
        &mut acc,
        "a.rs",
        Ok("// REMIND-ME-TO: fix this pr_merged=github:foo/bar#1\n".to_string()),
    );
    add_file(
        &mut acc,
        "b.py",
        Ok("# remind-me-to: update tag_exists=github:a/b@>=2.0\n".to_string()),
    );
    add_file(&mut acc, "c.txt", Ok("no reminders here\n".to_string()));
    add_file(
        &mut acc,
        "bad.rs",
        Ok("// REMIND-ME-TO: fix pr_merged=invalid\n".to_string()),
    );
    add_file(
        &mut acc,
        "gone.rs",
        Err(std::io::Error::new(std::io::ErrorKind::NotFound, "gone")),
    );
    assert_eq!(acc.reminders.len(), 2);
    assert_eq!(acc.reminders[0].file, "a.rs");
    assert_eq!(acc.reminders[1].file, "b.py");
    assert_eq!(acc.errors.len(), 2);
    assert!(matches!(&acc.errors[0], ScanError::Parse { file, .. } if file == "bad.rs"));
    assert!(matches!(&acc.errors[1], ScanError::FileRead { path, .. } if path == "gone.rs"));
}
