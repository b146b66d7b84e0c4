//! Scanning the files a walk found: which files are skipped as binary, and
//! how the reminders and errors of each file join those found before.
use vstd::prelude::*;

use crate::errors::{reminder_views, scan_error_views, ScanError, ScanErrorModel, ScanResult};
use crate::scanner::grammar::{lines_errors, lines_reminders, parse_file};
use crate::text::{lines, owned};

verus! {

/// Whether the start of a file holds a NUL byte (then the file is binary
/// and is not scanned).
pub fn looks_binary(head: &[u8]) -> (b: bool)
    ensures
        b == head@.contains(0u8),
{
    let mut i: usize = 0;
    while i < head.len()
        invariant
            0 <= i <= head@.len(),
            forall|k: int| 0 <= k < i ==> head@[k] != 0u8,
        decreases head@.len() - i,
    {
        if head[i] == 0 {
            assert(head@[i as int] == 0u8);
            return true;
        }
        i = i + 1;
    }
    false
}

/// An empty scan result.
pub fn empty_scan() -> (r: ScanResult)
    ensures
        r.reminders@.len() == 0,
        r.errors@.len() == 0,
{
    ScanResult { reminders: Vec::new(), errors: Vec::new() }
}

/// Adds one file to a scan: its reminders and parse errors when it could be
/// read, or the read error.
pub fn add_file(acc: &mut ScanResult, path: &str, read: Result<String, std::io::Error>)
    requires
        read matches Ok(c) ==> c@.len() <= usize::MAX / 4,
    ensures
        match read {
            Ok(c) => {
                &&& reminder_views(final(acc).reminders@) == reminder_views(old(acc).reminders@)
                    + lines_reminders(path@, lines(c@))
                &&& scan_error_views(final(acc).errors@) == scan_error_views(old(acc).errors@)
                    + lines_errors(path@, lines(c@))
            },
            Err(_) => {
                &&& reminder_views(final(acc).reminders@) == reminder_views(old(acc).reminders@)
                &&& scan_error_views(final(acc).errors@) == scan_error_views(old(acc).errors@).push(
                    ScanErrorModel::FileRead { path: path@ },
                )
            },
        },
{
    match read {
        Ok(content) => {
            let ghost r0 = acc.reminders@;
            let ghost e0 = acc.errors@;
            let found = parse_file(path, content.as_str());
            let mut rs = found.reminders;
            let mut es = found.errors;
            acc.reminders.append(&mut rs);
            acc.errors.append(&mut es);
            proof {
                assert(reminder_views(acc.reminders@) =~= reminder_views(r0) + lines_reminders(
                    path@,
                    lines(content@),
                ));
                assert(scan_error_views(acc.errors@) =~= scan_error_views(e0) + lines_errors(
                    path@,
                    lines(content@),
                ));
            }
        },
        Err(e) => {
            let ghost e0 = acc.errors@;
            acc.errors.push(ScanError::FileRead { path: owned(path), source: e });
            proof {
                assert(scan_error_views(acc.errors@) =~= scan_error_views(e0).push(
                    ScanErrorModel::FileRead { path: path@ },
                ));
            }
        },
    }
}

} // verus!
