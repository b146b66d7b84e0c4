//! The exit status of a run.
use vstd::prelude::*;

use crate::ops::types::{CheckResult, CheckResultModel};

verus! {

/// 2 when the scan or the checks reported errors, else 1 when a reminder is
/// triggered, else 0.
pub open spec fn run_status(scan_errors: nat, m: CheckResultModel) -> u8 {
    if scan_errors > 0 || m.errors.len() > 0 {
        2
    } else if exists|i: int| 0 <= i < m.reminders.len() && #[trigger] m.reminders[i].triggered {
        1
    } else {
        0
    }
}

/// The exit status after checking (see `run_status`).
pub fn exit_status(scan_errors: usize, result: &CheckResult) -> (code: u8)
    ensures
        code == run_status(scan_errors as nat, result@),
{
    if scan_errors > 0 || result.errors.len() > 0 {
        return 2;
    }
    let mut i: usize = 0;
    while i < result.reminders.len()
        invariant
            scan_errors == 0,
            result@.errors.len() == 0,
            0 <= i <= result.reminders@.len(),
            forall|k: int| 0 <= k < i ==> !(#[trigger] result@.reminders[k]).triggered,
        decreases result.reminders@.len() - i,
    {
        if result.reminders[i].triggered {
            assert(result@.reminders[i as int].triggered);
            return 1;
        }
        i = i + 1;
    }
    0
}

/// The exit status of a dry run: 2 when the scan reported errors, else 0.
pub fn dry_run_status(scan_errors: usize) -> (code: u8)
    ensures
        code == (if scan_errors > 0 {
            2u8
        } else {
            0u8
        }),
{
    if scan_errors > 0 {
        2
    } else {
        0
    }
}

/// The exit status: 2 whenever the scan or the checks reported an error;
/// otherwise 1 whenever any reminder, at any position, is triggered, and 0
/// exactly when none is.
pub proof fn lemma_exit_status(scan_errors: nat, m: CheckResultModel)
    ensures
        scan_errors > 0 || m.errors.len() > 0 ==> run_status(scan_errors, m) == 2,
        forall|i: int|
            0 <= i < m.reminders.len() && #[trigger] m.reminders[i].triggered && scan_errors == 0
                && m.errors.len() == 0 ==> run_status(scan_errors, m) == 1,
        scan_errors == 0 && m.errors.len() == 0 ==> (run_status(scan_errors, m) == 0 <==> forall|
            i: int,
        | 0 <= i < m.reminders.len() ==> !(#[trigger] m.reminders[i]).triggered),
        run_status(scan_errors, m) <= 2,
{
}

} // verus!
