//! The check report written for a language model: the triggered reminders,
//! numbered, with the state of each of their conditions.
use vstd::prelude::*;

use crate::ops::types::{
    CheckResult, CheckResultModel, CheckedReminder, CheckedReminderModel, OperationResult,
    OperationResultModel, OperationStatus,
};
use crate::text::{decimal, owned, push_decimal, push_str};

verus! {

/// The reminders that are triggered, in order.
pub open spec fn triggered_of(rs: Seq<CheckedReminderModel>) -> Seq<CheckedReminderModel>
    decreases rs.len(),
{
    if rs.len() == 0 {
        seq![]
    } else if rs.last().triggered {
        triggered_of(rs.drop_last()).push(rs.last())
    } else {
        triggered_of(rs.drop_last())
    }
}

/// How a condition's state is written.
pub open spec fn status_word(s: OperationStatus) -> Seq<char> {
    match s {
        OperationStatus::Triggered => "MET"@,
        OperationStatus::Pending => "NOT MET"@,
        OperationStatus::Error => "ERROR"@,
    }
}

pub open spec fn detail_or_none(d: Option<Seq<char>>) -> Seq<char> {
    match d {
        Some(t) => t,
        None => "no details"@,
    }
}

/// ``  - `{operation}`: {state} — {detail}`` and a line break.
pub open spec fn condition_line(r: OperationResultModel) -> Seq<char> {
    "  - `"@ + r.operation.text() + "`: "@ + status_word(r.status) + " — "@ + detail_or_none(r.detail)
        + "\n"@
}

pub open spec fn condition_lines(rs: Seq<OperationResultModel>) -> Seq<char>
    decreases rs.len(),
{
    if rs.len() == 0 {
        seq![]
    } else {
        condition_lines(rs.drop_last()) + condition_line(rs.last())
    }
}

/// The section of the `n`-th triggered reminder.
pub open spec fn reminder_section(n: nat, c: CheckedReminderModel) -> Seq<char> {
    "## Reminder "@ + decimal(n) + "\n- **File:** "@ + c.reminder.file + "\n- **Line:** "@ + decimal(
        c.reminder.line as nat,
    ) + "\n- **Description:** "@ + c.reminder.description + "\n- **Conditions met:**\n"@
        + condition_lines(c.results) + "\n"@
}

/// The sections of the triggered reminders, numbered from 1.
pub open spec fn sections(ts: Seq<CheckedReminderModel>) -> Seq<char>
    decreases ts.len(),
{
    if ts.len() == 0 {
        seq![]
    } else {
        sections(ts.drop_last()) + reminder_section(ts.len(), ts.last())
    }
}

pub open spec fn nothing_triggered() -> Seq<char> {
    "No reminders are currently triggered. No action needed.\n"@
}

pub open spec fn closing() -> Seq<char> {
    "Please review each reminder and take the described action. The conditions that triggered these reminders indicate it's time to remove workarounds, update code, or complete cleanup tasks as described.\n"@
}

/// The whole report.
pub open spec fn llm_text(m: CheckResultModel) -> Seq<char> {
    let ts = triggered_of(m.reminders);
    if ts.len() == 0 {
        nothing_triggered()
    } else {
        "The following "@ + decimal(ts.len()) + " reminder(s) need attention:\n\n"@ + sections(ts)
            + closing()
    }
}

fn push_condition(s: &mut String, r: &OperationResult)
    ensures
        final(s)@ == old(s)@ + condition_line(r@),
{
    push_str(s, "  - `");
    r.operation.push_render(s);
    push_str(s, "`: ");
    match r.status {
        OperationStatus::Triggered => push_str(s, "MET"),
        OperationStatus::Pending => push_str(s, "NOT MET"),
        OperationStatus::Error => push_str(s, "ERROR"),
    }
    push_str(s, " — ");
    match &r.detail {
        Some(d) => s.append(d.as_str()),
        None => push_str(s, "no details"),
    }
    push_str(s, "\n");
    proof {
        assert(final(s)@ =~= old(s)@ + condition_line(r@));
    }
}

fn push_section(s: &mut String, n: u64, c: &CheckedReminder)
    ensures
        final(s)@ == old(s)@ + reminder_section(n as nat, c@),
{
    let ghost start = s@;
    push_str(s, "## Reminder ");
    push_decimal(s, n);
    push_str(s, "\n- **File:** ");
    s.append(c.reminder.file.as_str());
    push_str(s, "\n- **Line:** ");
    push_decimal(s, c.reminder.line as u64);
    push_str(s, "\n- **Description:** ");
    s.append(c.reminder.description.as_str());
    push_str(s, "\n- **Conditions met:**\n");
    let ghost head = s@;
    let ghost rv = c@.results;
    let mut j: usize = 0;
    proof {
        assert(rv.take(0) =~= Seq::<OperationResultModel>::empty());
        assert(s@ =~= head + condition_lines(rv.take(0)));
    }
    while j < c.results.len()
        invariant
            rv == c@.results,
            0 <= j <= c.results@.len(),
            s@ == head + condition_lines(rv.take(j as int)),
        decreases c.results@.len() - j,
    {
        proof {
            assert(rv.take(j + 1).drop_last() =~= rv.take(j as int));
            assert(rv[j as int] == c.results@[j as int]@);
        }
        push_condition(s, &c.results[j]);
        j = j + 1;
    }
    push_str(s, "\n");
    proof {
        assert(rv.take(j as int) =~= rv);
        assert(final(s)@ =~= start + reminder_section(n as nat, c@));
    }
}

/// Format check results as an LLM-friendly prompt (the text to print).
pub fn format_llm(result: &CheckResult) -> (s: String)
    ensures
        s@ == llm_text(result@),
{
    let ghost rs = result@.reminders;
    let mut body = String::new();
    let mut count: u64 = 0;
    let mut i: usize = 0;
    proof {
        assert(rs.take(0) =~= Seq::<CheckedReminderModel>::empty());
    }
    while i < result.reminders.len()
        invariant
            rs == result@.reminders,
            0 <= i <= result.reminders@.len(),
            count == triggered_of(rs.take(i as int)).len(),
            count <= i,
            body@ == sections(triggered_of(rs.take(i as int))),
        decreases result.reminders@.len() - i,
    {
        let c = &result.reminders[i];
        proof {
            assert(rs.take(i + 1).drop_last() =~= rs.take(i as int));
            assert(rs[i as int] == c@);
        }
        if c.triggered {
            let ghost t = triggered_of(rs.take(i as int));
            count = count + 1;
            push_section(&mut body, count, c);
            proof {
                assert(t.push(c@).drop_last() =~= t);
                assert(triggered_of(rs.take(i + 1)) == t.push(c@));
            }
        }
        i = i + 1;
    }
    proof {
        assert(rs.take(i as int) =~= rs);
    }
    if count == 0 {
        return owned("No reminders are currently triggered. No action needed.\n");
    }
    let mut s = owned("The following ");
    push_decimal(&mut s, count);
    push_str(&mut s, " reminder(s) need attention:\n\n");
    s.append(body.as_str());
    push_str(
        &mut s,
        "Please review each reminder and take the described action. The conditions that triggered these reminders indicate it's time to remove workarounds, update code, or complete cleanup tasks as described.\n",
    );
    proof {
        assert(s@ =~= llm_text(result@));
    }
    s
}

/// Each condition line names the condition's state in words: `MET` for a
/// triggered condition, `NOT MET` for a pending one, `ERROR` for one that
/// could not be checked; the three words differ, so a pending condition is
/// never reported as met.
pub proof fn lemma_condition_words(r: OperationResultModel)
    ensures
        condition_line(r) == "  - `"@ + r.operation.text() + "`: "@ + (match r.status {
            OperationStatus::Triggered => "MET"@,
            OperationStatus::Pending => "NOT MET"@,
            OperationStatus::Error => "ERROR"@,
        }) + " — "@ + detail_or_none(r.detail) + "\n"@,
        status_word(OperationStatus::Triggered) != status_word(OperationStatus::Pending),
        status_word(OperationStatus::Triggered) != status_word(OperationStatus::Error),
        status_word(OperationStatus::Pending) != status_word(OperationStatus::Error),
{
    reveal_strlit("MET");
    reveal_strlit("NOT MET");
    reveal_strlit("ERROR");
    assert("MET"@.len() != "NOT MET"@.len());
    assert("MET"@.len() != "ERROR"@.len());
    assert("NOT MET"@.len() != "ERROR"@.len());
}

} // verus!
