//! The human-readable report, as a sequence of styled pieces of text: which
//! reminders are shown, in which order, and how each line reads. Painting
//! the styles is left to the terminal front end.
use vstd::prelude::*;

use crate::ops::types::{
    CheckResult, CheckResultModel, CheckedReminder, CheckedReminderModel, OperationResult,
    OperationResultModel, OperationStatus, Reminder, ReminderModel,
};
use crate::text::{decimal, owned, push_decimal, push_str};

verus! {

/// How a piece of text is shown on a terminal that has colors.
#[derive(Debug, Clone, Copy, PartialEq, Eq, Structural)]
pub enum Style {
    Plain,
    Bold,
    Dimmed,
    Cyan,
    Yellow,
    YellowBold,
    GreenBold,
    RedBold,
}

/// A piece of text with its style.
pub struct Segment {
    pub style: Style,
    pub text: String,
}

impl View for Segment {
    type V = (Style, Seq<char>);

    open spec fn view(&self) -> (Style, Seq<char>) {
        (self.style, self.text@)
    }
}

pub open spec fn segment_views(v: Seq<Segment>) -> Seq<(Style, Seq<char>)> {
    v.map_values(|s: Segment| s@)
}

/// The mark of a condition's state.
pub open spec fn indicator(s: OperationStatus) -> (Style, Seq<char>) {
    match s {
        OperationStatus::Triggered => (Style::GreenBold, "\u{2713}"@),
        OperationStatus::Pending => (Style::Dimmed, "\u{00b7}"@),
        OperationStatus::Error => (Style::RedBold, "!"@),
    }
}

/// `  {mark} {operation} ({detail})` and a line break.
pub open spec fn condition_segments(r: OperationResultModel) -> Seq<(Style, Seq<char>)> {
    seq![(Style::Plain, "  "@), indicator(r.status), (Style::Plain, " "@ + r.operation.text())] + match r.detail {
        Some(d) => seq![(Style::Plain, " ("@), (Style::Dimmed, d), (Style::Plain, ")"@)],
        None => seq![],
    } + seq![(Style::Plain, "\n"@)]
}

pub open spec fn conditions_segments(rs: Seq<OperationResultModel>) -> Seq<(Style, Seq<char>)>
    decreases rs.len(),
{
    if rs.len() == 0 {
        seq![]
    } else {
        conditions_segments(rs.drop_last()) + condition_segments(rs.last())
    }
}

/// `{file}:{line} {description}`, its conditions, and an empty line.
pub open spec fn reminder_segments(c: CheckedReminderModel) -> Seq<(Style, Seq<char>)> {
    seq![
        (Style::Cyan, c.reminder.file),
        (Style::Dimmed, ":"@),
        (Style::Yellow, decimal(c.reminder.line as nat)),
        (Style::Plain, " "@ + c.reminder.description + "\n"@),
    ] + conditions_segments(c.results) + seq![(Style::Plain, "\n"@)]
}

/// The reminders whose `triggered` is `which`, in order.
pub open spec fn with_state(rs: Seq<CheckedReminderModel>, which: bool) -> Seq<CheckedReminderModel>
    decreases rs.len(),
{
    if rs.len() == 0 {
        seq![]
    } else if rs.last().triggered == which {
        with_state(rs.drop_last(), which).push(rs.last())
    } else {
        with_state(rs.drop_last(), which)
    }
}

pub open spec fn reminders_segments(rs: Seq<CheckedReminderModel>) -> Seq<(Style, Seq<char>)>
    decreases rs.len(),
{
    if rs.len() == 0 {
        seq![]
    } else {
        reminders_segments(rs.drop_last()) + reminder_segments(rs.last())
    }
}

/// The report: with nothing triggered and not verbose, a one-line count;
/// otherwise the triggered reminders, then (verbose) the pending ones, then
/// a count line when something is triggered.
pub open spec fn text_report(m: CheckResultModel, verbose: bool) -> Seq<(Style, Seq<char>)> {
    let t = with_state(m.reminders, true);
    let p = with_state(m.reminders, false);
    if t.len() == 0 && !verbose {
        seq![
            (Style::Bold, decimal(m.reminders.len())),
            (Style::Plain, " reminder(s) found, "@),
            (Style::GreenBold, "0"@),
            (Style::Plain, " triggered.\n"@),
        ]
    } else {
        reminders_segments(t) + (if verbose && p.len() > 0 {
            seq![(Style::Dimmed, "--- Pending reminders ---"@), (Style::Plain, "\n\n"@)]
                + reminders_segments(p)
        } else {
            seq![]
        }) + (if t.len() > 0 {
            seq![
                (Style::YellowBold, decimal(t.len())),
                (Style::Plain, " triggered, "@),
                (Style::Dimmed, decimal(p.len())),
                (Style::Plain, " pending.\n"@),
            ]
        } else {
            seq![]
        })
    }
}

fn seg(out: &mut Vec<Segment>, style: Style, text: String)
    ensures
        segment_views(final(out)@) == segment_views(old(out)@).push((style, text@)),
{
    out.push(Segment { style, text });
    proof {
        assert(segment_views(final(out)@) =~= segment_views(old(out)@).push((style, text@)));
    }
}

fn decimal_string(n: u64) -> (s: String)
    ensures
        s@ == decimal(n as nat),
{
    let mut s = String::new();
    push_decimal(&mut s, n);
    proof {
        assert(s@ =~= decimal(n as nat));
    }
    s
}

fn push_condition(out: &mut Vec<Segment>, r: &OperationResult)
    ensures
        segment_views(final(out)@) == segment_views(old(out)@) + condition_segments(r@),
{
    let ghost start = segment_views(out@);
    seg(out, Style::Plain, owned("  "));
    match r.status {
        OperationStatus::Triggered => seg(out, Style::GreenBold, owned("\u{2713}")),
        OperationStatus::Pending => seg(out, Style::Dimmed, owned("\u{00b7}")),
        OperationStatus::Error => seg(out, Style::RedBold, owned("!")),
    }
    let mut op = owned(" ");
    r.operation.push_render(&mut op);
    seg(out, Style::Plain, op);
    match &r.detail {
        Some(d) => {
            seg(out, Style::Plain, owned(" ("));
            seg(out, Style::Dimmed, d.clone());
            seg(out, Style::Plain, owned(")"));
        },
        None => {},
    }
    seg(out, Style::Plain, owned("\n"));
    proof {
        assert(segment_views(out@) =~= start + condition_segments(r@));
    }
}

fn push_reminder(out: &mut Vec<Segment>, c: &CheckedReminder)
    ensures
        segment_views(final(out)@) == segment_views(old(out)@) + reminder_segments(c@),
{
    let ghost start = segment_views(out@);
    seg(out, Style::Cyan, c.reminder.file.clone());
    seg(out, Style::Dimmed, owned(":"));
    seg(out, Style::Yellow, decimal_string(c.reminder.line as u64));
    let mut head = owned(" ");
    head.append(c.reminder.description.as_str());
    push_str(&mut head, "\n");
    seg(out, Style::Plain, head);
    let ghost mid = segment_views(out@);
    let ghost rv = c@.results;
    let mut j: usize = 0;
    proof {
        assert(rv.take(0) =~= Seq::<OperationResultModel>::empty());
        assert(segment_views(out@) =~= mid + conditions_segments(rv.take(0)));
    }
    while j < c.results.len()
        invariant
            rv == c@.results,
            0 <= j <= c.results@.len(),
            segment_views(out@) == mid + conditions_segments(rv.take(j as int)),
        decreases c.results@.len() - j,
    {
        proof {
            assert(rv.take(j + 1).drop_last() =~= rv.take(j as int));
            assert(rv[j as int] == c.results@[j as int]@);
        }
        push_condition(out, &c.results[j]);
        j = j + 1;
    }
    seg(out, Style::Plain, owned("\n"));
    proof {
        assert(rv.take(j as int) =~= rv);
        assert(segment_views(out@) =~= start + reminder_segments(c@));
    }
}

/// Appends the reminders whose `triggered` is `which`; how many there were.
fn push_with_state(out: &mut Vec<Segment>, rs: &Vec<CheckedReminder>, which: bool) -> (n: usize)
    ensures
        segment_views(final(out)@) == segment_views(old(out)@) + reminders_segments(
            with_state(rs@.map_values(|c: CheckedReminder| c@), which),
        ),
        n == with_state(rs@.map_values(|c: CheckedReminder| c@), which).len(),
{
    let ghost m = rs@.map_values(|c: CheckedReminder| c@);
    let ghost start = segment_views(out@);
    let mut n: usize = 0;
    let mut i: usize = 0;
    proof {
        assert(m.take(0) =~= Seq::<CheckedReminderModel>::empty());
        assert(segment_views(out@) =~= start + reminders_segments(with_state(m.take(0), which)));
    }
    while i < rs.len()
        invariant
            m == rs@.map_values(|c: CheckedReminder| c@),
            0 <= i <= rs@.len(),
            n == with_state(m.take(i as int), which).len(),
            n <= i,
            segment_views(out@) == start + reminders_segments(with_state(m.take(i as int), which)),
        decreases rs@.len() - i,
    {
        let c = &rs[i];
        proof {
            assert(m.take(i + 1).drop_last() =~= m.take(i as int));
            assert(m[i as int] == c@);
        }
        if c.triggered == which {
            let ghost w = with_state(m.take(i as int), which);
            push_reminder(out, c);
            n = n + 1;
            proof {
                assert(w.push(c@).drop_last() =~= w);
                assert(with_state(m.take(i + 1), which) == w.push(c@));
            }
        }
        i = i + 1;
    }
    proof {
        assert(m.take(i as int) =~= m);
    }
    n
}

/// Format check results as human-readable text (the pieces to print, in order).
pub fn format_text(result: &CheckResult, verbose: bool) -> (out: Vec<Segment>)
    ensures
        segment_views(out@) == text_report(result@, verbose),
{
    let ghost m = result@;
    let mut triggered: usize = 0;
    let mut pending: usize = 0;
    let mut i: usize = 0;
    proof {
        assert(m.reminders.take(0) =~= Seq::<CheckedReminderModel>::empty());
    }
    while i < result.reminders.len()
        invariant
            m == result@,
            0 <= i <= result.reminders@.len(),
            triggered == with_state(m.reminders.take(i as int), true).len(),
            pending == with_state(m.reminders.take(i as int), false).len(),
            triggered + pending == i,
        decreases result.reminders@.len() - i,
    {
        proof {
            assert(m.reminders.take(i + 1).drop_last() =~= m.reminders.take(i as int));
            assert(m.reminders[i as int] == result.reminders@[i as int]@);
        }
        if result.reminders[i].triggered {
            triggered = triggered + 1;
        } else {
            pending = pending + 1;
        }
        i = i + 1;
    }
    proof {
        assert(m.reminders.take(i as int) =~= m.reminders);
    }
    let mut out: Vec<Segment> = Vec::new();
    if triggered == 0 && !verbose {
        seg(&mut out, Style::Bold, decimal_string(result.reminders.len() as u64));
        seg(&mut out, Style::Plain, owned(" reminder(s) found, "));
        seg(&mut out, Style::GreenBold, owned("0"));
        seg(&mut out, Style::Plain, owned(" triggered.\n"));
        proof {
            assert(segment_views(out@) =~= text_report(m, verbose));
        }
        return out;
    }
    push_with_state(&mut out, &result.reminders, true);
    let ghost after_t = segment_views(out@);
    if verbose && pending > 0 {
        seg(&mut out, Style::Dimmed, owned("--- Pending reminders ---"));
        seg(&mut out, Style::Plain, owned("\n\n"));
        push_with_state(&mut out, &result.reminders, false);
    }
    let ghost after_p = segment_views(out@);
    if triggered > 0 {
        seg(&mut out, Style::YellowBold, decimal_string(triggered as u64));
        seg(&mut out, Style::Plain, owned(" triggered, "));
        seg(&mut out, Style::Dimmed, decimal_string(pending as u64));
        seg(&mut out, Style::Plain, owned(" pending.\n"));
    }
    proof {
        assert(segment_views(out@) =~= text_report(m, verbose));
    }
    out
}

/// The dry-run listing of one reminder: `{file}:{line} {description}`, its
/// operations, one per line, and an empty line.
pub open spec fn listed_reminder(r: ReminderModel) -> Seq<(Style, Seq<char>)> {
    seq![
        (Style::Cyan, r.file),
        (Style::Dimmed, ":"@),
        (Style::Plain, decimal(r.line as nat) + " "@ + r.description + "\n"@),
    ] + listed_operations(r.operations) + seq![(Style::Plain, "\n"@)]
}

pub open spec fn listed_operations(ops: Seq<crate::ops::types::OperationModel>) -> Seq<(Style, Seq<char>)>
    decreases ops.len(),
{
    if ops.len() == 0 {
        seq![]
    } else {
        listed_operations(ops.drop_last()) + seq![
            (Style::Plain, "  "@),
            (Style::Dimmed, ops.last().text()),
            (Style::Plain, "\n"@),
        ]
    }
}

pub open spec fn listed_reminders(rs: Seq<ReminderModel>) -> Seq<(Style, Seq<char>)>
    decreases rs.len(),
{
    if rs.len() == 0 {
        seq![]
    } else {
        listed_reminders(rs.drop_last()) + listed_reminder(rs.last())
    }
}

/// The listing of a dry run, which checks nothing.
pub open spec fn dry_run_report(rs: Seq<ReminderModel>) -> Seq<(Style, Seq<char>)> {
    if rs.len() == 0 {
        seq![(Style::Plain, "No REMIND-ME-TO comments found.\n"@)]
    } else {
        seq![
            (Style::Plain, "Found "@),
            (Style::Bold, decimal(rs.len()) + " reminder(s)"@),
            (Style::Plain, " (dry run, no conditions checked):\n\n"@),
        ] + listed_reminders(rs)
    }
}

fn push_listed(out: &mut Vec<Segment>, r: &Reminder)
    ensures
        segment_views(final(out)@) == segment_views(old(out)@) + listed_reminder(r@),
{
    let ghost start = segment_views(out@);
    seg(out, Style::Cyan, r.file.clone());
    seg(out, Style::Dimmed, owned(":"));
    let mut head = decimal_string(r.line as u64);
    push_str(&mut head, " ");
    head.append(r.description.as_str());
    push_str(&mut head, "\n");
    seg(out, Style::Plain, head);
    let ghost mid = segment_views(out@);
    let ghost ov = r@.operations;
    let mut j: usize = 0;
    proof {
        assert(ov.take(0) =~= Seq::<crate::ops::types::OperationModel>::empty());
        assert(segment_views(out@) =~= mid + listed_operations(ov.take(0)));
    }
    while j < r.operations.len()
        invariant
            ov == r@.operations,
            0 <= j <= r.operations@.len(),
            segment_views(out@) == mid + listed_operations(ov.take(j as int)),
        decreases r.operations@.len() - j,
    {
        proof {
            assert(ov.take(j + 1).drop_last() =~= ov.take(j as int));
            assert(ov[j as int] == r.operations@[j as int]@);
        }
        seg(out, Style::Plain, owned("  "));
        seg(out, Style::Dimmed, r.operations[j].render());
        seg(out, Style::Plain, owned("\n"));
        j = j + 1;
    }
    seg(out, Style::Plain, owned("\n"));
    proof {
        assert(ov.take(j as int) =~= ov);
        assert(segment_views(out@) =~= start + listed_reminder(r@));
    }
}

/// Format the reminders found by a dry run (the pieces to print, in order).
pub fn format_dry_run(reminders: &[Reminder]) -> (out: Vec<Segment>)
    ensures
        segment_views(out@) == dry_run_report(crate::errors::reminder_views(reminders@)),
{
    let ghost rv = crate::errors::reminder_views(reminders@);
    let mut out: Vec<Segment> = Vec::new();
    if reminders.len() == 0 {
        seg(&mut out, Style::Plain, owned("No REMIND-ME-TO comments found.\n"));
        return out;
    }
    seg(&mut out, Style::Plain, owned("Found "));
    let mut count = decimal_string(reminders.len() as u64);
    push_str(&mut count, " reminder(s)");
    seg(&mut out, Style::Bold, count);
    seg(&mut out, Style::Plain, owned(" (dry run, no conditions checked):\n\n"));
    let ghost head = segment_views(out@);
    let mut i: usize = 0;
    proof {
        assert(rv.take(0) =~= Seq::<ReminderModel>::empty());
        assert(segment_views(out@) =~= head + listed_reminders(rv.take(0)));
    }
    while i < reminders.len()
        invariant
            rv == crate::errors::reminder_views(reminders@),
            0 <= i <= reminders@.len(),
            segment_views(out@) == head + listed_reminders(rv.take(i as int)),
        decreases reminders@.len() - i,
    {
        proof {
            assert(rv.take(i + 1).drop_last() =~= rv.take(i as int));
            assert(rv[i as int] == reminders@[i as int]@);
        }
        push_listed(&mut out, &reminders[i]);
        i = i + 1;
    }
    proof {
        assert(rv.take(i as int) =~= rv);
        assert(segment_views(out@) =~= dry_run_report(rv));
    }
    out
}

/// The text that a list of segments prints, styles aside.
pub open spec fn printed(segs: Seq<(Style, Seq<char>)>) -> Seq<char>
    decreases segs.len(),
{
    if segs.len() == 0 {
        seq![]
    } else {
        printed(segs.drop_last()) + segs.last().1
    }
}

/// The reminders whose `triggered` is `which` are those the filter keeps, in order.
pub proof fn lemma_with_state_filter(rs: Seq<CheckedReminderModel>, which: bool)
    ensures
        with_state(rs, which) == rs.filter(|c: CheckedReminderModel| c.triggered == which),
    decreases rs.len(),
{
    reveal(Seq::filter);
    if rs.len() > 0 {
        lemma_with_state_filter(rs.drop_last(), which);
    }
}

/// When no reminder is triggered and the report is not verbose, it prints
/// only the count line `{n} reminder(s) found, 0 triggered.`; otherwise it
/// lists the triggered reminders, then (verbose, and only if there are any)
/// the pending ones under a header, then, if any is triggered, the line
/// `{t} triggered, {p} pending.`.
pub proof fn lemma_text_report_shape(m: CheckResultModel, verbose: bool)
    ensures
        ({
            let t = m.reminders.filter(|c: CheckedReminderModel| c.triggered == true);
            let p = m.reminders.filter(|c: CheckedReminderModel| c.triggered == false);
            &&& t.len() == 0 && !verbose ==> printed(text_report(m, verbose)) == decimal(
                m.reminders.len(),
            ) + " reminder(s) found, 0 triggered.\n"@
            &&& !(t.len() == 0 && !verbose) ==> text_report(m, verbose) == reminders_segments(t) + (
            if verbose && p.len() > 0 {
                seq![(Style::Dimmed, "--- Pending reminders ---"@), (Style::Plain, "\n\n"@)]
                    + reminders_segments(p)
            } else {
                seq![]
            }) + (if t.len() > 0 {
                seq![
                    (Style::YellowBold, decimal(t.len())),
                    (Style::Plain, " triggered, "@),
                    (Style::Dimmed, decimal(p.len())),
                    (Style::Plain, " pending.\n"@),
                ]
            } else {
                seq![]
            })
        }),
{
    lemma_with_state_filter(m.reminders, true);
    lemma_with_state_filter(m.reminders, false);
    let segs = seq![
        (Style::Bold, decimal(m.reminders.len())),
        (Style::Plain, " reminder(s) found, "@),
        (Style::GreenBold, "0"@),
        (Style::Plain, " triggered.\n"@),
    ];
    reveal_with_fuel(printed, 5);
    reveal_strlit(" reminder(s) found, ");
    reveal_strlit("0");
    reveal_strlit(" triggered.\n");
    reveal_strlit(" reminder(s) found, 0 triggered.\n");
    assert(segs.drop_last().drop_last().drop_last().drop_last() =~= Seq::<(Style, Seq<char>)>::empty());
    assert(printed(segs) =~= decimal(m.reminders.len()) + " reminder(s) found, 0 triggered.\n"@);
}

} // verus!
