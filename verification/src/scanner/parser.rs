//! The REMIND-ME-TO comment parser that splits the text after the marker on
//! whitespace: `key=value` tokens whose key is an operation name are
//! operations (or errors, when the value is malformed); all else is the
//! description.
use vstd::prelude::*;

use crate::dates::{days_in_month, month_days, parse_time, time_parse};
use crate::errors::{ScanError, ScanErrorModel, ScanResult, reminder_views, scan_error_views};
use crate::ops::types::{Operation, OperationModel, Reminder, ReminderModel};
use crate::scanner::common::{
    kind_name, lemma_issue_ref_round_trip, lemma_kind_name, lemma_ref_ref_text, lemma_split_join,
    OpKind, RefError, RefFault, byte_split, inline_prefix_in, inline_prefix_ok, issue_ref_parse,
    locate_marker, op_kind, op_kind_of, parse_issue_ref, parse_ref_ref, ref_ref_parse,
    split_at_marker, split_bytes, starts_in,
};
use crate::text::{
    quoted_message,
    copy_range, find_char, index_of, join, lines, next_line, owned, parse_unsigned,
    parse_unsigned_in, push_chars, push_str, split_once, starts_with, to_string, tokenize, tokens,
    trim, trim_bounds, utf8_len, utf8_width, views, lemma_index_of,
};

verus! {

// ---------------------------------------------------------------------------
// Specification
// ---------------------------------------------------------------------------

/// Whether the text before the marker looks like the inside of a comment: it
/// starts with a comment prefix, or holds one that no open `"` precedes.
pub open spec fn comment_before(before: Seq<char>) -> bool {
    let t = trim(before);
    ||| starts_with(t, "//"@)
    ||| starts_with(t, "#"@)
    ||| starts_with(t, "--"@)
    ||| starts_with(t, "/*"@)
    ||| starts_with(t, "<!--"@)
    ||| starts_with(t, "%"@)
    ||| starts_with(t, ";"@)
    ||| starts_with(t, "*"@)
    ||| inline_prefix_ok(t, "//"@)
    ||| inline_prefix_ok(t, "#"@)
    ||| inline_prefix_ok(t, "--"@)
    ||| inline_prefix_ok(t, "/*"@)
    ||| inline_prefix_ok(t, "<!--"@)
    ||| inline_prefix_ok(t, "%"@)
    ||| inline_prefix_ok(t, ";"@)
    ||| inline_prefix_ok(t, "*"@)
}

/// The message for a malformed reference value (`issue` for `#` references).
pub open spec fn ref_message(value: Seq<char>, fault: RefFault, issue: bool) -> Seq<char> {
    match fault {
        RefFault::NoForge => "expected forge prefix (e.g., 'github:') in '"@ + value + "'"@,
        RefFault::NoOwnerRepo(forge) => "expected 'owner/repo' after '"@ + forge + ":' in '"@
            + value + "'"@,
        RefFault::EmptyOwner => "empty owner in '"@ + value + "'"@,
        RefFault::EmptyRepo => "empty repo in '"@ + value + "'"@,
        RefFault::MissingSigil(after) => if issue {
            "expected '#' after repo in '"@ + value + "', got '"@ + after + "'"@
        } else {
            "expected '@' after repo in '"@ + value + "', got '"@ + after + "'"@
        },
        RefFault::BadNumber(rest) => "expected issue/PR number after '#', got '"@ + rest + "'"@,
        RefFault::EmptyValue => "expected value after '@' in '"@ + value + "'"@,
    }
}

/// The three `-`-separated parts of a date, if there are exactly three.
pub open spec fn three_parts(d: Seq<char>) -> Option<(Seq<char>, Seq<char>, Seq<char>)> {
    match split_once(d, '-') {
        Some((a, r)) => match split_once(r, '-') {
            Some((b, c)) => if index_of(c, '-') is None {
                Some((a, b, c))
            } else {
                None
            },
            None => None,
        },
        None => None,
    }
}

pub open spec fn u32_max() -> nat {
    u32::MAX as nat
}

/// Validates a `date_passed` value: `YYYY-MM-DD` (year 1970..=2100, month
/// 1..=12, a day of that month), optionally followed by `T` or `t` and an
/// RFC 3339 time. The value itself is the result.
pub open spec fn date_value_parse(value: Seq<char>) -> Result<Seq<char>, Seq<char>> {
    let format_err = "expected date in YYYY-MM-DD format, got '"@ + value + "'"@;
    match byte_split(value, 10) {
        Err(_) => Err(format_err),
        Ok(k) => match three_parts(value.take(k as int)) {
            None => Err(format_err),
            Some((y, m, d)) => match parse_unsigned(y, u32_max()) {
                None => Err("invalid year in '"@ + value + "'"@),
                Some(yv) => match parse_unsigned(m, u32_max()) {
                    None => Err("invalid month in '"@ + value + "'"@),
                    Some(mv) => match parse_unsigned(d, u32_max()) {
                        None => Err("invalid day in '"@ + value + "'"@),
                        Some(dv) => if !(1970 <= yv <= 2100) {
                            Err("year out of range in '"@ + value + "'"@)
                        } else if !(1 <= mv <= 12) {
                            Err("month out of range in '"@ + value + "'"@)
                        } else if !(1 <= dv <= days_in_month(yv as int, mv as int)) {
                            Err("day out of range in '"@ + value + "'"@)
                        } else if k < value.len() && value[k as int] != 'T' && value[k as int]
                            != 't' {
                            Err("expected 'T' after date in RFC 3339 datetime, got '"@ + value
                                + "'"@)
                        } else if k < value.len() && time_parse(value.skip(k as int + 1)) is None {
                            Err("invalid time in RFC 3339 datetime '"@ + value + "'"@)
                        } else {
                            Ok(value)
                        },
                    },
                },
            },
        },
    }
}

/// The operation of kind `kind` with value `value`, or the error message.
pub open spec fn operation_parse(kind: OpKind, value: Seq<char>) -> Result<
    OperationModel,
    Seq<char>,
> {
    match kind {
        OpKind::PrMerged => match issue_ref_parse(value) {
            Ok(r) => Ok(OperationModel::PrMerged(r)),
            Err(f) => Err(ref_message(value, f, true)),
        },
        OpKind::PrClosed => match issue_ref_parse(value) {
            Ok(r) => Ok(OperationModel::PrClosed(r)),
            Err(f) => Err(ref_message(value, f, true)),
        },
        OpKind::PrReleased => match issue_ref_parse(value) {
            Ok(r) => Ok(OperationModel::PrReleased(r)),
            Err(f) => Err(ref_message(value, f, true)),
        },
        OpKind::IssueClosed => match issue_ref_parse(value) {
            Ok(r) => Ok(OperationModel::IssueClosed(r)),
            Err(f) => Err(ref_message(value, f, true)),
        },
        OpKind::TagExists => match ref_ref_parse(value) {
            Ok(r) => Ok(OperationModel::TagExists(r)),
            Err(f) => Err(ref_message(value, f, false)),
        },
        OpKind::CommitReleased => match ref_ref_parse(value) {
            Ok(r) => Ok(OperationModel::CommitReleased(r)),
            Err(f) => Err(ref_message(value, f, false)),
        },
        OpKind::BranchDeleted => match ref_ref_parse(value) {
            Ok(r) => Ok(OperationModel::BranchDeleted(r)),
            Err(f) => Err(ref_message(value, f, false)),
        },
        OpKind::DatePassed => match date_value_parse(value) {
            Ok(d) => Ok(OperationModel::DatePassed(d)),
            Err(m) => Err(m),
        },
        OpKind::NixpkgVersion => Err("unknown operation: nixpkg_version"@),
    }
}

/// What one whitespace-separated token contributes.
pub enum TokenOutcome {
    Op(OperationModel),
    Invalid { key: Seq<char>, value: Seq<char>, message: Seq<char> },
    Word,
}

/// A token `key=value` whose key is one of the eight operation names this
/// parser knows is an operation or an error; every other token is a word.
pub open spec fn token_outcome(t: Seq<char>) -> TokenOutcome {
    match split_once(t, '=') {
        None => TokenOutcome::Word,
        Some((key, value)) => match op_kind_of(key) {
            None => TokenOutcome::Word,
            Some(OpKind::NixpkgVersion) => TokenOutcome::Word,
            Some(kind) => match operation_parse(kind, value) {
                Ok(op) => TokenOutcome::Op(op),
                Err(message) => TokenOutcome::Invalid { key, value, message },
            },
        },
    }
}


pub open spec fn token_ops(toks: Seq<Seq<char>>) -> Seq<OperationModel>
    decreases toks.len(),
{
    if toks.len() == 0 {
        seq![]
    } else {
        token_ops(toks.drop_last()) + match token_outcome(toks.last()) {
            TokenOutcome::Op(op) => seq![op],
            _ => seq![],
        }
    }
}

pub open spec fn token_words(toks: Seq<Seq<char>>) -> Seq<Seq<char>>
    decreases toks.len(),
{
    if toks.len() == 0 {
        seq![]
    } else {
        token_words(toks.drop_last()) + match token_outcome(toks.last()) {
            TokenOutcome::Word => seq![toks.last()],
            _ => seq![],
        }
    }
}

/// The error a malformed operation token produces.
pub open spec fn token_error(file: Seq<char>, num: usize, line: Seq<char>, t: Seq<char>) -> Seq<
    ScanErrorModel,
> {
    match token_outcome(t) {
        TokenOutcome::Invalid { key, value, message } => seq![
            ScanErrorModel::Parse {
                file,
                line: num,
                col: 0,
                message,
                span_start: 0,
                span_end: utf8_len(t) as usize,
                source_line: line,
                expected: seq!["valid value for "@ + key],
                found: Some(value),
            },
        ],
        _ => seq![],
    }
}

pub open spec fn token_errors(file: Seq<char>, num: usize, line: Seq<char>, toks: Seq<Seq<char>>) -> Seq<
    ScanErrorModel,
>
    decreases toks.len(),
{
    if toks.len() == 0 {
        seq![]
    } else {
        token_errors(file, num, line, toks.drop_last()) + token_error(file, num, line, toks.last())
    }
}

/// The text after the marker, when the line holds a marker inside a comment.
pub open spec fn remainder_of(line: Seq<char>) -> Option<Seq<char>> {
    match split_at_marker(line) {
        Some((before, after)) => if comment_before(before) {
            Some(after)
        } else {
            None
        },
        None => None,
    }
}

/// The reminder a line holds: its operations, and its description (the
/// other tokens joined by single spaces). A marker line with no operation, no
/// description and no error holds none.
pub open spec fn line_reminders(file: Seq<char>, num: usize, line: Seq<char>) -> Seq<ReminderModel> {
    match remainder_of(line) {
        None => seq![],
        Some(rem) => {
            let toks = tokens(rem);
            let ops = token_ops(toks);
            let description = join(token_words(toks), " "@);
            if ops.len() == 0 && description.len() == 0 && token_errors(file, num, line, toks).len()
                == 0 {
                seq![]
            } else {
                seq![ReminderModel { file, line: num, description, operations: ops }]
            }
        },
    }
}

/// The errors a line holds, one per malformed operation token.
pub open spec fn line_errors(file: Seq<char>, num: usize, line: Seq<char>) -> Seq<ScanErrorModel> {
    match remainder_of(line) {
        None => seq![],
        Some(rem) => token_errors(file, num, line, tokens(rem)),
    }
}


/// Reminders of a sequence of lines, numbered from 1.
pub open spec fn lines_reminders(file: Seq<char>, ls: Seq<Seq<char>>) -> Seq<ReminderModel>
    decreases ls.len(),
{
    if ls.len() == 0 {
        seq![]
    } else {
        lines_reminders(file, ls.drop_last()) + line_reminders(file, ls.len() as usize, ls.last())
    }
}

/// Errors of a sequence of lines, numbered from 1.
pub open spec fn lines_errors(file: Seq<char>, ls: Seq<Seq<char>>) -> Seq<ScanErrorModel>
    decreases ls.len(),
{
    if ls.len() == 0 {
        seq![]
    } else {
        lines_errors(file, ls.drop_last()) + line_errors(file, ls.len() as usize, ls.last())
    }
}


// ---------------------------------------------------------------------------
// Implementation
// ---------------------------------------------------------------------------

/// Whether the text before the marker (`v[from..to]`) looks like the inside of a comment.
pub fn looks_like_comment(v: &Vec<char>, from: usize, to: usize) -> (b: bool)
    requires
        from <= to <= v@.len(),
    ensures
        b == comment_before(v@.subrange(from as int, to as int)),
{
    let (lo, hi) = trim_bounds(v, from, to);
    starts_in(v, lo, hi, "//") || starts_in(v, lo, hi, "#") || starts_in(v, lo, hi, "--")
        || starts_in(v, lo, hi, "/*") || starts_in(v, lo, hi, "<!--") || starts_in(v, lo, hi, "%")
        || starts_in(v, lo, hi, ";") || starts_in(v, lo, hi, "*") || inline_prefix_in(
        v,
        lo,
        hi,
        "//",
    ) || inline_prefix_in(v, lo, hi, "#") || inline_prefix_in(v, lo, hi, "--")
        || inline_prefix_in(v, lo, hi, "/*") || inline_prefix_in(v, lo, hi, "<!--")
        || inline_prefix_in(v, lo, hi, "%") || inline_prefix_in(v, lo, hi, ";")
        || inline_prefix_in(v, lo, hi, "*")
}

/// The message for a malformed reference value.
fn ref_error_message(value: &Vec<char>, fault: &RefError, issue: bool) -> (m: String)
    ensures
        m@ == ref_message(value@, fault@, issue),
{
    match fault {
        RefError::NoForge => quoted_message("expected forge prefix (e.g., 'github:') in '", value),
        RefError::NoOwnerRepo(forge) => {
            let mut m = owned("expected 'owner/repo' after '");
            push_chars(&mut m, forge);
            push_str(&mut m, ":' in '");
            push_chars(&mut m, value);
            push_str(&mut m, "'");
            proof {
                assert(m@ =~= ref_message(value@, fault@, issue));
            }
            m
        },
        RefError::EmptyOwner => quoted_message("empty owner in '", value),
        RefError::EmptyRepo => quoted_message("empty repo in '", value),
        RefError::MissingSigil(after) => {
            let mut m = if issue {
                owned("expected '#' after repo in '")
            } else {
                owned("expected '@' after repo in '")
            };
            push_chars(&mut m, value);
            push_str(&mut m, "', got '");
            push_chars(&mut m, after);
            push_str(&mut m, "'");
            proof {
                assert(m@ =~= ref_message(value@, fault@, issue));
            }
            m
        },
        RefError::BadNumber(rest) => quoted_message(
            "expected issue/PR number after '#', got '",
            rest,
        ),
        RefError::EmptyValue => quoted_message("expected value after '@' in '", value),
    }
}

fn date_format_error(value: &Vec<char>) -> (m: String)
    ensures
        m@ == "expected date in YYYY-MM-DD format, got '"@ + value@ + "'"@,
{
    quoted_message("expected date in YYYY-MM-DD format, got '", value)
}

/// Validates a `date_passed` value.
pub fn parse_date(value: &Vec<char>) -> (r: Result<String, String>)
    ensures
        match r {
            Ok(d) => date_value_parse(value@) == Ok::<_, Seq<char>>(d@),
            Err(m) => date_value_parse(value@) == Err::<Seq<char>, _>(m@),
        },
{
    let k = match split_bytes(value, 10) {
        Ok(k) => k,
        Err(_) => {
            return Err(date_format_error(value));
        },
    };
    let ghost dp = value@.take(k as int);
    proof {
        assert(value@.subrange(0, k as int) =~= dp);
        assert(dp.skip(0) =~= dp);
    }
    let d1 = match find_char(value, 0, '-') {
        Some(i) if i < k => i,
        _ => {
            proof {
                lemma_index_of(value@, '-');
                lemma_index_of(dp, '-');
                assert(value@.skip(0) =~= value@);
                if let Some(j) = index_of(dp, '-') {
                    assert(value@[j] == '-');
                }
            }
            return Err(date_format_error(value));
        },
    };
    proof {
        assert(value@.skip(0) =~= value@);
        lemma_index_of(value@, '-');
        crate::text::lemma_index_of_char(dp, '-', d1 as int);
    }
    let ghost r1 = dp.skip(d1 + 1);
    let d2 = match find_char(value, d1 + 1, '-') {
        Some(i) if i < k => i,
        _ => {
            proof {
                lemma_index_of(value@.skip(d1 + 1), '-');
                lemma_index_of(r1, '-');
                if let Some(j) = index_of(r1, '-') {
                    assert(value@.skip(d1 + 1)[j] == '-');
                }
            }
            return Err(date_format_error(value));
        },
    };
    proof {
        lemma_index_of(value@.skip(d1 + 1), '-');
        assert forall|j: int| 0 <= j < d2 - d1 - 1 implies r1[j] != '-' by {
            assert(r1[j] == value@.skip(d1 + 1)[j]);
        }
        assert(r1[d2 - d1 - 1] == value@.skip(d1 + 1)[d2 - d1 - 1]);
        crate::text::lemma_index_of_char(r1, '-', d2 - d1 - 1);
    }
    let ghost r2 = r1.skip(d2 - d1);
    let has_third = match find_char(value, d2 + 1, '-') {
        Some(i) => i < k,
        None => false,
    };
    proof {
        lemma_index_of(value@.skip(d2 + 1), '-');
        lemma_index_of(r2, '-');
        assert(r2 =~= value@.subrange(d2 + 1, k as int));
        if has_third {
            let j = index_of(value@.skip(d2 + 1), '-')->0;
            assert(r2[j] == '-');
        } else {
            if let Some(j) = index_of(r2, '-') {
                assert(value@.skip(d2 + 1)[j] == '-');
            }
        }
    }
    if has_third {
        return Err(date_format_error(value));
    }
    proof {
        assert(dp.take(d1 as int) =~= value@.subrange(0, d1 as int));
        assert(r1.take(d2 - d1 - 1) =~= value@.subrange(d1 + 1, d2 as int));
    }
    proof {
        assert(three_parts(dp) == Some(
            (
                value@.subrange(0, d1 as int),
                value@.subrange(d1 + 1, d2 as int),
                value@.subrange(d2 + 1, k as int),
            ),
        ));
    }
    let year = match parse_unsigned_in(value, 0, d1, 4294967295) {
        Some(y) => y,
        None => return Err(quoted_message("invalid year in '", value)),
    };
    let month = match parse_unsigned_in(value, d1 + 1, d2, 4294967295) {
        Some(m) => m,
        None => return Err(quoted_message("invalid month in '", value)),
    };
    let day = match parse_unsigned_in(value, d2 + 1, k, 4294967295) {
        Some(d) => d,
        None => return Err(quoted_message("invalid day in '", value)),
    };
    if !(1970 <= year && year <= 2100) {
        return Err(quoted_message("year out of range in '", value));
    }
    if !(1 <= month && month <= 12) {
        return Err(quoted_message("month out of range in '", value));
    }
    if !(1 <= day && day <= month_days(year, month)) {
        return Err(quoted_message("day out of range in '", value));
    }
    if k < value.len() && value[k] != 'T' && value[k] != 't' {
        return Err(quoted_message("expected 'T' after date in RFC 3339 datetime, got '", value));
    }
    if k < value.len() {
        if parse_time(value, k + 1).is_none() {
            return Err(quoted_message("invalid time in RFC 3339 datetime '", value));
        }
    }
    Ok(to_string(value))
}

/// Builds the operation `kind` from its value.
pub fn parse_operation(kind: OpKind, value: &Vec<char>) -> (r: Result<Operation, String>)
    ensures
        match r {
            Ok(op) => operation_parse(kind, value@) == Ok::<_, Seq<char>>(op@),
            Err(m) => operation_parse(kind, value@) == Err::<OperationModel, _>(m@),
        },
{
    match kind {
        OpKind::PrMerged => match parse_issue_ref(value) {
            Ok(r) => Ok(Operation::PrMerged(r)),
            Err(f) => Err(ref_error_message(value, &f, true)),
        },
        OpKind::PrClosed => match parse_issue_ref(value) {
            Ok(r) => Ok(Operation::PrClosed(r)),
            Err(f) => Err(ref_error_message(value, &f, true)),
        },
        OpKind::PrReleased => match parse_issue_ref(value) {
            Ok(r) => Ok(Operation::PrReleased(r)),
            Err(f) => Err(ref_error_message(value, &f, true)),
        },
        OpKind::IssueClosed => match parse_issue_ref(value) {
            Ok(r) => Ok(Operation::IssueClosed(r)),
            Err(f) => Err(ref_error_message(value, &f, true)),
        },
        OpKind::TagExists => match parse_ref_ref(value) {
            Ok(r) => Ok(Operation::TagExists(r)),
            Err(f) => Err(ref_error_message(value, &f, false)),
        },
        OpKind::CommitReleased => match parse_ref_ref(value) {
            Ok(r) => Ok(Operation::CommitReleased(r)),
            Err(f) => Err(ref_error_message(value, &f, false)),
        },
        OpKind::BranchDeleted => match parse_ref_ref(value) {
            Ok(r) => Ok(Operation::BranchDeleted(r)),
            Err(f) => Err(ref_error_message(value, &f, false)),
        },
        OpKind::DatePassed => match parse_date(value) {
            Ok(d) => Ok(Operation::DatePassed(d)),
            Err(m) => Err(m),
        },
        OpKind::NixpkgVersion => Err(owned("unknown operation: nixpkg_version")),
    }
}

pub open spec fn outcome_ops(t: Seq<char>) -> Seq<OperationModel> {
    match token_outcome(t) {
        TokenOutcome::Op(op) => seq![op],
        _ => seq![],
    }
}

/// Handles one token of line `line_num` (`v[lfrom..lto]`): an operation is
/// pushed to `operations`, a malformed one to `errors`; returns whether the
/// token is a description word.
fn take_token(
    t: &Vec<char>,
    path: &str,
    line_num: usize,
    v: &Vec<char>,
    lfrom: usize,
    lto: usize,
    operations: &mut Vec<Operation>,
    errors: &mut Vec<ScanError>,
) -> (word: bool)
    requires
        lfrom <= lto <= v@.len(),
        t@.len() <= v@.len() <= usize::MAX / 4,
    ensures
        word == (token_outcome(t@) is Word),
        final(operations)@.map_values(|o: Operation| o@) == old(operations)@.map_values(
            |o: Operation| o@,
        ) + outcome_ops(t@),
        scan_error_views(final(errors)@) == scan_error_views(old(errors)@) + token_error(
            path@,
            line_num,
            v@.subrange(lfrom as int, lto as int),
            t@,
        ),
{
    let ghost tm = t@;
    let ghost old_ops = operations@;
    let ghost old_errs = errors@;
    match find_char(t, 0, '=') {
        Some(e) => {
            proof {
                assert(t@.skip(0) =~= t@);
            }
            let key = copy_range(t, 0, e);
            let value = copy_range(t, e + 1, t.len());
            proof {
                assert(key@ =~= tm.take(e as int));
                assert(value@ =~= tm.skip(e + 1));
            }
            match op_kind(&key) {
                Some(OpKind::NixpkgVersion) => {
                    proof {
                        assert(operations@.map_values(|o: Operation| o@) =~= old_ops.map_values(
                            |o: Operation| o@,
                        ) + outcome_ops(tm));
                        assert(scan_error_views(errors@) =~= scan_error_views(old_errs));
                    }
                    true
                },
                Some(kind) => {
                    match parse_operation(kind, &value) {
                        Ok(op) => {
                            operations.push(op);
                            proof {
                                assert(operations@.map_values(|o: Operation| o@) =~= old_ops.map_values(
                                    |o: Operation| o@,
                                ) + outcome_ops(tm));
                                assert(scan_error_views(errors@) =~= scan_error_views(old_errs));
                            }
                        },
                        Err(message) => {
                            let width = utf8_width(t);
                            let mut expected_text = owned("valid value for ");
                            push_chars(&mut expected_text, &key);
                            let mut expected: Vec<String> = Vec::new();
                            expected.push(expected_text);
                            let err = ScanError::Parse {
                                file: owned(path),
                                line: line_num,
                                col: 0,
                                message,
                                span: 0..width,
                                source_line: crate::text::string_of(v, lfrom, lto),
                                expected,
                                found: Some(to_string(&value)),
                            };
                            errors.push(err);
                            proof {
                                assert(expected@.map_values(|e: String| e@) =~= seq![
                                    "valid value for "@ + key@,
                                ]);
                                assert(operations@.map_values(|o: Operation| o@) =~= old_ops.map_values(
                                    |o: Operation| o@,
                                ) + outcome_ops(tm));
                                assert(scan_error_views(errors@) =~= scan_error_views(old_errs)
                                    + token_error(path@, line_num, v@.subrange(lfrom as int, lto as int), tm));
                            }
                        },
                    }
                    false
                },
                None => {
                    proof {
                        assert(operations@.map_values(|o: Operation| o@) =~= old_ops.map_values(
                            |o: Operation| o@,
                        ) + outcome_ops(tm));
                        assert(scan_error_views(errors@) =~= scan_error_views(old_errs));
                    }
                    true
                },
            }
        },
        None => {
            proof {
                assert(t@.skip(0) =~= t@);
                assert(operations@.map_values(|o: Operation| o@) =~= old_ops.map_values(
                    |o: Operation| o@,
                ) + outcome_ops(tm));
                assert(scan_error_views(errors@) =~= scan_error_views(old_errs));
            }
            true
        },
    }
}

/// Parses the text after the marker (`v[from..to]`) of line `line_num`
/// (`v[lfrom..lto]`): the reminder, if any, and the errors.
pub fn parse_reminder_line(
    path: &str,
    line_num: usize,
    v: &Vec<char>,
    from: usize,
    to: usize,
    lfrom: usize,
    lto: usize,
) -> (r: (Option<Reminder>, Vec<ScanError>))
    requires
        lfrom <= from <= to == lto <= v@.len(),
        v@.len() <= usize::MAX / 4,
        remainder_of(v@.subrange(lfrom as int, lto as int)) == Some(
            v@.subrange(from as int, to as int),
        ),
    ensures
        match r.0 {
            Some(rem) => line_reminders(path@, line_num, v@.subrange(lfrom as int, lto as int))
                == seq![rem@],
            None => line_reminders(path@, line_num, v@.subrange(lfrom as int, lto as int)).len()
                == 0,
        },
        scan_error_views(r.1@) == line_errors(path@, line_num, v@.subrange(lfrom as int, lto as int)),
{
    let ghost line = v@.subrange(lfrom as int, lto as int);
    let ghost rem = v@.subrange(from as int, to as int);
    let toks = tokenize(v, from, to);
    let ghost tv = views(toks@);
    proof {
        crate::text::lemma_tokens_short(rem);
    }
    let mut operations: Vec<Operation> = Vec::new();
    let mut description = String::new();
    let mut errors: Vec<ScanError> = Vec::new();
    let mut nwords: usize = 0;
    let mut i: usize = 0;
    while i < toks.len()
        invariant
            tv == views(toks@),
            tv == tokens(rem),
            forall|j: int| 0 <= j < tokens(rem).len() ==> (#[trigger] tokens(rem)[j]).len() <= rem.len(),
            line == v@.subrange(lfrom as int, lto as int),
            rem == v@.subrange(from as int, to as int),
            lfrom <= from <= to == lto <= v@.len(),
            remainder_of(line) == Some(rem),
            v@.len() <= usize::MAX / 4,
            0 <= i <= toks@.len(),
            operations@.map_values(|o: Operation| o@) == token_ops(tv.take(i as int)),
            nwords == token_words(tv.take(i as int)).len(),
            nwords <= i,
            description@ == join(token_words(tv.take(i as int)), " "@),
            scan_error_views(errors@) == token_errors(path@, line_num, line, tv.take(i as int)),
        decreases toks@.len() - i,
    {
        let t = &toks[i];
        let ghost tm = t@;
        let ghost words = token_words(tv.take(i as int));
        proof {
            assert(tv[i as int] == tm);
            assert(tokens(rem)[i as int] == tm);
            assert(tv.take(i + 1).drop_last() =~= tv.take(i as int));
            assert(tv.take(i + 1).last() == tm);
        }
        let word = take_token(t, path, line_num, v, lfrom, lto, &mut operations, &mut errors);
        if word {
            if nwords > 0 {
                push_str(&mut description, " ");
            }
            push_chars(&mut description, t);
            nwords = nwords + 1;
        }
        proof {
            let ti = tv.take(i + 1);
            assert(operations@.map_values(|o: Operation| o@) =~= token_ops(ti));
            assert(scan_error_views(errors@) =~= token_errors(path@, line_num, line, ti));
            if word {
                assert(token_words(ti) =~= words.push(tm));
                assert(token_words(ti).drop_last() =~= words);
                assert(description@ =~= join(token_words(ti), " "@));
            } else {
                assert(token_words(ti) =~= words);
            }
        }
        i = i + 1;
    }
    proof {
        assert(tv.take(toks@.len() as int) =~= tv);
    }
    if operations.len() == 0 && description.as_str().is_empty() && errors.len() == 0 {
        return (None, errors);
    }
    let reminder = Reminder { file: owned(path), line: line_num, description, operations };
    (Some(reminder), errors)
}

/// Parse an entire file, returning all reminders found and any parse errors.
pub fn parse_file(path: &str, content: &str) -> (r: ScanResult)
    requires
        content@.len() <= usize::MAX / 4,
    ensures
        reminder_views(r.reminders@) == lines_reminders(path@, lines(content@)),
        scan_error_views(r.errors@) == lines_errors(path@, lines(content@)),
{
    let v = crate::text::chars_of(content);
    let mut reminders: Vec<Reminder> = Vec::new();
    let mut errors: Vec<ScanError> = Vec::new();
    let ghost mut done: Seq<Seq<char>> = seq![];
    let mut pos: usize = 0;
    let mut line_num: usize = 0;
    proof {
        assert(v@.skip(0) =~= v@);
    }
    while pos < v.len()
        invariant
            v@ == content@,
            v@.len() <= usize::MAX / 4,
            0 <= pos <= v@.len(),
            line_num == done.len(),
            line_num <= pos,
            done + lines(v@.skip(pos as int)) == lines(v@),
            reminder_views(reminders@) == lines_reminders(path@, done),
            scan_error_views(errors@) == lines_errors(path@, done),
        decreases v@.len() - pos,
    {
        let (end, next) = next_line(&v, pos);
        let ghost line = v@.subrange(pos as int, end as int);
        proof {
            assert(lines(v@)[done.len() as int] == line);
        }
        line_num = line_num + 1;
        let ghost before_r = reminders@;
        let ghost before_e = errors@;
        match locate_marker(&v, pos, end) {
            Some(k) => {
                if looks_like_comment(&v, pos, pos + k) {
                    proof {
                        assert(line.take(k as int) =~= v@.subrange(pos as int, pos + k));
                        assert(line.skip(k + 13) =~= v@.subrange(pos + k + 13, end as int));
                    }
                    let (reminder, line_errors) = parse_reminder_line(
                        path,
                        line_num,
                        &v,
                        pos + k + 13,
                        end,
                        pos,
                        end,
                    );
                    match reminder {
                        Some(rem) => reminders.push(rem),
                        None => {},
                    }
                    let mut le = line_errors;
                    errors.append(&mut le);
                } else {
                    proof {
                        assert(line.take(k as int) =~= v@.subrange(pos as int, pos + k));
                    }
                }
            },
            None => {},
        }
        proof {
            let nd = done.push(line);
            assert(nd.drop_last() =~= done);
            assert(reminder_views(reminders@) =~= lines_reminders(path@, nd));
            assert(scan_error_views(errors@) =~= lines_errors(path@, nd));
            assert(nd + lines(v@.skip(next as int)) =~= done + lines(v@.skip(pos as int)));
            done = nd;
        }
        pos = next;
    }
    proof {
        assert(v@.skip(pos as int) =~= Seq::<char>::empty());
        assert(done =~= lines(v@));
    }
    ScanResult { reminders, errors }
}



/// Whether `parse_file` can take `content`: it is not too long for the
/// byte offsets that the parser keeps.
pub fn content_parsable(content: &str) -> (b: bool)
    ensures
        b == (content@.len() <= usize::MAX / 4),
{
    content.unicode_len() <= usize::MAX / 4
}

/// An operation this parser reads from a value is read back from the value
/// rendered from it (the comment syntax keeps everything that was read).
pub proof fn lemma_operation_round_trip(kind: OpKind, value: Seq<char>)
    requires
        operation_parse(kind, value) is Ok,
    ensures
        operation_parse(kind, operation_parse(kind, value)->Ok_0.value_text()) == operation_parse(
            kind,
            value,
        ),
{
    match kind {
        OpKind::PrMerged | OpKind::PrClosed | OpKind::PrReleased | OpKind::IssueClosed => {
            lemma_issue_ref_round_trip(value);
        },
        OpKind::TagExists | OpKind::CommitReleased | OpKind::BranchDeleted => {
            lemma_ref_ref_text(value);
        },
        _ => {},
    }
}

/// A token this parser reads as an operation is read back, as that same
/// operation, from the operation's comment syntax `name=value`.
pub proof fn lemma_token_round_trip(t: Seq<char>)
    requires
        token_outcome(t) is Op,
    ensures
        token_outcome(token_outcome(t)->Op_0.text()) == token_outcome(t),
{
    let (key, value) = split_once(t, '=')->Some_0;
    let kind = op_kind_of(key)->Some_0;
    lemma_operation_round_trip(kind, value);
    let op = operation_parse(kind, value)->Ok_0;
    lemma_kind_name(kind);
    assert(op.name_text() == kind_name(kind));
    lemma_split_join(kind_name(kind), '=', op.value_text());
    assert(op.text() =~= kind_name(kind) + seq!['='] + op.value_text());
}

/// Every token after the marker counts once: as an operation, as a word of
/// the description, or as an error.
pub proof fn lemma_tokens_accounted(file: Seq<char>, num: usize, line: Seq<char>, toks: Seq<Seq<char>>)
    ensures
        token_ops(toks).len() + token_words(toks).len() + token_errors(file, num, line, toks).len()
            == toks.len(),
    decreases toks.len(),
{
    if toks.len() > 0 {
        lemma_tokens_accounted(file, num, line, toks.drop_last());
    }
}

/// A token `key=value` whose key is one of the eight operation names this
/// parser knows.
pub open spec fn known_token(t: Seq<char>) -> bool {
    match split_once(t, '=') {
        Some((key, _)) => match op_kind_of(key) {
            Some(k) => k != OpKind::NixpkgVersion,
            None => false,
        },
        None => false,
    }
}

/// A parse error of line `num` of `file`, carrying the whole line and the
/// value it found.
pub open spec fn error_of_line(e: ScanErrorModel, file: Seq<char>, num: usize, line: Seq<char>) -> bool {
    match e {
        ScanErrorModel::Parse { file: f, line: n, source_line: sl, found, .. } => f == file && n
            == num && sl == line && found is Some,
        _ => false,
    }
}

proof fn lemma_token_split(toks: Seq<Seq<char>>, file: Seq<char>, num: usize, line: Seq<char>)
    ensures
        token_words(toks) == toks.filter(|t: Seq<char>| !known_token(t)),
        token_ops(toks).len() + token_errors(file, num, line, toks).len() == toks.filter(
            |t: Seq<char>| known_token(t),
        ).len(),
        forall|k: int|
            0 <= k < token_errors(file, num, line, toks).len() ==> error_of_line(#[trigger] token_errors(file, num, line, toks)[k], file, num, line),
        (forall|i: int| 0 <= i < toks.len() ==> (#[trigger] toks[i]).len() > 0) ==> forall|k: int|
            0 <= k < token_words(toks).len() ==> (#[trigger] token_words(toks)[k]).len() > 0,
    decreases toks.len(),
{
    reveal(Seq::filter);
    if toks.len() > 0 {
        let p = toks.drop_last();
        lemma_token_split(p, file, num, line);
        let es = token_errors(file, num, line, toks);
        let ep = token_errors(file, num, line, p);
        assert forall|k: int| 0 <= k < es.len() implies error_of_line(#[trigger] es[k], file, num, line) by {
            if k < ep.len() {
                assert(es[k] == ep[k]);
            }
        }
        if forall|i: int| 0 <= i < toks.len() ==> (#[trigger] toks[i]).len() > 0 {
            let ws = token_words(toks);
            let wp = token_words(p);
            assert forall|k: int| 0 <= k < ws.len() implies (#[trigger] ws[k]).len() > 0 by {
                if k < wp.len() {
                    assert(ws[k] == wp[k]);
                    assert forall|i: int| 0 <= i < p.len() implies (#[trigger] p[i]).len() > 0 by {
                        assert(p[i] == toks[i]);
                    }
                } else {
                    assert(ws[k] == toks.last());
                    assert(toks.last() == toks[toks.len() - 1]);
                }
            }
        }
    }
}

/// What a marker line yields, token by token: each token whose key is a known
/// operation name becomes an operation or an error, both in token order; the
/// other tokens, joined by single spaces, are the description. The errors
/// carry the file, the line number and the whole line; the reminder carries
/// the file and the line number. A line with no token after the marker yields
/// neither reminder nor error, and any other marker line yields something.
pub proof fn lemma_reminder_line(file: Seq<char>, num: usize, line: Seq<char>, rem: Seq<char>)
    requires
        remainder_of(line) == Some(rem),
    ensures
        ({
            let toks = tokens(rem);
            &&& token_words(toks) == toks.filter(|t: Seq<char>| !known_token(t))
            &&& token_ops(toks).len() + line_errors(file, num, line).len() == toks.filter(
                |t: Seq<char>| known_token(t),
            ).len()
            &&& forall|k: int|
                0 <= k < line_errors(file, num, line).len() ==> error_of_line(#[trigger] line_errors(file, num, line)[k], file, num, line)
            &&& line_reminders(file, num, line).len() <= 1
            &&& line_reminders(file, num, line).len() == 1 ==> line_reminders(file, num, line)[0]
                == ReminderModel {
                file,
                line: num,
                description: join(token_words(toks), " "@),
                operations: token_ops(toks),
            }
            &&& (line_reminders(file, num, line).len() == 0 && line_errors(file, num, line).len()
                == 0) <==> toks.len() == 0
        }),
{
    let toks = tokens(rem);
    crate::text::lemma_tokens_nonempty(rem);
    lemma_token_split(toks, file, num, line);
    lemma_tokens_accounted(file, num, line, toks);
    let words = token_words(toks);
    if words.len() > 0 {
        crate::text::lemma_join_len(words, " "@);
        assert(words.last() == words[words.len() - 1]);
    }
}

/// The line number of a parse error (0 for other errors).
pub open spec fn error_line(e: ScanErrorModel) -> int {
    match e {
        ScanErrorModel::Parse { line, .. } => line as int,
        _ => 0,
    }
}

/// Whether line `n` (numbered from 1) of `ls` holds the marker in a comment.
pub open spec fn marker_line(ls: Seq<Seq<char>>, n: int) -> bool {
    1 <= n <= ls.len() && remainder_of(ls[n - 1]) is Some
}

/// What a file yields, line by line: every reminder and every error carries
/// the file and the number of a line that holds the marker; reminders stand
/// at increasing lines (at most one per line) and errors at non-decreasing
/// ones; every error is a parse error; and a file with no marker line yields
/// nothing. (A file has fewer lines than `usize::MAX`.)
pub proof fn lemma_lines_shape(file: Seq<char>, ls: Seq<Seq<char>>)
    requires
        ls.len() <= usize::MAX,
    ensures
        forall|k: int|
            0 <= k < lines_reminders(file, ls).len() ==> (#[trigger] lines_reminders(file, ls)[k]).file
                == file && marker_line(ls, lines_reminders(file, ls)[k].line as int),
        forall|a: int, b: int|
            0 <= a < b < lines_reminders(file, ls).len() ==> (#[trigger] lines_reminders(file, ls)[a]).line
                < (#[trigger] lines_reminders(file, ls)[b]).line,
        forall|k: int|
            0 <= k < lines_errors(file, ls).len() ==> (#[trigger] lines_errors(file, ls)[k]) is Parse
                && lines_errors(file, ls)[k]->Parse_file == file && marker_line(
                ls,
                error_line(lines_errors(file, ls)[k]),
            ),
        forall|a: int, b: int|
            0 <= a < b < lines_errors(file, ls).len() ==> error_line(
                #[trigger] lines_errors(file, ls)[a],
            ) <= error_line(#[trigger] lines_errors(file, ls)[b]),
        (forall|i: int| 0 <= i < ls.len() ==> remainder_of(#[trigger] ls[i]) is None) ==> lines_reminders(
            file,
            ls,
        ).len() == 0 && lines_errors(file, ls).len() == 0,
    decreases ls.len(),
{
    if ls.len() > 0 {
        let p = ls.drop_last();
        let n = ls.len() as usize;
        let last = ls.last();
        lemma_lines_shape(file, p);
        let rp = lines_reminders(file, p);
        let ep = lines_errors(file, p);
        let rl = line_reminders(file, n, last);
        let el = line_errors(file, n, last);
        let rs = lines_reminders(file, ls);
        let es = lines_errors(file, ls);
        assert(rs == rp + rl);
        assert(es == ep + el);
        assert forall|i: int| 0 <= i < p.len() implies p[i] == ls[i] by {}
        assert(last == ls[ls.len() - 1]);
        match remainder_of(last) {
            Some(rem) => {
                lemma_reminder_line(file, n, last, rem);
            },
            None => {
                assert(rl.len() == 0);
                assert(el.len() == 0);
            },
        }
        assert forall|k: int| 0 <= k < el.len() implies (#[trigger] el[k]) is Parse && el[k]->Parse_file
            == file && error_line(el[k]) == n && marker_line(ls, n as int) by {
            assert(remainder_of(last) is Some);
            assert(error_of_line(el[k], file, n, last));
        }
        assert forall|k: int| 0 <= k < rs.len() implies (#[trigger] rs[k]).file == file && marker_line(
            ls,
            rs[k].line as int,
        ) by {
            if k < rp.len() {
                assert(rs[k] == rp[k]);
                assert(marker_line(p, rp[k].line as int));
            } else {
                assert(rs[k] == rl[k - rp.len()]);
                assert(remainder_of(last) is Some);
                assert(rl[k - rp.len()].line == n);
            }
        }
        assert forall|a: int, b: int| 0 <= a < b < rs.len() implies (#[trigger] rs[a]).line < (
        #[trigger] rs[b]).line by {
            if b < rp.len() {
                assert(rs[a] == rp[a]);
                assert(rs[b] == rp[b]);
            } else if a < rp.len() {
                assert(rs[a] == rp[a]);
                assert(marker_line(p, rp[a].line as int));
                assert(rs[b] == rl[b - rp.len()]);
                assert(remainder_of(last) is Some);
                assert(rl[b - rp.len()].line == n);
            } else {
                assert(rl.len() <= 1);
            }
        }
        assert forall|k: int| 0 <= k < es.len() implies (#[trigger] es[k]) is Parse && es[k]->Parse_file
            == file && marker_line(ls, error_line(es[k])) by {
            if k < ep.len() {
                assert(es[k] == ep[k]);
                assert(marker_line(p, error_line(ep[k])));
            } else {
                assert(es[k] == el[k - ep.len()]);
                assert(el[k - ep.len()] is Parse);
            }
        }
        assert forall|a: int, b: int| 0 <= a < b < es.len() implies error_line(#[trigger] es[a])
            <= error_line(#[trigger] es[b]) by {
            if b < ep.len() {
                assert(es[a] == ep[a]);
                assert(es[b] == ep[b]);
            } else if a < ep.len() {
                assert(es[a] == ep[a]);
                assert(marker_line(p, error_line(ep[a])));
                assert(es[b] == el[b - ep.len()]);
            } else {
                assert(es[a] == el[a - ep.len()]);
                assert(es[b] == el[b - ep.len()]);
            }
        }
        if forall|i: int| 0 <= i < ls.len() ==> remainder_of(#[trigger] ls[i]) is None {
            assert forall|i: int| 0 <= i < p.len() implies remainder_of(#[trigger] p[i]) is None by {
                assert(p[i] == ls[i]);
            }
            assert(remainder_of(ls[ls.len() - 1]) is None);
        }
    }
}

/// A reminder moved `n` lines down.
pub open spec fn shift_reminder(r: ReminderModel, n: int) -> ReminderModel {
    ReminderModel { file: r.file, line: (r.line + n) as usize, description: r.description, operations: r.operations }
}

/// An error moved `n` lines down (only parse errors carry a line).
pub open spec fn shift_error(e: ScanErrorModel, n: int) -> ScanErrorModel {
    match e {
        ScanErrorModel::Parse {
            file,
            line,
            col,
            message,
            span_start,
            span_end,
            source_line,
            expected,
            found,
        } => ScanErrorModel::Parse {
            file,
            line: (line + n) as usize,
            col,
            message,
            span_start,
            span_end,
            source_line,
            expected,
            found,
        },
        other => other,
    }
}

pub open spec fn shift_reminders(rs: Seq<ReminderModel>, n: int) -> Seq<ReminderModel> {
    rs.map_values(|r: ReminderModel| shift_reminder(r, n))
}

pub open spec fn shift_errors(es: Seq<ScanErrorModel>, n: int) -> Seq<ScanErrorModel> {
    es.map_values(|e: ScanErrorModel| shift_error(e, n))
}

proof fn lemma_token_errors_shift(
    file: Seq<char>,
    num: usize,
    n: int,
    line: Seq<char>,
    toks: Seq<Seq<char>>,
)
    requires
        0 <= n,
        num + n <= usize::MAX,
    ensures
        token_errors(file, (num + n) as usize, line, toks) == shift_errors(
            token_errors(file, num, line, toks),
            n,
        ),
    decreases toks.len(),
{
    if toks.len() > 0 {
        lemma_token_errors_shift(file, num, n, line, toks.drop_last());
        assert(token_errors(file, (num + n) as usize, line, toks) =~= shift_errors(
            token_errors(file, num, line, toks),
            n,
        ));
    }
}

proof fn lemma_line_shift(file: Seq<char>, num: usize, n: int, line: Seq<char>)
    requires
        0 <= n,
        num + n <= usize::MAX,
    ensures
        line_reminders(file, (num + n) as usize, line) == shift_reminders(
            line_reminders(file, num, line),
            n,
        ),
        line_errors(file, (num + n) as usize, line) == shift_errors(line_errors(file, num, line), n),
{
    match remainder_of(line) {
        Some(rem) => {
            lemma_token_errors_shift(file, num, n, line, tokens(rem));
            assert(line_reminders(file, (num + n) as usize, line) =~= shift_reminders(
                line_reminders(file, num, line),
                n,
            ));
        },
        None => {
            assert(shift_reminders(line_reminders(file, num, line), n) =~= seq![]);
            assert(shift_errors(line_errors(file, num, line), n) =~= seq![]);
        },
    }
}

proof fn lemma_lines_concat(file: Seq<char>, l1: Seq<Seq<char>>, l2: Seq<Seq<char>>)
    requires
        l1.len() + l2.len() <= usize::MAX,
    ensures
        lines_reminders(file, l1 + l2) == lines_reminders(file, l1) + shift_reminders(
            lines_reminders(file, l2),
            l1.len() as int,
        ),
        lines_errors(file, l1 + l2) == lines_errors(file, l1) + shift_errors(
            lines_errors(file, l2),
            l1.len() as int,
        ),
    decreases l2.len(),
{
    if l2.len() == 0 {
        assert(l1 + l2 =~= l1);
        assert(shift_reminders(lines_reminders(file, l2), l1.len() as int) =~= seq![]);
        assert(shift_errors(lines_errors(file, l2), l1.len() as int) =~= seq![]);
        assert(lines_reminders(file, l1) + seq![] =~= lines_reminders(file, l1));
        assert(lines_errors(file, l1) + seq![] =~= lines_errors(file, l1));
    } else {
        let p2 = l2.drop_last();
        lemma_lines_concat(file, l1, p2);
        let all = l1 + l2;
        assert(all.drop_last() =~= l1 + p2);
        assert(all.last() == l2.last());
        lemma_line_shift(file, l2.len() as usize, l1.len() as int, l2.last());
        assert(((l2.len() as usize) + l1.len()) as usize == all.len() as usize);
        assert(lines_reminders(file, all) =~= lines_reminders(file, l1) + shift_reminders(
            lines_reminders(file, l2),
            l1.len() as int,
        ));
        assert(lines_errors(file, all) =~= lines_errors(file, l1) + shift_errors(
            lines_errors(file, l2),
            l1.len() as int,
        ));
    }
}

/// Parsing `a`, a newline and `b` gives what parsing `a` gives, followed by
/// what parsing `b` gives with its line numbers moved down by the number of
/// lines of `a` (where `a` is not empty and ends with neither `\n` nor
/// `\r`, and the file has fewer lines than `usize::MAX`).
pub proof fn lemma_parse_append(file: Seq<char>, a: Seq<char>, b: Seq<char>)
    requires
        a.len() > 0,
        a.last() != '\n',
        a.last() != '\r',
        lines(a).len() + lines(b).len() <= usize::MAX,
    ensures
        lines_reminders(file, lines(a + seq!['\n'] + b)) == lines_reminders(file, lines(a))
            + shift_reminders(lines_reminders(file, lines(b)), lines(a).len() as int),
        lines_errors(file, lines(a + seq!['\n'] + b)) == lines_errors(file, lines(a)) + shift_errors(
            lines_errors(file, lines(b)),
            lines(a).len() as int,
        ),
{
    crate::text::lemma_lines_append(a, b);
    lemma_lines_concat(file, lines(a), lines(b));
}

} // verus!
