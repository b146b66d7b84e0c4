//! The REMIND-ME-TO comment parser driven by the token grammar
//!
//!   remainder = (inline_ws* token inline_ws*)* EOF
//!   token     = op_name '=' value      -- an operation attempt
//!             | word                   -- anything else is description
//!
//! where `inline_ws` is a space or a tab, a `value` is a run of value
//! characters and a `word` is a run of non-whitespace characters. A known
//! operation name with a malformed value is an error, not description.
use vstd::prelude::*;

use crate::dates::{civil_date_parse, parse_civil_date, parse_time, time_parse};
use crate::errors::{ScanError, ScanErrorModel, ScanResult, reminder_views, scan_error_views};
use crate::ops::types::{
    NixpkgRef, NixpkgRefModel, Operation, OperationModel, Reminder, ReminderModel,
};
use crate::scanner::common::{
    kind_name, lemma_issue_ref_round_trip, lemma_kind_name, lemma_ref_ref_text, lemma_split_join,
    lemma_split_parts,
    OpKind, RefError, RefFault, byte_split, inline_prefix_in, inline_prefix_ok, issue_ref_parse,
    locate_marker, parse_issue_ref, parse_ref_ref, ref_ref_parse, split_at_marker, split_bytes,
    starts_in,
};
use crate::text::{
    quoted_message,
    char_alphanumeric, copy_range, find_char, is_alphanumeric, is_whitespace, is_ws, join, lines,
    next_line, owned, push_chars, push_str, split_once, starts_with, to_string, trim,
    trim_bounds, utf8_len, utf8_width, word_len, lemma_word_len, lemma_word_len_exact,
};

verus! {

// ---------------------------------------------------------------------------
// Specification
// ---------------------------------------------------------------------------

/// Whether the text before the marker looks like the inside of a comment:
/// it starts with a comment prefix, or holds a multi-character comment opener
/// that no open `"` precedes.
pub open spec fn comment_before(before: Seq<char>) -> bool {
    let t = trim(before);
    ||| starts_with(t, "//"@)
    ||| starts_with(t, "#"@)
    ||| starts_with(t, "--"@)
    ||| starts_with(t, "/*"@)
    ||| starts_with(t, "<!--"@)
    ||| starts_with(t, "%"@)
    ||| starts_with(t, ";"@)
    ||| starts_with(t, "* "@)
    ||| inline_prefix_ok(t, "//"@)
    ||| inline_prefix_ok(t, "/*"@)
    ||| inline_prefix_ok(t, "<!--"@)
}

/// Characters allowed inside an operation value.
pub open spec fn value_char(c: char) -> bool {
    ||| char_alphanumeric(c)
    ||| c == ':'
    ||| c == '/'
    ||| c == '#'
    ||| c == '@'
    ||| c == '>'
    ||| c == '<'
    ||| c == '='
    ||| c == '^'
    ||| c == '~'
    ||| c == '*'
    ||| c == '.'
    ||| c == '-'
    ||| c == '_'
    ||| c == '+'
}

/// Length of the leading run of value characters.
pub open spec fn value_len(s: Seq<char>) -> nat
    decreases s.len(),
{
    if s.len() == 0 || !value_char(s[0]) {
        0
    } else {
        1 + value_len(s.drop_first())
    }
}

pub proof fn lemma_value_len(s: Seq<char>)
    ensures
        value_len(s) <= s.len(),
        forall|k: int| 0 <= k < value_len(s) ==> value_char(#[trigger] s[k]),
        value_len(s) < s.len() ==> !value_char(s[value_len(s) as int]),
    decreases s.len(),
{
    if s.len() > 0 && value_char(s[0]) {
        lemma_value_len(s.drop_first());
        assert forall|k: int| 0 <= k < value_len(s) implies value_char(#[trigger] s[k]) by {
            if k > 0 {
                assert(s[k] == s.drop_first()[k - 1]);
            }
        }
    }
}

proof fn lemma_value_len_exact(s: Seq<char>, n: int)
    requires
        0 <= n <= s.len(),
        forall|k: int| 0 <= k < n ==> value_char(s[k]),
        n < s.len() ==> !value_char(s[n]),
    ensures
        value_len(s) == n,
    decreases s.len(),
{
    if n > 0 {
        lemma_value_len_exact(s.drop_first(), n - 1);
    }
}

/// The operation whose `name=` starts `s`, with the length of `name=`.
pub open spec fn op_prefix_at(s: Seq<char>) -> Option<(OpKind, nat)> {
    if starts_with(s, "pr_merged="@) {
        Some((OpKind::PrMerged, "pr_merged="@.len()))
    } else if starts_with(s, "pr_closed="@) {
        Some((OpKind::PrClosed, "pr_closed="@.len()))
    } else if starts_with(s, "tag_exists="@) {
        Some((OpKind::TagExists, "tag_exists="@.len()))
    } else if starts_with(s, "commit_released="@) {
        Some((OpKind::CommitReleased, "commit_released="@.len()))
    } else if starts_with(s, "pr_released="@) {
        Some((OpKind::PrReleased, "pr_released="@.len()))
    } else if starts_with(s, "issue_closed="@) {
        Some((OpKind::IssueClosed, "issue_closed="@.len()))
    } else if starts_with(s, "branch_deleted="@) {
        Some((OpKind::BranchDeleted, "branch_deleted="@.len()))
    } else if starts_with(s, "date_passed="@) {
        Some((OpKind::DatePassed, "date_passed="@.len()))
    } else if starts_with(s, "nixpkg_version="@) {
        Some((OpKind::NixpkgVersion, "nixpkg_version="@.len()))
    } else {
        None
    }
}

/// A token of the grammar: an operation attempt (its value) or a word.
pub enum GToken {
    Op(OpKind, Seq<char>),
    Word(Seq<char>),
}

/// Length of the operation attempt that starts `s`, when there is one:
/// `name=` followed by at least one value character.
pub open spec fn op_token_len(s: Seq<char>) -> Option<(OpKind, nat, nat)> {
    match op_prefix_at(s) {
        Some((kind, pl)) => if pl <= s.len() && value_len(s.skip(pl as int)) >= 1 {
            Some((kind, pl, value_len(s.skip(pl as int))))
        } else {
            None
        },
        None => None,
    }
}

/// The tokens of a trimmed remainder, or the whitespace character (other
/// than space and tab) where no token can start.
pub open spec fn gtokens(s: Seq<char>) -> Result<Seq<GToken>, char>
    decreases s.len(),
{
    if s.len() == 0 {
        Ok(seq![])
    } else if s[0] == ' ' || s[0] == '\t' {
        gtokens(s.drop_first())
    } else {
        match op_token_len(s) {
            Some((kind, pl, vl)) => {
                proof {
                    lemma_value_len(s.skip(pl as int));
                }
                match gtokens(s.skip((pl + vl) as int)) {
                    Ok(rest) => Ok(seq![GToken::Op(kind, s.subrange(pl as int, (pl + vl) as int))] + rest),
                    Err(c) => Err(c),
                }
            },
            None => if is_ws(s[0]) {
                Err(s[0])
            } else {
                let n = word_len(s);
                proof {
                    lemma_word_len(s);
                }
                match gtokens(s.skip(n as int)) {
                    Ok(rest) => Ok(seq![GToken::Word(s.take(n as int))] + rest),
                    Err(c) => Err(c),
                }
            },
        }
    }
}

/// The message for a malformed reference value (`issue` for `#` references).
pub open spec fn ref_message(value: Seq<char>, fault: RefFault, issue: bool) -> Seq<char> {
    match fault {
        RefFault::NoForge => "expected forge prefix (e.g. 'github:') in '"@ + value + "'"@,
        RefFault::NoOwnerRepo(_) => "expected 'owner/repo' in '"@ + value + "'"@,
        RefFault::EmptyOwner => "empty owner in '"@ + value + "'"@,
        RefFault::EmptyRepo => "empty repo in '"@ + value + "'"@,
        RefFault::MissingSigil(_) => if issue {
            "expected '#' in '"@ + value + "'"@
        } else {
            "expected '@' in '"@ + value + "'"@
        },
        RefFault::BadNumber(_) => "expected number after '#' in '"@ + value + "'"@,
        RefFault::EmptyValue => "expected value after '@' in '"@ + value + "'"@,
    }
}

/// `package@version_constraint`
pub open spec fn nixpkg_ref_parse(value: Seq<char>) -> Result<NixpkgRefModel, Seq<char>> {
    match split_once(value, '@') {
        None => Err("expected 'package@constraint' in '"@ + value + "'"@),
        Some((package, constraint)) => if package.len() == 0 {
            Err("empty package name in '"@ + value + "'"@)
        } else if constraint.len() == 0 {
            Err("expected version constraint after '@' in '"@ + value + "'"@)
        } else {
            Ok(NixpkgRefModel { package, version_constraint: constraint })
        },
    }
}

/// Validates a `date_passed` value: its first ten bytes are a date jiff
/// accepts; where more follows, it is a `T` or `t` and an RFC 3339 time.
pub open spec fn date_value_parse(value: Seq<char>) -> Result<Seq<char>, Seq<char>> {
    match byte_split(value, 10) {
        Err(_) => Err("expected YYYY-MM-DD, got '"@ + value + "'"@),
        Ok(k) => match civil_date_parse(value.take(k as int)) {
            Err(e) => Err("invalid date '"@ + value + "': "@ + e),
            Ok(_) => if k < value.len() && value[k as int] != 'T' && value[k as int] != 't' {
                Err("expected 'T' after date in '"@ + value + "'"@)
            } else if k < value.len() && time_parse(value.skip(k as int + 1)) is None {
                Err("invalid time in '"@ + value + "'"@)
            } else {
                Ok(value)
            },
        },
    }
}

/// The operation of kind `kind` with value `value`, or the error message.
pub open spec fn operation_parse(kind: OpKind, value: Seq<char>) -> Result<
    OperationModel,
    Seq<char>,
> {
    match kind {
        OpKind::PrMerged => match issue_ref_parse(value) {
            Ok(r) => Ok(OperationModel::PrMerged(r)),
            Err(f) => Err(ref_message(value, f, true)),
        },
        OpKind::PrClosed => match issue_ref_parse(value) {
            Ok(r) => Ok(OperationModel::PrClosed(r)),
            Err(f) => Err(ref_message(value, f, true)),
        },
        OpKind::PrReleased => match issue_ref_parse(value) {
            Ok(r) => Ok(OperationModel::PrReleased(r)),
            Err(f) => Err(ref_message(value, f, true)),
        },
        OpKind::IssueClosed => match issue_ref_parse(value) {
            Ok(r) => Ok(OperationModel::IssueClosed(r)),
            Err(f) => Err(ref_message(value, f, true)),
        },
        OpKind::TagExists => match ref_ref_parse(value) {
            Ok(r) => Ok(OperationModel::TagExists(r)),
            Err(f) => Err(ref_message(value, f, false)),
        },
        OpKind::CommitReleased => match ref_ref_parse(value) {
            Ok(r) => Ok(OperationModel::CommitReleased(r)),
            Err(f) => Err(ref_message(value, f, false)),
        },
        OpKind::BranchDeleted => match ref_ref_parse(value) {
            Ok(r) => Ok(OperationModel::BranchDeleted(r)),
            Err(f) => Err(ref_message(value, f, false)),
        },
        OpKind::DatePassed => match date_value_parse(value) {
            Ok(d) => Ok(OperationModel::DatePassed(d)),
            Err(m) => Err(m),
        },
        OpKind::NixpkgVersion => match nixpkg_ref_parse(value) {
            Ok(r) => Ok(OperationModel::NixpkgVersion(r)),
            Err(m) => Err(m),
        },
    }
}

pub open spec fn token_ops(toks: Seq<GToken>) -> Seq<OperationModel>
    decreases toks.len(),
{
    if toks.len() == 0 {
        seq![]
    } else {
        token_ops(toks.drop_last()) + match toks.last() {
            GToken::Op(kind, value) => match operation_parse(kind, value) {
                Ok(op) => seq![op],
                Err(_) => seq![],
            },
            GToken::Word(_) => seq![],
        }
    }
}

pub open spec fn token_words(toks: Seq<GToken>) -> Seq<Seq<char>>
    decreases toks.len(),
{
    if toks.len() == 0 {
        seq![]
    } else {
        token_words(toks.drop_last()) + match toks.last() {
            GToken::Word(w) => seq![w],
            GToken::Op(_, _) => seq![],
        }
    }
}

pub open spec fn token_messages(toks: Seq<GToken>) -> Seq<Seq<char>>
    decreases toks.len(),
{
    if toks.len() == 0 {
        seq![]
    } else {
        token_messages(toks.drop_last()) + match toks.last() {
            GToken::Op(kind, value) => match operation_parse(kind, value) {
                Ok(_) => seq![],
                Err(m) => seq![m],
            },
            GToken::Word(_) => seq![],
        }
    }
}

/// The message for a remainder that does not follow the grammar: it holds a
/// whitespace character other than a space or a tab.
pub open spec fn grammar_message(c: char) -> Seq<char> {
    "found '"@ + seq![c] + "' where a space, a tab or a token was expected"@
}

/// The trimmed text after the marker, when the line holds a marker inside a comment.
pub open spec fn remainder_of(line: Seq<char>) -> Option<Seq<char>> {
    match split_at_marker(line) {
        Some((before, after)) => if comment_before(before) {
            Some(trim(after))
        } else {
            None
        },
        None => None,
    }
}

/// Operations, description words and error messages of a trimmed remainder.
pub open spec fn remainder_parts(rem: Seq<char>) -> (Seq<OperationModel>, Seq<Seq<char>>, Seq<Seq<char>>) {
    match gtokens(rem) {
        Ok(toks) => (token_ops(toks), token_words(toks), token_messages(toks)),
        Err(c) => (seq![], seq![], seq![grammar_message(c)]),
    }
}

/// The reminder a line holds: only a marker line with at least one operation holds one.
pub open spec fn line_reminders(file: Seq<char>, num: usize, line: Seq<char>) -> Seq<ReminderModel> {
    match remainder_of(line) {
        None => seq![],
        Some(rem) => {
            let (ops, words, msgs) = remainder_parts(rem);
            if rem.len() == 0 || ops.len() == 0 {
                seq![]
            } else {
                seq![
                    ReminderModel {
                        file,
                        line: num,
                        description: join(words, " "@),
                        operations: ops,
                    },
                ]
            }
        },
    }
}

/// The error that a message of line `num` becomes.
pub open spec fn message_error(
    file: Seq<char>,
    num: usize,
    line: Seq<char>,
    rem: Seq<char>,
    m: Seq<char>,
) -> ScanErrorModel {
    ScanErrorModel::Parse {
        file,
        line: num,
        col: 0,
        message: m,
        span_start: 0,
        span_end: utf8_len(rem) as usize,
        source_line: line,
        expected: seq![],
        found: Some(m),
    }
}

/// The errors a line holds.
pub open spec fn line_errors(file: Seq<char>, num: usize, line: Seq<char>) -> Seq<ScanErrorModel> {
    match remainder_of(line) {
        None => seq![],
        Some(rem) => if rem.len() == 0 {
            seq![]
        } else {
            remainder_parts(rem).2.map_values(|m: Seq<char>| message_error(file, num, line, rem, m))
        },
    }
}



/// Reminders of a sequence of lines, numbered from 1.
pub open spec fn lines_reminders(file: Seq<char>, ls: Seq<Seq<char>>) -> Seq<ReminderModel>
    decreases ls.len(),
{
    if ls.len() == 0 {
        seq![]
    } else {
        lines_reminders(file, ls.drop_last()) + line_reminders(file, ls.len() as usize, ls.last())
    }
}

/// Errors of a sequence of lines, numbered from 1.
pub open spec fn lines_errors(file: Seq<char>, ls: Seq<Seq<char>>) -> Seq<ScanErrorModel>
    decreases ls.len(),
{
    if ls.len() == 0 {
        seq![]
    } else {
        lines_errors(file, ls.drop_last()) + line_errors(file, ls.len() as usize, ls.last())
    }
}


// ---------------------------------------------------------------------------
// Implementation
// ---------------------------------------------------------------------------

/// Whether the text before the marker (`v[from..to]`) looks like the inside of a comment.
pub fn looks_like_comment(v: &Vec<char>, from: usize, to: usize) -> (b: bool)
    requires
        from <= to <= v@.len(),
    ensures
        b == comment_before(v@.subrange(from as int, to as int)),
{
    let (lo, hi) = trim_bounds(v, from, to);
    starts_in(v, lo, hi, "//") || starts_in(v, lo, hi, "#") || starts_in(v, lo, hi, "--")
        || starts_in(v, lo, hi, "/*") || starts_in(v, lo, hi, "<!--") || starts_in(v, lo, hi, "%")
        || starts_in(v, lo, hi, ";") || starts_in(v, lo, hi, "* ") || inline_prefix_in(
        v,
        lo,
        hi,
        "//",
    ) || inline_prefix_in(v, lo, hi, "/*") || inline_prefix_in(v, lo, hi, "<!--")
}

/// If line `v[from..to]` holds the marker inside a comment, the bounds of the
/// trimmed text after the marker.
pub fn scan_line_for_marker(v: &Vec<char>, from: usize, to: usize) -> (r: Option<(usize, usize)>)
    requires
        from <= to <= v@.len(),
    ensures
        match r {
            Some((lo, hi)) => from <= lo <= hi <= to && remainder_of(
                v@.subrange(from as int, to as int),
            ) == Some(v@.subrange(lo as int, hi as int)),
            None => remainder_of(v@.subrange(from as int, to as int)) is None,
        },
{
    let ghost line = v@.subrange(from as int, to as int);
    match locate_marker(v, from, to) {
        Some(k) => {
            proof {
                assert(line.take(k as int) =~= v@.subrange(from as int, from + k));
                assert(line.skip(k + 13) =~= v@.subrange(from + k + 13, to as int));
            }
            if looks_like_comment(v, from, from + k) {
                let (lo, hi) = trim_bounds(v, from + k + 13, to);
                Some((lo, hi))
            } else {
                None
            }
        },
        None => None,
    }
}

/// Whether a character may stand inside an operation value.
pub fn is_value_char(c: char) -> (b: bool)
    ensures
        b == value_char(c),
{
    is_alphanumeric(c) || c == ':' || c == '/' || c == '#' || c == '@' || c == '>' || c == '<'
        || c == '=' || c == '^' || c == '~' || c == '*' || c == '.' || c == '-' || c == '_' || c
        == '+'
}

/// `op_prefix_at(v[at..to])`, computed.
fn op_prefix(v: &Vec<char>, at: usize, to: usize) -> (r: Option<(OpKind, usize)>)
    requires
        at <= to <= v@.len(),
    ensures
        match r {
            Some((k, pl)) => op_prefix_at(v@.subrange(at as int, to as int)) == Some((k, pl as nat)),
            None => op_prefix_at(v@.subrange(at as int, to as int)) is None,
        },
{
    if starts_in(v, at, to, "pr_merged=") {
        Some((OpKind::PrMerged, "pr_merged=".unicode_len()))
    } else if starts_in(v, at, to, "pr_closed=") {
        Some((OpKind::PrClosed, "pr_closed=".unicode_len()))
    } else if starts_in(v, at, to, "tag_exists=") {
        Some((OpKind::TagExists, "tag_exists=".unicode_len()))
    } else if starts_in(v, at, to, "commit_released=") {
        Some((OpKind::CommitReleased, "commit_released=".unicode_len()))
    } else if starts_in(v, at, to, "pr_released=") {
        Some((OpKind::PrReleased, "pr_released=".unicode_len()))
    } else if starts_in(v, at, to, "issue_closed=") {
        Some((OpKind::IssueClosed, "issue_closed=".unicode_len()))
    } else if starts_in(v, at, to, "branch_deleted=") {
        Some((OpKind::BranchDeleted, "branch_deleted=".unicode_len()))
    } else if starts_in(v, at, to, "date_passed=") {
        Some((OpKind::DatePassed, "date_passed=".unicode_len()))
    } else if starts_in(v, at, to, "nixpkg_version=") {
        Some((OpKind::NixpkgVersion, "nixpkg_version=".unicode_len()))
    } else {
        None
    }
}

/// A token of the grammar (exec form).
pub enum GTok {
    Op(OpKind, Vec<char>),
    Word(Vec<char>),
}

impl View for GTok {
    type V = GToken;

    open spec fn view(&self) -> GToken {
        match self {
            GTok::Op(k, v) => GToken::Op(*k, v@),
            GTok::Word(w) => GToken::Word(w@),
        }
    }
}

pub open spec fn gviews(v: Seq<GTok>) -> Seq<GToken> {
    v.map_values(|t: GTok| t@)
}

pub open spec fn prepend(done: Seq<GToken>, r: Result<Seq<GToken>, char>) -> Result<
    Seq<GToken>,
    char,
> {
    match r {
        Ok(rest) => Ok(done + rest),
        Err(c) => Err(c),
    }
}

proof fn lemma_prepend(a: Seq<GToken>, b: Seq<GToken>, r: Result<Seq<GToken>, char>)
    ensures
        prepend(a, prepend(b, r)) == prepend(a + b, r),
{
    match r {
        Ok(rest) => {
            assert(a + (b + rest) =~= (a + b) + rest);
        },
        Err(_) => {},
    }
}

/// The grammar token that starts `v[i..to]` and where it ends, or the
/// whitespace character where no token can start.
fn take_gtoken(v: &Vec<char>, i: usize, to: usize) -> (r: Result<(GTok, usize), char>)
    requires
        i < to <= v@.len(),
        v@[i as int] != ' ' && v@[i as int] != '\t',
    ensures
        match r {
            Ok((t, j)) => i < j <= to && gtokens(v@.subrange(i as int, to as int)) == prepend(
                seq![t@],
                gtokens(v@.subrange(j as int, to as int)),
            ),
            Err(c) => gtokens(v@.subrange(i as int, to as int)) == Err::<Seq<GToken>, _>(c),
        },
{
    let ghost rest = v@.subrange(i as int, to as int);
    let c = v[i];
    match op_prefix(v, i, to) {
        Some((kind, pl)) => {
            proof {
                reveal_strlit("pr_merged=");
                reveal_strlit("pr_closed=");
                reveal_strlit("tag_exists=");
                reveal_strlit("commit_released=");
                reveal_strlit("pr_released=");
                reveal_strlit("issue_closed=");
                reveal_strlit("branch_deleted=");
                reveal_strlit("date_passed=");
                reveal_strlit("nixpkg_version=");
                assert(pl <= rest.len());
            }
            let vs = i + pl;
            let mut j = vs;
            while j < to && is_value_char(v[j])
                invariant
                    vs <= j <= to <= v@.len(),
                    forall|k: int| vs <= k < j ==> value_char(v@[k]),
                decreases to - j,
            {
                j = j + 1;
            }
            proof {
                assert(rest.skip(pl as int) =~= v@.subrange(vs as int, to as int));
                lemma_value_len_exact(v@.subrange(vs as int, to as int), j - vs);
            }
            if j > vs {
                let value = copy_range(v, vs, j);
                proof {
                    assert(rest.skip((j - i) as int) =~= v@.subrange(j as int, to as int));
                    assert(rest.subrange(pl as int, (j - i) as int) =~= value@);
                    assert(op_token_len(rest) == Some((kind, pl as nat, (j - vs) as nat)));
                }
                return Ok((GTok::Op(kind, value), j));
            }
            proof {
                assert(op_token_len(rest) is None);
            }
        },
        None => {},
    }
    if is_whitespace(c) {
        return Err(c);
    }
    let mut j = i;
    while j < to && !is_whitespace(v[j])
        invariant
            i <= j <= to <= v@.len(),
            forall|k: int| i <= k < j ==> !is_ws(v@[k]),
        decreases to - j,
    {
        j = j + 1;
    }
    let w = copy_range(v, i, j);
    proof {
        lemma_word_len_exact(rest, j - i);
        assert(rest.take(j - i) =~= w@);
        assert(rest.skip(j - i) =~= v@.subrange(j as int, to as int));
    }
    Ok((GTok::Word(w), j))
}

/// The grammar tokens of the trimmed remainder `v[from..to]`.
pub fn tokenize(v: &Vec<char>, from: usize, to: usize) -> (r: Result<Vec<GTok>, char>)
    requires
        from <= to <= v@.len(),
    ensures
        match r {
            Ok(toks) => gtokens(v@.subrange(from as int, to as int)) == Ok::<_, char>(gviews(toks@)),
            Err(c) => gtokens(v@.subrange(from as int, to as int)) == Err::<Seq<GToken>, _>(c),
        },
{
    let ghost s = v@.subrange(from as int, to as int);
    let mut done: Vec<GTok> = Vec::new();
    let mut i = from;
    proof {
        assert(gviews(done@) =~= Seq::<GToken>::empty());
        lemma_prepend(Seq::<GToken>::empty(), Seq::<GToken>::empty(), gtokens(s));
        match gtokens(s) {
            Ok(rest) => {
                assert(Seq::<GToken>::empty() + rest =~= rest);
            },
            Err(_) => {},
        }
    }
    while i < to
        invariant
            from <= i <= to <= v@.len(),
            s == v@.subrange(from as int, to as int),
            gtokens(s) == prepend(gviews(done@), gtokens(v@.subrange(i as int, to as int))),
        decreases to - i,
    {
        let ghost rest = v@.subrange(i as int, to as int);
        let c = v[i];
        if c == ' ' || c == '\t' {
            proof {
                assert(rest.drop_first() =~= v@.subrange(i + 1, to as int));
            }
            i = i + 1;
        } else {
            match take_gtoken(v, i, to) {
                Ok((t, j)) => {
                    let ghost before = done@;
                    proof {
                        lemma_prepend(gviews(before), seq![t@], gtokens(v@.subrange(j as int, to as int)));
                    }
                    done.push(t);
                    proof {
                        assert(gviews(done@) =~= gviews(before) + seq![t@]);
                    }
                    i = j;
                },
                Err(c) => {
                    return Err(c);
                },
            }
        }
    }
    proof {
        assert(v@.subrange(to as int, to as int) =~= Seq::<char>::empty());
        assert(gviews(done@) + Seq::<GToken>::empty() =~= gviews(done@));
    }
    Ok(done)
}

/// The message for a malformed reference value.
fn ref_error_message(value: &Vec<char>, fault: &RefError, issue: bool) -> (m: String)
    ensures
        m@ == ref_message(value@, fault@, issue),
{
    match fault {
        RefError::NoForge => quoted_message("expected forge prefix (e.g. 'github:') in '", value),
        RefError::NoOwnerRepo(_) => quoted_message("expected 'owner/repo' in '", value),
        RefError::EmptyOwner => quoted_message("empty owner in '", value),
        RefError::EmptyRepo => quoted_message("empty repo in '", value),
        RefError::MissingSigil(_) => if issue {
            quoted_message("expected '#' in '", value)
        } else {
            quoted_message("expected '@' in '", value)
        },
        RefError::BadNumber(_) => quoted_message("expected number after '#' in '", value),
        RefError::EmptyValue => quoted_message("expected value after '@' in '", value),
    }
}

/// Parses `package@version_constraint` for nixpkg_version operations.
pub fn parse_nixpkg_ref(value: &Vec<char>) -> (r: Result<NixpkgRef, String>)
    ensures
        match r {
            Ok(n) => nixpkg_ref_parse(value@) == Ok::<_, Seq<char>>(n@),
            Err(m) => nixpkg_ref_parse(value@) == Err::<NixpkgRefModel, _>(m@),
        },
{
    proof {
        assert(value@.skip(0) =~= value@);
    }
    match find_char(value, 0, '@') {
        None => Err(quoted_message("expected 'package@constraint' in '", value)),
        Some(at) => {
            if at == 0 {
                return Err(quoted_message("empty package name in '", value));
            }
            if at + 1 == value.len() {
                return Err(quoted_message("expected version constraint after '@' in '", value));
            }
            let package = copy_range(value, 0, at);
            let constraint = copy_range(value, at + 1, value.len());
            proof {
                assert(package@ =~= value@.take(at as int));
                assert(constraint@ =~= value@.skip(at + 1));
            }
            Ok(NixpkgRef { package: to_string(&package), version_constraint: to_string(&constraint) })
        },
    }
}

/// Validates a `date_passed` value.
pub fn parse_date(value: &Vec<char>) -> (r: Result<String, String>)
    ensures
        match r {
            Ok(d) => date_value_parse(value@) == Ok::<_, Seq<char>>(d@),
            Err(m) => date_value_parse(value@) == Err::<Seq<char>, _>(m@),
        },
{
    let k = match split_bytes(value, 10) {
        Ok(k) => k,
        Err(_) => return Err(quoted_message("expected YYYY-MM-DD, got '", value)),
    };
    let head = copy_range(value, 0, k);
    let head_text = to_string(&head);
    proof {
        assert(head@ =~= value@.take(k as int));
    }
    match parse_civil_date(head_text.as_str()) {
        Err(e) => {
            let mut m = owned("invalid date '");
            push_chars(&mut m, value);
            push_str(&mut m, "': ");
            push_str(&mut m, e.as_str());
            proof {
                assert(m@ =~= "invalid date '"@ + value@ + "': "@ + e@);
            }
            Err(m)
        },
        Ok(_) => {
            if k < value.len() && value[k] != 'T' && value[k] != 't' {
                Err(quoted_message("expected 'T' after date in '", value))
            } else if k < value.len() && parse_time(value, k + 1).is_none() {
                Err(quoted_message("invalid time in '", value))
            } else {
                Ok(to_string(value))
            }
        },
    }
}

/// Builds the operation `kind` from its value.
pub fn build_operation(kind: OpKind, value: &Vec<char>) -> (r: Result<Operation, String>)
    ensures
        match r {
            Ok(op) => operation_parse(kind, value@) == Ok::<_, Seq<char>>(op@),
            Err(m) => operation_parse(kind, value@) == Err::<OperationModel, _>(m@),
        },
{
    match kind {
        OpKind::PrMerged => match parse_issue_ref(value) {
            Ok(r) => Ok(Operation::PrMerged(r)),
            Err(f) => Err(ref_error_message(value, &f, true)),
        },
        OpKind::PrClosed => match parse_issue_ref(value) {
            Ok(r) => Ok(Operation::PrClosed(r)),
            Err(f) => Err(ref_error_message(value, &f, true)),
        },
        OpKind::PrReleased => match parse_issue_ref(value) {
            Ok(r) => Ok(Operation::PrReleased(r)),
            Err(f) => Err(ref_error_message(value, &f, true)),
        },
        OpKind::IssueClosed => match parse_issue_ref(value) {
            Ok(r) => Ok(Operation::IssueClosed(r)),
            Err(f) => Err(ref_error_message(value, &f, true)),
        },
        OpKind::TagExists => match parse_ref_ref(value) {
            Ok(r) => Ok(Operation::TagExists(r)),
            Err(f) => Err(ref_error_message(value, &f, false)),
        },
        OpKind::CommitReleased => match parse_ref_ref(value) {
            Ok(r) => Ok(Operation::CommitReleased(r)),
            Err(f) => Err(ref_error_message(value, &f, false)),
        },
        OpKind::BranchDeleted => match parse_ref_ref(value) {
            Ok(r) => Ok(Operation::BranchDeleted(r)),
            Err(f) => Err(ref_error_message(value, &f, false)),
        },
        OpKind::DatePassed => match parse_date(value) {
            Ok(d) => Ok(Operation::DatePassed(d)),
            Err(m) => Err(m),
        },
        OpKind::NixpkgVersion => match parse_nixpkg_ref(value) {
            Ok(r) => Ok(Operation::NixpkgVersion(r)),
            Err(m) => Err(m),
        },
    }
}

/// The message for a remainder that does not follow the grammar.
fn grammar_error_message(c: char) -> (m: String)
    ensures
        m@ == grammar_message(c),
{
    let mut m = owned("found '");
    let mut cv: Vec<char> = Vec::new();
    cv.push(c);
    push_chars(&mut m, &cv);
    push_str(&mut m, "' where a space, a tab or a token was expected");
    proof {
        assert(cv@ =~= seq![c]);
        assert(m@ =~= grammar_message(c));
    }
    m
}

/// Parses the trimmed text after the marker (`v[from..to]`): its operations,
/// description words and error messages.
pub fn parse_remainder(v: &Vec<char>, from: usize, to: usize) -> (r: (
    Vec<Operation>,
    Vec<String>,
    Vec<String>,
))
    requires
        from <= to <= v@.len(),
    ensures
        r.0@.map_values(|o: Operation| o@) == remainder_parts(v@.subrange(from as int, to as int)).0,
        r.1@.map_values(|w: String| w@) == remainder_parts(v@.subrange(from as int, to as int)).1,
        r.2@.map_values(|m: String| m@) == remainder_parts(v@.subrange(from as int, to as int)).2,
{
    let mut ops: Vec<Operation> = Vec::new();
    let mut desc: Vec<String> = Vec::new();
    let mut errs: Vec<String> = Vec::new();
    let toks = match tokenize(v, from, to) {
        Ok(t) => t,
        Err(c) => {
            errs.push(grammar_error_message(c));
            proof {
                assert(ops@.map_values(|o: Operation| o@) =~= Seq::<OperationModel>::empty());
                assert(desc@.map_values(|w: String| w@) =~= Seq::<Seq<char>>::empty());
                assert(errs@.map_values(|m: String| m@) =~= seq![grammar_message(c)]);
            }
            return (ops, desc, errs);
        },
    };
    let ghost tv = gviews(toks@);
    proof {
        let gt = gtokens(v@.subrange(from as int, to as int));
        assert(gt == Ok::<_, char>(tv));
    }
    let mut i: usize = 0;
    while i < toks.len()
        invariant
            tv == gviews(toks@),
            0 <= i <= toks@.len(),
            ops@.map_values(|o: Operation| o@) == token_ops(tv.take(i as int)),
            desc@.map_values(|w: String| w@) == token_words(tv.take(i as int)),
            errs@.map_values(|m: String| m@) == token_messages(tv.take(i as int)),
        decreases toks@.len() - i,
    {
        let ghost ti = tv.take(i + 1);
        proof {
            assert(ti.drop_last() =~= tv.take(i as int));
            assert(ti.last() == tv[i as int]);
        }
        let ghost o0 = ops@;
        let ghost d0 = desc@;
        let ghost e0 = errs@;
        match &toks[i] {
            GTok::Op(kind, value) => {
                match build_operation(*kind, value) {
                    Ok(op) => ops.push(op),
                    Err(m) => errs.push(m),
                }
            },
            GTok::Word(w) => {
                desc.push(to_string(w));
            },
        }
        proof {
            assert(ops@.map_values(|o: Operation| o@) =~= token_ops(ti));
            assert(desc@.map_values(|w: String| w@) =~= token_words(ti));
            assert(errs@.map_values(|m: String| m@) =~= token_messages(ti));
        }
        i = i + 1;
    }
    proof {
        assert(tv.take(toks@.len() as int) =~= tv);
    }
    (ops, desc, errs)
}

/// Joins description words with single spaces.
pub fn join_words(words: &Vec<String>) -> (s: String)
    ensures
        s@ == join(words@.map_values(|w: String| w@), " "@),
{
    let ghost ws = words@.map_values(|w: String| w@);
    let mut s = String::new();
    let mut i: usize = 0;
    while i < words.len()
        invariant
            ws == words@.map_values(|w: String| w@),
            0 <= i <= words@.len(),
            s@ == join(ws.take(i as int), " "@),
        decreases words@.len() - i,
    {
        proof {
            assert(ws.take(i + 1).drop_last() =~= ws.take(i as int));
            assert(ws.take(i + 1).last() == words@[i as int]@);
        }
        if i > 0 {
            push_str(&mut s, " ");
        }
        s.append(words[i].as_str());
        proof {
            if i == 0 {
                assert(s@ =~= join(ws.take(i + 1), " "@));
            } else {
                assert(s@ =~= join(ws.take(i + 1), " "@));
            }
        }
        i = i + 1;
    }
    proof {
        assert(ws.take(words@.len() as int) =~= ws);
    }
    s
}

/// Parse an entire file, returning all reminders found and any parse errors.
pub fn parse_file(path: &str, content: &str) -> (r: ScanResult)
    requires
        content@.len() <= usize::MAX / 4,
    ensures
        reminder_views(r.reminders@) == lines_reminders(path@, lines(content@)),
        scan_error_views(r.errors@) == lines_errors(path@, lines(content@)),
{
    let v = crate::text::chars_of(content);
    let mut reminders: Vec<Reminder> = Vec::new();
    let mut errors: Vec<ScanError> = Vec::new();
    let ghost mut done: Seq<Seq<char>> = seq![];
    let mut pos: usize = 0;
    let mut line_num: usize = 0;
    proof {
        assert(v@.skip(0) =~= v@);
    }
    while pos < v.len()
        invariant
            v@ == content@,
            v@.len() <= usize::MAX / 4,
            0 <= pos <= v@.len(),
            line_num == done.len(),
            line_num <= pos,
            done + lines(v@.skip(pos as int)) == lines(v@),
            reminder_views(reminders@) == lines_reminders(path@, done),
            scan_error_views(errors@) == lines_errors(path@, done),
        decreases v@.len() - pos,
    {
        let (end, next) = next_line(&v, pos);
        let ghost line = v@.subrange(pos as int, end as int);
        proof {
            assert(lines(v@)[done.len() as int] == line);
        }
        line_num = line_num + 1;
        let ghost r0 = reminders@;
        let ghost e0 = errors@;
        match scan_line_for_marker(&v, pos, end) {
            Some((lo, hi)) => {
                if lo < hi {
                    let ghost rem = v@.subrange(lo as int, hi as int);
                    let (ops, words, msgs) = parse_remainder(&v, lo, hi);
                    proof {
                        assert(rem.len() <= v@.len());
                    }
                    let width = utf8_width(&copy_range(&v, lo, hi));
                    let mut j: usize = 0;
                    while j < msgs.len()
                        invariant
                            0 <= j <= msgs@.len(),
                            msgs@.map_values(|m: String| m@) == remainder_parts(rem).2,
                            width == utf8_len(rem),
                            scan_error_views(errors@) == scan_error_views(e0) + remainder_parts(
                                rem,
                            ).2.take(j as int).map_values(
                                |m: Seq<char>| message_error(path@, line_num, line, rem, m),
                            ),
                            line == v@.subrange(pos as int, end as int),
                            pos <= end <= v@.len(),
                        decreases msgs@.len() - j,
                    {
                        let m = msgs[j].clone();
                        let found = msgs[j].clone();
                        let expected: Vec<String> = Vec::new();
                        proof {
                            assert(expected@.map_values(|e: String| e@) =~= Seq::<Seq<char>>::empty());
                        }
                        let err = ScanError::Parse {
                            file: owned(path),
                            line: line_num,
                            col: 0,
                            message: m,
                            span: 0..width,
                            source_line: crate::text::string_of(&v, pos, end),
                            expected,
                            found: Some(found),
                        };
                        let ghost eb = errors@;
                        errors.push(err);
                        proof {
                            let ms = remainder_parts(rem).2;
                            assert(ms[j as int] == msgs@[j as int]@);
                            assert(scan_error_views(errors@) =~= scan_error_views(eb).push(
                                message_error(path@, line_num, line, rem, ms[j as int]),
                            ));
                            assert(ms.take(j + 1).map_values(
                                |m: Seq<char>| message_error(path@, line_num, line, rem, m),
                            ) =~= ms.take(j as int).map_values(
                                |m: Seq<char>| message_error(path@, line_num, line, rem, m),
                            ).push(message_error(path@, line_num, line, rem, ms[j as int])));
                        }
                        j = j + 1;
                    }
                    proof {
                        let ms = remainder_parts(rem).2;
                        assert(ms.take(msgs@.len() as int) =~= ms);
                    }
                    if ops.len() > 0 {
                        let description = join_words(&words);
                        let reminder = Reminder {
                            file: owned(path),
                            line: line_num,
                            description,
                            operations: ops,
                        };
                        reminders.push(reminder);
                    }
                }
            },
            None => {},
        }
        proof {
            let nd = done.push(line);
            assert(nd.drop_last() =~= done);
            assert(reminder_views(reminders@) =~= lines_reminders(path@, nd));
            assert(scan_error_views(errors@) =~= lines_errors(path@, nd));
            assert(nd + lines(v@.skip(next as int)) =~= done + lines(v@.skip(pos as int)));
            done = nd;
        }
        pos = next;
    }
    proof {
        assert(v@.skip(pos as int) =~= Seq::<char>::empty());
        assert(done =~= lines(v@));
    }
    ScanResult { reminders, errors }
}


/// Whether `parse_file` can take `content`: it is not too long for the
/// byte offsets that the parser keeps.
pub fn content_parsable(content: &str) -> (b: bool)
    ensures
        b == (content@.len() <= usize::MAX / 4),
{
    content.unicode_len() <= usize::MAX / 4
}

/// An operation the grammar reads from a value is read back from the value
/// rendered from it (the comment syntax keeps everything that was read).
pub proof fn lemma_operation_round_trip(kind: OpKind, value: Seq<char>)
    requires
        operation_parse(kind, value) is Ok,
    ensures
        operation_parse(kind, operation_parse(kind, value)->Ok_0.value_text()) == operation_parse(
            kind,
            value,
        ),
{
    match kind {
        OpKind::PrMerged | OpKind::PrClosed | OpKind::PrReleased | OpKind::IssueClosed => {
            lemma_issue_ref_round_trip(value);
        },
        OpKind::TagExists | OpKind::CommitReleased | OpKind::BranchDeleted => {
            lemma_ref_ref_text(value);
        },
        OpKind::NixpkgVersion => {
            lemma_split_parts(value, '@');
            let r = nixpkg_ref_parse(value)->Ok_0;
            assert(crate::ops::types::nixpkg_ref_text(r) =~= value);
        },
        OpKind::DatePassed => {},
    }
}

/// Every token after the marker counts once: as an operation, as a word of
/// the description, or as an error message.
pub proof fn lemma_tokens_accounted(toks: Seq<GToken>)
    ensures
        token_ops(toks).len() + token_words(toks).len() + token_messages(toks).len() == toks.len(),
    decreases toks.len(),
{
    if toks.len() > 0 {
        lemma_tokens_accounted(toks.drop_last());
    }
}



/// The kind of an operation.
pub open spec fn model_kind(op: OperationModel) -> OpKind {
    match op {
        OperationModel::PrMerged(_) => OpKind::PrMerged,
        OperationModel::PrClosed(_) => OpKind::PrClosed,
        OperationModel::TagExists(_) => OpKind::TagExists,
        OperationModel::CommitReleased(_) => OpKind::CommitReleased,
        OperationModel::PrReleased(_) => OpKind::PrReleased,
        OperationModel::IssueClosed(_) => OpKind::IssueClosed,
        OperationModel::BranchDeleted(_) => OpKind::BranchDeleted,
        OperationModel::DatePassed(_) => OpKind::DatePassed,
        OperationModel::NixpkgVersion(_) => OpKind::NixpkgVersion,
    }
}

/// Whether an operation is read back, as itself, from its own comment syntax.
pub open spec fn reads_back(op: OperationModel) -> bool {
    operation_parse(model_kind(op), op.value_text()) == Ok::<_, Seq<char>>(op)
}

/// Every operation the grammar reads is read back from its comment syntax.
pub proof fn lemma_parsed_reads_back(kind: OpKind, value: Seq<char>)
    requires
        operation_parse(kind, value) is Ok,
    ensures
        reads_back(operation_parse(kind, value)->Ok_0),
{
    lemma_operation_round_trip(kind, value);
}

/// Operations that are read back from their comment syntax are told apart by
/// it: two such operations written alike are the same operation.
pub proof fn lemma_text_identifies(a: OperationModel, b: OperationModel)
    requires
        reads_back(a),
        reads_back(b),
        a.text() == b.text(),
    ensures
        a == b,
{
    lemma_kind_name(model_kind(a));
    lemma_kind_name(model_kind(b));
    assert(a.name_text() == kind_name(model_kind(a)));
    assert(b.name_text() == kind_name(model_kind(b)));
    lemma_split_join(a.name_text(), '=', a.value_text());
    lemma_split_join(b.name_text(), '=', b.value_text());
    assert(a.name_text() == b.name_text());
    assert(model_kind(a) == model_kind(b));
}

proof fn lemma_token_ops_read_back(toks: Seq<GToken>)
    ensures
        forall|m: int| 0 <= m < token_ops(toks).len() ==> reads_back(#[trigger] token_ops(toks)[m]),
    decreases toks.len(),
{
    if toks.len() > 0 {
        let p = toks.drop_last();
        lemma_token_ops_read_back(p);
        let ops = token_ops(toks);
        if let GToken::Op(kind, value) = toks.last() {
            if operation_parse(kind, value) is Ok {
                lemma_parsed_reads_back(kind, value);
            }
        }
        assert forall|m: int| 0 <= m < ops.len() implies reads_back(#[trigger] ops[m]) by {
            if m < token_ops(p).len() {
                assert(ops[m] == token_ops(p)[m]);
            }
        }
    }
}

/// Every operation of every reminder the grammar reads from lines is read
/// back, as itself, from its own comment syntax.
pub proof fn lemma_lines_read_back(file: Seq<char>, ls: Seq<Seq<char>>)
    ensures
        forall|i: int, j: int|
            0 <= i < lines_reminders(file, ls).len() && 0 <= j < lines_reminders(
                file,
                ls,
            )[i].operations.len() ==> reads_back(
                #[trigger] lines_reminders(file, ls)[i].operations[j],
            ),
    decreases ls.len(),
{
    if ls.len() > 0 {
        let p = ls.drop_last();
        lemma_lines_read_back(file, p);
        let before = lines_reminders(file, p);
        let here = line_reminders(file, ls.len() as usize, ls.last());
        let all = lines_reminders(file, ls);
        if let Some(rem) = remainder_of(ls.last()) {
            if let Ok(toks) = gtokens(rem) {
                lemma_token_ops_read_back(toks);
            }
        }
        assert forall|i: int, j: int|
            0 <= i < all.len() && 0 <= j < all[i].operations.len() implies reads_back(
            #[trigger] all[i].operations[j],
        ) by {
            if i < before.len() {
                assert(all[i] == before[i]);
            } else {
                assert(all[i] == here[i - before.len()]);
            }
        }
    }
}

/// The text before a marker is read as a comment whenever, trimmed, it starts
/// with one of the line-start comment prefixes `//`, `#`, `--`, `/*`, `<!--`,
/// `%`, `;` or `* ` (a block-comment continuation line); a line whose marker
/// follows such text then has a remainder to read.
pub proof fn lemma_comment_prefixes(before: Seq<char>)
    ensures
        ({
            let t = trim(before);
            (starts_with(t, "//"@) || starts_with(t, "#"@) || starts_with(t, "--"@) || starts_with(
                t,
                "/*"@,
            ) || starts_with(t, "<!--"@) || starts_with(t, "%"@) || starts_with(t, ";"@)
                || starts_with(t, "* "@)) ==> comment_before(before)
        }),
{
}

/// A line whose text before the marker is a comment by its prefix has a
/// remainder: what follows the marker, trimmed.
pub proof fn lemma_prefixed_line_read(line: Seq<char>)
    requires
        split_at_marker(line) is Some,
        ({
            let t = trim((split_at_marker(line)->0).0);
            starts_with(t, "//"@) || starts_with(t, "#"@) || starts_with(t, "--"@) || starts_with(
                t,
                "/*"@,
            ) || starts_with(t, "<!--"@) || starts_with(t, "%"@) || starts_with(t, ";"@)
                || starts_with(t, "* "@)
        }),
    ensures
        remainder_of(line) == Some(trim((split_at_marker(line)->0).1)),
{
    lemma_comment_prefixes((split_at_marker(line)->0).0);
}

} // verus!
