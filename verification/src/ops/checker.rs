//! Checking reminders against the forge: every distinct operation is asked
//! once, and each reminder gets the results of its own operations.
use vstd::prelude::*;

use crate::dates::{
    civil_date_parse, is_on_or_after, is_reached, now_at_offset, now_local, on_or_after,
    parse_civil_date, parse_time, reached, time_parse, time_view, Clock,
};
use crate::errors::{check_error_text, opt_view, reminder_views, CheckError, CheckErrorModel};
use crate::ops::types::{
    AncestorStatus, CheckResult, CheckedReminder, ForgeClient, IssueRef, IssueState, IssueStatus,
    NixpkgRef, NixpkgsBackend, Operation, OperationModel, OperationResult, OperationResultModel,
    OperationStatus, PrState, PrStatus, PrStatusModel, RefRef, Release, Reminder, ReminderModel,
    Tag, CheckResultModel, CheckedReminderModel, ForgeRef, ForgeRefModel, result_views,
};
use crate::ops::version::{
    check_version_constraint, constraint_match, strip_v, strip_version_prefix, tag_views,
};
use crate::scanner::common::{byte_split, split_bytes};
use crate::scanner::grammar::{lemma_text_identifies, reads_back};
use crate::text::{chars_of, is_digit, owned, push_str, string_of};

verus! {

// ---------------------------------------------------------------------------
// What one operation's result is, for each answer of the forge
// ---------------------------------------------------------------------------

/// The status and detail of a result.
pub type Outcome = (OperationStatus, Option<Seq<char>>);

pub open spec fn outcome_of(r: OperationResultModel) -> Outcome {
    (r.status, r.detail)
}

/// A request that failed: an error with the error's message.
pub open spec fn failed(e: CheckErrorModel) -> Outcome {
    (OperationStatus::Error, Some(check_error_text(e)))
}

/// How a pull request state is named in details.
pub open spec fn state_name(s: PrState) -> Seq<char> {
    match s {
        PrState::Open => "Open"@,
        PrState::Closed => "Closed"@,
    }
}

/// `pr_merged`: triggered once the pull request is merged.
pub open spec fn pr_merged_outcome(reply: Result<PrStatusModel, CheckErrorModel>) -> Outcome {
    match reply {
        Err(e) => failed(e),
        Ok(pr) => if pr.merged {
            (
                OperationStatus::Triggered,
                match pr.merged_at {
                    Some(d) => Some("merged "@ + d),
                    None => None,
                },
            )
        } else {
            (OperationStatus::Pending, Some("PR is "@ + state_name(pr.state)))
        },
    }
}

/// `pr_closed`: triggered once the pull request is closed, merged or not.
pub open spec fn pr_closed_outcome(reply: Result<PrStatusModel, CheckErrorModel>) -> Outcome {
    match reply {
        Err(e) => failed(e),
        Ok(pr) => if pr.state == PrState::Closed {
            (
                OperationStatus::Triggered,
                Some(
                    if pr.merged {
                        "closed (merged)"@
                    } else {
                        "closed (not merged)"@
                    },
                ),
            )
        } else {
            (OperationStatus::Pending, Some("PR is open"@))
        },
    }
}

/// The first name of a list, or `none`.
pub open spec fn first_or_none(names: Seq<Seq<char>>) -> Seq<char> {
    if names.len() > 0 {
        names[0]
    } else {
        "none"@
    }
}

/// `tag_exists` and `nixpkg_version`: triggered once a listed version meets
/// the constraint; the detail names it after `matched`, or else the latest.
pub open spec fn version_outcome(
    constraint: Seq<char>,
    reply: Result<Seq<Seq<char>>, CheckErrorModel>,
    matched: Seq<char>,
) -> Outcome {
    match reply {
        Err(e) => failed(e),
        Ok(names) => match constraint_match(constraint, names) {
            Some(i) => (OperationStatus::Triggered, Some(matched + names[i])),
            None => (
                OperationStatus::Pending,
                Some("latest: "@ + first_or_none(names) + ", not yet"@),
            ),
        },
    }
}

/// `tag_exists` for the forge's list of tag names.
pub open spec fn tag_outcome(constraint: Seq<char>, reply: Result<Seq<Seq<char>>, CheckErrorModel>) -> Outcome {
    version_outcome(constraint, reply, "matched tag: "@)
}

/// `nixpkg_version` for the package index's list of versions.
pub open spec fn nixpkg_outcome(constraint: Seq<char>, reply: Result<Seq<Seq<char>>, CheckErrorModel>) -> Outcome {
    version_outcome(constraint, reply, "matched version: "@)
}

/// Whether a commit is in the release tagged `tag`.
pub open spec fn ancestor_outcome(tag: Seq<char>, reply: Result<AncestorStatus, CheckErrorModel>) -> Outcome {
    match reply {
        Err(e) => failed(e),
        Ok(AncestorStatus::Ancestor) => (
            OperationStatus::Triggered,
            Some("included in release "@ + tag),
        ),
        Ok(AncestorStatus::NotAncestor) => (
            OperationStatus::Pending,
            Some("not in latest release ("@ + tag + ")"@),
        ),
    }
}

/// The forge's answers when asked whether a commit is released: about the
/// latest release, whether the commit is in it, and, where there is no
/// release, the repository's tags and whether the commit is in each tag
/// asked about, in order.
pub struct ReleaseReplies {
    pub latest: Result<Option<Seq<char>>, CheckErrorModel>,
    pub ancestor: Result<AncestorStatus, CheckErrorModel>,
    pub tags: Result<Seq<Seq<char>>, CheckErrorModel>,
    pub ancestors: Seq<Result<AncestorStatus, CheckErrorModel>>,
}

/// A tag name that looks like a release version: `1.2.3` or `v1.2.3`, that
/// is, an optional `v` or `V`, then ASCII digits and dots, starting with a
/// digit.
pub open spec fn release_tag(name: Seq<char>) -> bool {
    let s = strip_v(name);
    &&& s.len() > 0
    &&& is_digit(s[0])
    &&& forall|i: int| 0 <= i < s.len() ==> is_digit(#[trigger] s[i]) || s[i] == '.'
}

/// The tags, in order, that look like release versions.
pub open spec fn release_tags(names: Seq<Seq<char>>) -> Seq<Seq<char>>
    decreases names.len(),
{
    if names.len() == 0 {
        seq![]
    } else {
        release_tags(names.drop_last()) + if release_tag(names.last()) {
            seq![names.last()]
        } else {
            seq![]
        }
    }
}

/// Going through the release tags from index `i` on: the first that holds
/// the commit, or the first failed answer; `None` where every tag answered
/// that it does not hold it.
pub open spec fn scan_tags(
    tags: Seq<Seq<char>>,
    answers: Seq<Result<AncestorStatus, CheckErrorModel>>,
    i: int,
) -> Option<Outcome>
    decreases tags.len() - i,
{
    if i < 0 || i >= tags.len() {
        None
    } else {
        match answers[i] {
            Err(e) => Some(failed(e)),
            Ok(AncestorStatus::Ancestor) => Some(
                (OperationStatus::Triggered, Some("included in release "@ + tags[i])),
            ),
            Ok(AncestorStatus::NotAncestor) => scan_tags(tags, answers, i + 1),
        }
    }
}

/// With no release: whether the commit is in any tag that looks like a
/// release version.
pub open spec fn tag_release_outcome(
    tags: Result<Seq<Seq<char>>, CheckErrorModel>,
    answers: Seq<Result<AncestorStatus, CheckErrorModel>>,
) -> Outcome {
    match tags {
        Err(e) => failed(e),
        Ok(names) => {
            let c = release_tags(names);
            if c.len() == 0 {
                (OperationStatus::Pending, Some("no releases found"@))
            } else {
                match scan_tags(c, answers, 0) {
                    Some(o) => o,
                    None => (OperationStatus::Pending, Some("not in any release tag"@)),
                }
            }
        },
    }
}

/// Whether a commit is released: in the latest release (given by its tag
/// name), or, where there is no release, in a tag that looks like one.
pub open spec fn sha_released_outcome(w: ReleaseReplies) -> Outcome {
    match w.latest {
        Err(e) => failed(e),
        Ok(None) => tag_release_outcome(w.tags, w.ancestors),
        Ok(Some(tag)) => ancestor_outcome(tag, w.ancestor),
    }
}

/// `pr_released`: triggered once the merge commit of the pull request is in
/// the latest release.
pub open spec fn pr_released_outcome(pr: Result<PrStatusModel, CheckErrorModel>, w: ReleaseReplies) -> Outcome {
    match pr {
        Err(e) => failed(e),
        Ok(p) => if !p.merged {
            (OperationStatus::Pending, Some("PR not yet merged"@))
        } else {
            match p.merge_commit_sha {
                None => (OperationStatus::Error, Some("PR merged but no merge commit SHA"@)),
                Some(_) => sha_released_outcome(w),
            }
        },
    }
}

/// `issue_closed`: triggered once the issue is closed.
pub open spec fn issue_closed_outcome(reply: Result<IssueState, CheckErrorModel>) -> Outcome {
    match reply {
        Err(e) => failed(e),
        Ok(IssueState::Closed) => (OperationStatus::Triggered, Some("issue closed"@)),
        Ok(IssueState::Open) => (OperationStatus::Pending, Some("issue is open"@)),
    }
}

/// `branch_deleted`: triggered once the branch no longer exists.
pub open spec fn branch_deleted_outcome(reply: Result<bool, CheckErrorModel>) -> Outcome {
    match reply {
        Err(e) => failed(e),
        Ok(false) => (OperationStatus::Triggered, Some("branch deleted"@)),
        Ok(true) => (OperationStatus::Pending, Some("branch still exists"@)),
    }
}

/// The date part of a `date_passed` value and what follows it: its first
/// ten bytes and the rest, or all of it when those bytes cannot be cut out.
pub open spec fn date_split(d: Seq<char>) -> (Seq<char>, Seq<char>) {
    match byte_split(d, 10) {
        Ok(k) => (d.take(k as int), d.skip(k as int)),
        Err(_) => (d, seq![]),
    }
}

/// The time of day that follows the date of a `date_passed` value: none for
/// a date alone, the RFC 3339 time after a `T` or `t`, or `Err` for anything
/// else.
pub open spec fn date_time_part(rest: Seq<char>) -> Result<Option<(int, int, int, int, Option<int>)>, ()> {
    if rest.len() == 0 {
        Ok(None)
    } else if (rest[0] == 'T' || rest[0] == 't') && time_parse(rest.drop_first()) is Some {
        Ok(Some(time_parse(rest.drop_first())->0))
    } else {
        Err(())
    }
}

/// `date_passed` for a parsed date and a reading of the clock: a date alone
/// has passed from the start of its day on; a date and time once the clock
/// reaches that time (a time with a zone offset is compared with the clock
/// read at that offset, one without with the local clock).
pub open spec fn date_parsed_outcome(
    date: Seq<char>,
    parsed: Result<(i16, i8, i8), Seq<char>>,
    now: Clock,
) -> Outcome {
    match parsed {
        Err(e) => (OperationStatus::Error, Some("invalid date '"@ + date + "': "@ + e)),
        Ok(target) => match date_time_part(date_split(date).1) {
            Err(_) => (OperationStatus::Error, Some("invalid time in '"@ + date + "'"@)),
            Ok(t) => if (match t {
                None => on_or_after(now.date, target),
                Some(tm) => reached(now, target, (tm.0, tm.1, tm.2, tm.3)),
            }) {
                (OperationStatus::Triggered, Some("date "@ + date + " has passed"@))
            } else {
                (OperationStatus::Pending, Some("date "@ + date + " is in the future"@))
            },
        },
    }
}

/// The zone a `date_passed` value is judged in: the offset of its time where
/// it has one, else `None` (the system time zone).
pub open spec fn date_zone(d: Seq<char>) -> Option<int> {
    match date_time_part(date_split(d).1) {
        Ok(Some(t)) => t.4,
        _ => None,
    }
}

/// The zone a clock reading was made in, as an offset in seconds.
pub open spec fn clock_zone(c: Clock) -> Option<int> {
    match c.zone {
        Some(o) => Some(o as int),
        None => None,
    }
}

/// `date_passed` for a reading of the clock.
pub open spec fn date_outcome(date: Seq<char>, now: Clock) -> Outcome {
    date_parsed_outcome(date, civil_date_parse(date_split(date).0), now)
}

/// Whether clock reading `a` is at or after reading `b`.
pub open spec fn clock_after(a: Clock, b: Clock) -> bool {
    reached(a, b.date, (b.time.0 as int, b.time.1 as int, b.time.2 as int, b.time.3 as int))
}

/// Once a `date_passed` operation has triggered it stays triggered: on any
/// later reading of the clock the outcome is the same.
pub proof fn lemma_date_stays_passed(date: Seq<char>, earlier: Clock, later: Clock)
    requires
        clock_after(later, earlier),
        date_outcome(date, earlier).0 == OperationStatus::Triggered,
    ensures
        date_outcome(date, later) == date_outcome(date, earlier),
{
}

/// The detail of a `nixpkg_version` operation checked without a nixpkgs client.
pub open spec fn nixpkgs_missing() -> Outcome {
    (OperationStatus::Error, Some("nixpkgs checking not configured"@))
}

// ---------------------------------------------------------------------------
// The answers, as values
// ---------------------------------------------------------------------------

pub open spec fn pr_reply(r: Result<PrStatus, CheckError>) -> Result<PrStatusModel, CheckErrorModel> {
    match r {
        Ok(p) => Ok(p@),
        Err(e) => Err(e@),
    }
}

pub open spec fn tag_names(tags: Seq<Tag>) -> Seq<Seq<char>> {
    tags.map_values(|t: Tag| t.name@)
}

pub open spec fn tags_reply(r: Result<Vec<Tag>, CheckError>) -> Result<Seq<Seq<char>>, CheckErrorModel> {
    match r {
        Ok(v) => Ok(tag_names(v@)),
        Err(e) => Err(e@),
    }
}

pub open spec fn versions_reply(r: Result<Vec<String>, CheckError>) -> Result<
    Seq<Seq<char>>,
    CheckErrorModel,
> {
    match r {
        Ok(v) => Ok(tag_views(v@)),
        Err(e) => Err(e@),
    }
}

pub open spec fn issue_reply(r: Result<IssueStatus, CheckError>) -> Result<IssueState, CheckErrorModel> {
    match r {
        Ok(i) => Ok(i.state),
        Err(e) => Err(e@),
    }
}

pub open spec fn branch_reply(r: Result<bool, CheckError>) -> Result<bool, CheckErrorModel> {
    match r {
        Ok(b) => Ok(b),
        Err(e) => Err(e@),
    }
}

pub open spec fn latest_reply(r: Result<Option<Release>, CheckError>) -> Result<
    Option<Seq<char>>,
    CheckErrorModel,
> {
    match r {
        Ok(Some(rel)) => Ok(Some(rel.tag_name@)),
        Ok(None) => Ok(None),
        Err(e) => Err(e@),
    }
}

pub open spec fn ancestor_reply(r: Result<AncestorStatus, CheckError>) -> Result<
    AncestorStatus,
    CheckErrorModel,
> {
    match r {
        Ok(a) => Ok(a),
        Err(e) => Err(e@),
    }
}

// ---------------------------------------------------------------------------
// Results from answers
// ---------------------------------------------------------------------------

fn result(op: Operation, status: OperationStatus, detail: Option<String>) -> (r: OperationResult)
    ensures
        r.operation@ == op@,
        outcome_of(r@) == (status, opt_view(detail)),
{
    OperationResult { operation: op, status, detail }
}

fn text(s: &str) -> (r: Option<String>)
    ensures
        opt_view(r) == Some(s@),
{
    Some(owned(s))
}

/// The result of an operation whose request failed with `e`.
pub fn failed_result(op: Operation, e: &CheckError) -> (r: OperationResult)
    ensures
        r.operation@ == op@,
        outcome_of(r@) == failed(e@),
{
    result(op, OperationStatus::Error, Some(e.render()))
}

/// The result of `pr_merged` for the forge's answer about the pull request.
pub fn pr_merged_result(op: Operation, reply: &Result<PrStatus, CheckError>) -> (r: OperationResult)
    ensures
        r.operation@ == op@,
        outcome_of(r@) == pr_merged_outcome(pr_reply(*reply)),
{
    match reply {
        Err(e) => failed_result(op, e),
        Ok(pr) => if pr.merged {
            let detail = match &pr.merged_at {
                Some(d) => {
                    let mut s = owned("merged ");
                    s.append(d.as_str());
                    Some(s)
                },
                None => None,
            };
            result(op, OperationStatus::Triggered, detail)
        } else {
            let detail = match pr.state {
                PrState::Open => owned("PR is Open"),
                PrState::Closed => owned("PR is Closed"),
            };
            proof {
                reveal_strlit("PR is Open");
                reveal_strlit("PR is Closed");
                reveal_strlit("PR is ");
                reveal_strlit("Open");
                reveal_strlit("Closed");
                assert(detail@ =~= "PR is "@ + state_name(pr.state));
            }
            result(op, OperationStatus::Pending, Some(detail))
        },
    }
}

/// The result of `pr_closed` for the forge's answer about the pull request.
pub fn pr_closed_result(op: Operation, reply: &Result<PrStatus, CheckError>) -> (r: OperationResult)
    ensures
        r.operation@ == op@,
        outcome_of(r@) == pr_closed_outcome(pr_reply(*reply)),
{
    match reply {
        Err(e) => failed_result(op, e),
        Ok(pr) => if pr.state == PrState::Closed {
            let detail = if pr.merged {
                text("closed (merged)")
            } else {
                text("closed (not merged)")
            };
            result(op, OperationStatus::Triggered, detail)
        } else {
            result(op, OperationStatus::Pending, text("PR is open"))
        },
    }
}

/// The names of tags, in order.
pub fn names_of(tags: &Vec<Tag>) -> (names: Vec<String>)
    ensures
        tag_views(names@) == tag_names(tags@),
{
    let mut names: Vec<String> = Vec::new();
    let mut i: usize = 0;
    while i < tags.len()
        invariant
            0 <= i <= tags@.len(),
            names@.len() == i,
            forall|k: int| 0 <= k < i ==> (#[trigger] names@[k])@ == tags@[k].name@,
        decreases tags@.len() - i,
    {
        names.push(tags[i].name.clone());
        i = i + 1;
    }
    proof {
        assert(tag_views(names@) =~= tag_names(tags@));
    }
    names
}

/// The result of a version check over a list of versions (or tag names):
/// the first that meets the constraint, named after `matched`, or the latest.
pub fn matched_result(op: Operation, constraint: &str, names: &Vec<String>, matched: &str) -> (r:
    OperationResult)
    ensures
        r.operation@ == op@,
        outcome_of(r@) == version_outcome(constraint@, Ok(tag_views(names@)), matched@),
{
    match check_version_constraint(constraint, names.as_slice()) {
        Some(t) => {
            let mut s = owned(matched);
            s.append(t.as_str());
            result(op, OperationStatus::Triggered, Some(s))
        },
        None => {
            let mut s = owned("latest: ");
            if names.len() > 0 {
                s.append(names[0].as_str());
            } else {
                push_str(&mut s, "none");
            }
            push_str(&mut s, ", not yet");
            proof {
                reveal_strlit("none");
                assert(s@ =~= "latest: "@ + first_or_none(tag_views(names@)) + ", not yet"@);
            }
            result(op, OperationStatus::Pending, Some(s))
        },
    }
}

/// The result of `tag_exists` for the forge's list of tags.
pub fn tag_exists_result(op: Operation, constraint: &str, reply: &Result<Vec<Tag>, CheckError>) -> (r:
    OperationResult)
    ensures
        r.operation@ == op@,
        outcome_of(r@) == tag_outcome(constraint@, tags_reply(*reply)),
{
    match reply {
        Err(e) => failed_result(op, e),
        Ok(tags) => {
            let names = names_of(tags);
            matched_result(op, constraint, &names, "matched tag: ")
        },
    }
}

/// The result of `nixpkg_version` for the package index's list of versions.
pub fn nixpkg_result(op: Operation, constraint: &str, reply: &Result<Vec<String>, CheckError>) -> (r:
    OperationResult)
    ensures
        r.operation@ == op@,
        outcome_of(r@) == nixpkg_outcome(constraint@, versions_reply(*reply)),
{
    match reply {
        Err(e) => failed_result(op, e),
        Ok(versions) => matched_result(op, constraint, versions, "matched version: "),
    }
}

/// The result of asking whether a commit is in the release tagged `tag`.
pub fn ancestor_result(op: Operation, tag: &str, reply: &Result<AncestorStatus, CheckError>) -> (r:
    OperationResult)
    ensures
        r.operation@ == op@,
        outcome_of(r@) == ancestor_outcome(tag@, ancestor_reply(*reply)),
{
    match reply {
        Err(e) => failed_result(op, e),
        Ok(AncestorStatus::Ancestor) => {
            let mut s = owned("included in release ");
            push_str(&mut s, tag);
            result(op, OperationStatus::Triggered, Some(s))
        },
        Ok(AncestorStatus::NotAncestor) => {
            let mut s = owned("not in latest release (");
            push_str(&mut s, tag);
            push_str(&mut s, ")");
            result(op, OperationStatus::Pending, Some(s))
        },
    }
}

/// The result of `issue_closed` for the forge's answer about the issue.
pub fn issue_closed_result(op: Operation, reply: &Result<IssueStatus, CheckError>) -> (r:
    OperationResult)
    ensures
        r.operation@ == op@,
        outcome_of(r@) == issue_closed_outcome(issue_reply(*reply)),
{
    match reply {
        Err(e) => failed_result(op, e),
        Ok(issue) => if issue.state == IssueState::Closed {
            result(op, OperationStatus::Triggered, text("issue closed"))
        } else {
            result(op, OperationStatus::Pending, text("issue is open"))
        },
    }
}

/// The result of `branch_deleted` for the forge's answer whether the branch exists.
pub fn branch_deleted_result(op: Operation, reply: &Result<bool, CheckError>) -> (r: OperationResult)
    ensures
        r.operation@ == op@,
        outcome_of(r@) == branch_deleted_outcome(branch_reply(*reply)),
{
    match reply {
        Err(e) => failed_result(op, e),
        Ok(exists) => if !*exists {
            result(op, OperationStatus::Triggered, text("branch deleted"))
        } else {
            result(op, OperationStatus::Pending, text("branch still exists"))
        },
    }
}

/// The result of `date_passed` for the parsed date and a reading of the clock.
pub fn date_result(
    op: Operation,
    date: &str,
    parsed: &Result<(i16, i8, i8), String>,
    now: Clock,
) -> (r: OperationResult)
    ensures
        r.operation@ == op@,
        outcome_of(r@) == date_parsed_outcome(
            date@,
            match parsed {
                Ok(d) => Ok(*d),
                Err(e) => Err(e@),
            },
            now,
        ),
{
    match parsed {
        Err(e) => {
            let mut s = owned("invalid date '");
            push_str(&mut s, date);
            push_str(&mut s, "': ");
            s.append(e.as_str());
            result(op, OperationStatus::Error, Some(s))
        },
        Ok(target) => {
            let time = match time_of(date) {
                Ok(t) => t,
                Err(_) => {
                    let mut s = owned("invalid time in '");
                    push_str(&mut s, date);
                    push_str(&mut s, "'");
                    return result(op, OperationStatus::Error, Some(s));
                },
            };
            let passed = match time {
                None => is_on_or_after(now.date, *target),
                Some(t) => is_reached(now, *target, (t.0, t.1, t.2, t.3)),
            };
            let mut s = owned("date ");
            push_str(&mut s, date);
            if passed {
                push_str(&mut s, " has passed");
                result(op, OperationStatus::Triggered, Some(s))
            } else {
                push_str(&mut s, " is in the future");
                result(op, OperationStatus::Pending, Some(s))
            }
        },
    }
}

/// The time of day of a `date_passed` value (see `date_time_part`).
fn time_of(date: &str) -> (r: Result<Option<(i8, i8, i8, i32, Option<i32>)>, ()>)
    ensures
        match r {
            Ok(Some(x)) => date_time_part(date_split(date@).1) == Ok::<_, ()>(Some(time_view(x)))
                && (x.4 matches Some(o) ==> -93599 <= o <= 93599),
            Ok(None) => date_time_part(date_split(date@).1) == Ok::<
                Option<(int, int, int, int, Option<int>)>,
                (),
            >(None),
            Err(_) => date_time_part(date_split(date@).1) is Err,
        },
{
    let v = chars_of(date);
    let k = match split_bytes(&v, 10) {
        Ok(k) => k,
        Err(_) => {
            proof {
                assert(date_split(date@).1 =~= seq![]);
            }
            return Ok(None);
        },
    };
    let ghost rest = v@.skip(k as int);
    if k == v.len() {
        proof {
            assert(rest.len() == 0);
        }
        return Ok(None);
    }
    if v[k] != 'T' && v[k] != 't' {
        return Err(());
    }
    proof {
        assert(rest.drop_first() =~= v@.skip(k + 1));
    }
    match parse_time(&v, k + 1) {
        Some(t) => Ok(Some(t)),
        None => Err(()),
    }
}


// ---------------------------------------------------------------------------
// Asking the forge
// ---------------------------------------------------------------------------

/// The answers that checking an operation can get: from the forge, from the
/// package index, and the clock.
pub struct Replies {
    pub pr: Result<PrStatusModel, CheckErrorModel>,
    pub tags: Result<Seq<Seq<char>>, CheckErrorModel>,
    pub release: ReleaseReplies,
    pub issue: Result<IssueState, CheckErrorModel>,
    pub branch: Result<bool, CheckErrorModel>,
    pub clock: Clock,
    pub limited: Option<Seq<char>>,
    pub versions: Result<Seq<Seq<char>>, CheckErrorModel>,
}

/// Answers that fill the fields an operation does not read.
pub open spec fn unread() -> Replies {
    Replies {
        pr: Err(CheckErrorModel::Network { message: seq![] }),
        tags: Ok(seq![]),
        release: ReleaseReplies {
            latest: Ok(None),
            ancestor: Ok(AncestorStatus::NotAncestor),
            tags: Ok(seq![]),
            ancestors: seq![],
        },
        issue: Ok(IssueState::Open),
        branch: Ok(true),
        clock: Clock { date: (0, 0, 0), time: (0, 0, 0, 0), zone: None },
        limited: None,
        versions: Ok(seq![]),
    }
}

/// The forge reference of an operation that asks the forge.
pub open spec fn forge_of(op: OperationModel) -> Option<ForgeRefModel> {
    match op {
        OperationModel::PrMerged(x) => Some(x.forge_ref),
        OperationModel::PrClosed(x) => Some(x.forge_ref),
        OperationModel::TagExists(x) => Some(x.forge_ref),
        OperationModel::CommitReleased(x) => Some(x.forge_ref),
        OperationModel::PrReleased(x) => Some(x.forge_ref),
        OperationModel::IssueClosed(x) => Some(x.forge_ref),
        OperationModel::BranchDeleted(x) => Some(x.forge_ref),
        OperationModel::DatePassed(_) => None,
        OperationModel::NixpkgVersion(_) => None,
    }
}

/// The status and detail of checking `op` for the answers `w`; `nixpkgs`
/// tells whether a package index was given at all. Once the forge's rate
/// limit is exhausted, an operation that would ask it is not asked and is
/// reported as rate limited.
pub open spec fn operation_outcome(op: OperationModel, nixpkgs: bool, w: Replies) -> Outcome {
    match (forge_of(op), w.limited) {
        (Some(f), Some(reset)) => failed(
            CheckErrorModel::RateLimited { forge: f.forge, reset_at: reset },
        ),
        _ => answered_outcome(op, nixpkgs, w),
    }
}

/// The status and detail of checking `op` for the answers `w`, asked of the
/// forge or the package index.
pub open spec fn answered_outcome(op: OperationModel, nixpkgs: bool, w: Replies) -> Outcome {
    match op {
        OperationModel::PrMerged(_) => pr_merged_outcome(w.pr),
        OperationModel::PrClosed(_) => pr_closed_outcome(w.pr),
        OperationModel::TagExists(tag_ref) => tag_outcome(tag_ref.value, w.tags),
        OperationModel::CommitReleased(_) => sha_released_outcome(w.release),
        OperationModel::PrReleased(_) => pr_released_outcome(w.pr, w.release),
        OperationModel::IssueClosed(_) => issue_closed_outcome(w.issue),
        OperationModel::BranchDeleted(_) => branch_deleted_outcome(w.branch),
        OperationModel::DatePassed(date) => date_outcome(date, w.clock),
        OperationModel::NixpkgVersion(pkg) => if nixpkgs {
            nixpkg_outcome(pkg.version_constraint, w.versions)
        } else {
            nixpkgs_missing()
        },
    }
}

/// The result of checking `op` for the answers `w`.
pub open spec fn operation_result(op: OperationModel, nixpkgs: bool, w: Replies) -> OperationResultModel {
    let o = operation_outcome(op, nixpkgs, w);
    OperationResultModel { operation: op, status: o.0, detail: o.1 }
}

/// Whether `w` holds the forge's answers when asked whether commit `sha` of
/// `owner/repo` is released: about its latest release; where there is one,
/// whether `sha` is an ancestor of that release's tag; where there is none,
/// its tags, and for each tag that looks like a release and that was reached
/// (every earlier one answered that it does not hold `sha`), whether `sha` is
/// an ancestor of it.
pub open spec fn sha_answers<C: ForgeClient + ?Sized>(
    client: &C,
    owner: Seq<char>,
    repo: Seq<char>,
    sha: Seq<char>,
    w: ReleaseReplies,
) -> bool {
    &&& client.latest_answers(owner, repo, w.latest)
    &&& match w.latest {
        Ok(Some(tag)) => client.ancestor_answers(owner, repo, sha, tag, w.ancestor),
        Ok(None) => tag_answers(client, owner, repo, sha, w.tags, w.ancestors),
        Err(_) => true,
    }
}

/// Whether `t` and `ans` hold the forge's answers about the tags of
/// `owner/repo`: `t` for the tags, and `ans[i]` for whether `sha` is an
/// ancestor of the `i`-th tag that looks like a release, for each such tag
/// that was reached (every earlier one answered that it does not hold `sha`).
pub open spec fn tag_answers<C: ForgeClient + ?Sized>(
    client: &C,
    owner: Seq<char>,
    repo: Seq<char>,
    sha: Seq<char>,
    t: Result<Seq<Seq<char>>, CheckErrorModel>,
    ans: Seq<Result<AncestorStatus, CheckErrorModel>>,
) -> bool {
    &&& client.tags_answers(owner, repo, t)
    &&& match t {
        Ok(names) => forall|i: int|
            0 <= i < release_tags(names).len() && (forall|j: int|
                0 <= j < i ==> ans[j] == Ok::<_, CheckErrorModel>(AncestorStatus::NotAncestor))
                ==> i < ans.len() && client.ancestor_answers(
                owner,
                repo,
                sha,
                release_tags(names)[i],
                #[trigger] ans[i],
            ),
        Err(_) => true,
    }
}

/// Whether `p`, `l` and `a` are the forge's answers when asked whether pull
/// request `number` of `owner/repo` is released: `p` for the pull request and,
/// where it was merged with a merge commit, `l` and `a` for that commit.
pub open spec fn pr_released_answers<C: ForgeClient + ?Sized>(
    client: &C,
    owner: Seq<char>,
    repo: Seq<char>,
    number: u64,
    p: Result<PrStatusModel, CheckErrorModel>,
    w: ReleaseReplies,
) -> bool {
    &&& client.pr_answers(owner, repo, number, p)
    &&& match p {
        Ok(pr) => match pr.merge_commit_sha {
            Some(sha) => pr.merged ==> sha_answers(client, owner, repo, sha, w),
            None => true,
        },
        Err(_) => true,
    }
}

/// Whether the answers `w` are those the forge and the package index gave
/// when asked about the references of `op`.
pub open spec fn replies_fit<C: ForgeClient + ?Sized, N: NixpkgsBackend + ?Sized>(
    client: &C,
    nixpkgs_client: Option<&N>,
    op: OperationModel,
    w: Replies,
) -> bool {
    &&& forge_of(op) is Some ==> client.limit_answers(w.limited)
    &&& (forge_of(op) is None || w.limited is None) ==> answers_fit(client, nixpkgs_client, op, w)
}

/// Whether the answers `w` are those the forge and the package index gave
/// when asked about the references of `op`.
pub open spec fn answers_fit<C: ForgeClient + ?Sized, N: NixpkgsBackend + ?Sized>(
    client: &C,
    nixpkgs_client: Option<&N>,
    op: OperationModel,
    w: Replies,
) -> bool {
    match op {
        OperationModel::PrMerged(x) => client.pr_answers(
            x.forge_ref.owner,
            x.forge_ref.repo,
            x.number,
            w.pr,
        ),
        OperationModel::PrClosed(x) => client.pr_answers(
            x.forge_ref.owner,
            x.forge_ref.repo,
            x.number,
            w.pr,
        ),
        OperationModel::TagExists(x) => client.tags_answers(x.forge_ref.owner, x.forge_ref.repo, w.tags),
        OperationModel::CommitReleased(x) => sha_answers(
            client,
            x.forge_ref.owner,
            x.forge_ref.repo,
            x.value,
            w.release,
        ),
        OperationModel::PrReleased(x) => pr_released_answers(
            client,
            x.forge_ref.owner,
            x.forge_ref.repo,
            x.number,
            w.pr,
            w.release,
        ),
        OperationModel::IssueClosed(x) => client.issue_answers(
            x.forge_ref.owner,
            x.forge_ref.repo,
            x.number,
            w.issue,
        ),
        OperationModel::BranchDeleted(x) => client.branch_answers(
            x.forge_ref.owner,
            x.forge_ref.repo,
            x.value,
            w.branch,
        ),
        OperationModel::DatePassed(d) => clock_zone(w.clock) == date_zone(d),
        OperationModel::NixpkgVersion(x) => match nixpkgs_client {
            Some(c) => c.versions_answers(x.package, w.versions),
            None => true,
        },
    }
}

fn check_pr_merged<C: ForgeClient + ?Sized>(issue_ref: &IssueRef, client: &C) -> (r: OperationResult)
    ensures
        r.operation@ == OperationModel::PrMerged(issue_ref@),
        exists|p: Result<PrStatusModel, CheckErrorModel>|
            #[trigger] client.pr_answers(
                issue_ref@.forge_ref.owner,
                issue_ref@.forge_ref.repo,
                issue_ref@.number,
                p,
            ) && pr_merged_outcome(p) == outcome_of(r@),
{
    let op = Operation::PrMerged(issue_ref.duplicate());
    let reply = client.get_pr_status(
        issue_ref.forge_ref.owner.as_str(),
        issue_ref.forge_ref.repo.as_str(),
        issue_ref.number,
    );
    let r = pr_merged_result(op, &reply);
    proof {
        assert(client.pr_answers(
            issue_ref@.forge_ref.owner,
            issue_ref@.forge_ref.repo,
            issue_ref@.number,
            pr_reply(reply),
        ));
        assert(pr_merged_outcome(pr_reply(reply)) == outcome_of(r@));
    }
    r
}

fn check_pr_closed<C: ForgeClient + ?Sized>(issue_ref: &IssueRef, client: &C) -> (r: OperationResult)
    ensures
        r.operation@ == OperationModel::PrClosed(issue_ref@),
        exists|p: Result<PrStatusModel, CheckErrorModel>|
            #[trigger] client.pr_answers(
                issue_ref@.forge_ref.owner,
                issue_ref@.forge_ref.repo,
                issue_ref@.number,
                p,
            ) && pr_closed_outcome(p) == outcome_of(r@),
{
    let op = Operation::PrClosed(issue_ref.duplicate());
    let reply = client.get_pr_status(
        issue_ref.forge_ref.owner.as_str(),
        issue_ref.forge_ref.repo.as_str(),
        issue_ref.number,
    );
    let r = pr_closed_result(op, &reply);
    proof {
        assert(client.pr_answers(
            issue_ref@.forge_ref.owner,
            issue_ref@.forge_ref.repo,
            issue_ref@.number,
            pr_reply(reply),
        ));
        assert(pr_closed_outcome(pr_reply(reply)) == outcome_of(r@));
    }
    r
}

fn check_tag_exists<C: ForgeClient + ?Sized>(ref_ref: &RefRef, client: &C) -> (r: OperationResult)
    ensures
        r.operation@ == OperationModel::TagExists(ref_ref@),
        exists|t: Result<Seq<Seq<char>>, CheckErrorModel>|
            #[trigger] client.tags_answers(ref_ref@.forge_ref.owner, ref_ref@.forge_ref.repo, t)
                && tag_outcome(ref_ref@.value, t) == outcome_of(r@),
{
    let op = Operation::TagExists(ref_ref.duplicate());
    let reply = client.get_tags(ref_ref.forge_ref.owner.as_str(), ref_ref.forge_ref.repo.as_str());
    let r = tag_exists_result(op, ref_ref.value.as_str(), &reply);
    proof {
        assert(client.tags_answers(
            ref_ref@.forge_ref.owner,
            ref_ref@.forge_ref.repo,
            tags_reply(reply),
        ));
        assert(tag_outcome(ref_ref@.value, tags_reply(reply)) == outcome_of(r@));
    }
    r
}

/// Whether a tag name looks like a release version (see `release_tag`).
fn is_release_tag(name: &str) -> (b: bool)
    ensures
        b == release_tag(name@),
{
    let s = strip_version_prefix(name);
    let v = chars_of(s);
    if v.len() == 0 {
        return false;
    }
    if !('0' as u32 <= v[0] as u32 && v[0] as u32 <= '9' as u32) {
        return false;
    }
    let mut i: usize = 0;
    while i < v.len()
        invariant
            v@ == strip_v(name@),
            0 <= i <= v@.len(),
            forall|k: int| 0 <= k < i ==> is_digit(#[trigger] v@[k]) || v@[k] == '.',
        decreases v@.len() - i,
    {
        let c = v[i];
        if !(('0' as u32 <= c as u32 && c as u32 <= '9' as u32) || c == '.') {
            return false;
        }
        i = i + 1;
    }
    true
}

/// The names, in order, of the tags that look like release versions.
fn release_tags_of(tags: &Vec<Tag>) -> (r: Vec<String>)
    ensures
        tag_views(r@) == release_tags(tag_names(tags@)),
{
    let ghost names = tag_names(tags@);
    let mut r: Vec<String> = Vec::new();
    let mut i: usize = 0;
    proof {
        assert(tag_views(r@) =~= release_tags(names.take(0)));
    }
    while i < tags.len()
        invariant
            names == tag_names(tags@),
            0 <= i <= tags@.len(),
            tag_views(r@) == release_tags(names.take(i as int)),
        decreases tags@.len() - i,
    {
        proof {
            assert(names.take(i + 1).drop_last() =~= names.take(i as int));
            assert(names.take(i + 1).last() == tags@[i as int].name@);
        }
        let ghost before = tag_views(r@);
        if is_release_tag(tags[i].name.as_str()) {
            r.push(tags[i].name.clone());
            proof {
                assert(tag_views(r@) =~= before + seq![tags@[i as int].name@]);
            }
        } else {
            proof {
                assert(tag_views(r@) =~= before + Seq::<Seq<char>>::empty());
            }
        }
        i = i + 1;
    }
    proof {
        assert(names.take(tags@.len() as int) =~= names);
    }
    r
}

/// Skipping tags that all answered that they do not hold the commit.
proof fn lemma_scan_skip(
    c: Seq<Seq<char>>,
    ans: Seq<Result<AncestorStatus, CheckErrorModel>>,
    i: int,
)
    requires
        0 <= i <= c.len(),
        forall|j: int| 0 <= j < i ==> ans[j] == Ok::<_, CheckErrorModel>(AncestorStatus::NotAncestor),
    ensures
        scan_tags(c, ans, 0) == scan_tags(c, ans, i),
    decreases i,
{
    if i > 0 {
        lemma_scan_skip(c, ans, i - 1);
    }
}

/// With no release: whether commit `sha` is in a tag of `owner/repo` that
/// looks like a release, asking about those tags in order until one answers
/// that it holds the commit or an answer fails.
fn check_release_tags<C: ForgeClient + ?Sized>(
    owner: &str,
    repo: &str,
    sha: &str,
    op: Operation,
    client: &C,
) -> (r: OperationResult)
    ensures
        r.operation@ == op@,
        exists|t: Result<Seq<Seq<char>>, CheckErrorModel>, ans: Seq<Result<AncestorStatus, CheckErrorModel>>|
            #[trigger] tag_answers(client, owner@, repo@, sha@, t, ans) && tag_release_outcome(t, ans)
                == outcome_of(r@),
{
    let tags = client.get_tags(owner, repo);
    let ghost tr = tags_reply(tags);
    let ghost na: Result<AncestorStatus, CheckErrorModel> = Ok(AncestorStatus::NotAncestor);
    match &tags {
        Err(e) => {
            let r = failed_result(op, e);
            proof {
                assert(tag_release_outcome(tr, seq![]) == outcome_of(r@));
                assert(tag_answers(client, owner@, repo@, sha@, tr, seq![]));
            }
            r
        },
        Ok(list) => {
            let cands = release_tags_of(list);
            let ghost c = tag_views(cands@);
            let ghost names = tag_names(list@);
            proof {
                assert(tr == Ok::<_, CheckErrorModel>(names));
                assert(c == release_tags(names));
            }
            let ghost mut ans: Seq<Result<AncestorStatus, CheckErrorModel>> = seq![];
            let mut i: usize = 0;
            while i < cands.len()
                invariant
                    c == tag_views(cands@),
                    c == release_tags(names),
                    tr == Ok::<_, CheckErrorModel>(names),
                    client.tags_answers(owner@, repo@, tr),
                    0 <= i <= cands@.len(),
                    ans.len() == i,
                    forall|j: int| 0 <= j < i ==> ans[j] == na,
                    forall|j: int|
                        0 <= j < i ==> client.ancestor_answers(
                            owner@,
                            repo@,
                            sha@,
                            c[j],
                            #[trigger] ans[j],
                        ),
                    na == Ok::<_, CheckErrorModel>(AncestorStatus::NotAncestor),
                decreases cands@.len() - i,
            {
                let reply = client.is_ancestor(owner, repo, sha, cands[i].as_str());
                let ghost x = ancestor_reply(reply);
                let ghost ans2 = ans.push(x);
                proof {
                    assert(cands@[i as int]@ == c[i as int]);
                    assert(client.ancestor_answers(owner@, repo@, sha@, c[i as int], x));
                    assert(ans2[i as int] == x);
                    lemma_scan_skip(c, ans2, i as int);
                    if x != na {
                        assert forall|k: int|
                            0 <= k < c.len() && (forall|j: int| 0 <= j < k ==> ans2[j] == na)
                                implies k < ans2.len() && client.ancestor_answers(
                            owner@,
                            repo@,
                            sha@,
                            c[k],
                            #[trigger] ans2[k],
                        ) by {
                            if k > i {
                                assert(ans2[i as int] == na);
                            }
                            if k < i {
                                assert(ans2[k] == ans[k]);
                            }
                        }
                        assert(tag_answers(client, owner@, repo@, sha@, tr, ans2));
                    }
                }
                match &reply {
                    Err(e) => {
                        let r = failed_result(op, e);
                        proof {
                            assert(scan_tags(c, ans2, i as int) == Some(failed(e@)));
                            assert(tag_release_outcome(tr, ans2) == outcome_of(r@));
                        }
                        return r;
                    },
                    Ok(AncestorStatus::Ancestor) => {
                        let mut d = owned("included in release ");
                        push_str(&mut d, cands[i].as_str());
                        let r = result(op, OperationStatus::Triggered, Some(d));
                        proof {
                            assert(d@ == "included in release "@ + c[i as int]);
                            assert(scan_tags(c, ans2, i as int) == Some(
                                (OperationStatus::Triggered, Some("included in release "@ + c[i as int])),
                            ));
                            assert(tag_release_outcome(tr, ans2) == outcome_of(r@));
                        }
                        return r;
                    },
                    Ok(AncestorStatus::NotAncestor) => {},
                }
                proof {
                    ans = ans2;
                }
                i = i + 1;
            }
            let r = if cands.len() == 0 {
                result(op, OperationStatus::Pending, text("no releases found"))
            } else {
                result(op, OperationStatus::Pending, text("not in any release tag"))
            };
            proof {
                lemma_scan_skip(c, ans, c.len() as int);
                assert(tag_release_outcome(tr, ans) == outcome_of(r@));
                assert(tag_answers(client, owner@, repo@, sha@, tr, ans));
            }
            r
        },
    }
}

/// Whether the commit `sha` is released: in the latest release, or, where
/// the repository has no release, in a tag that looks like one; `op` is the
/// operation the result is for.
fn check_sha_released<C: ForgeClient + ?Sized>(owner: &str, repo: &str, sha: &str, op: Operation, client: &C) -> (r:
    OperationResult)
    ensures
        r.operation@ == op@,
        exists|w: ReleaseReplies|
            #[trigger] sha_answers(client, owner@, repo@, sha@, w) && sha_released_outcome(w)
                == outcome_of(r@),
{
    let latest = client.get_latest_release(owner, repo);
    let ghost l = latest_reply(latest);
    let ghost na: Result<AncestorStatus, CheckErrorModel> = Ok(AncestorStatus::NotAncestor);
    proof {
        assert(client.latest_answers(owner@, repo@, l));
    }
    match &latest {
        Err(e) => {
            let r = failed_result(op, e);
            proof {
                let w = ReleaseReplies { latest: l, ancestor: na, tags: Ok(seq![]), ancestors: seq![] };
                assert(sha_answers(client, owner@, repo@, sha@, w));
                assert(sha_released_outcome(w) == outcome_of(r@));
            }
            r
        },
        Ok(None) => {
            let r = check_release_tags(owner, repo, sha, op, client);
            proof {
                let (t, ans) = choose|
                    t: Result<Seq<Seq<char>>, CheckErrorModel>,
                    ans: Seq<Result<AncestorStatus, CheckErrorModel>>,
                |
                    #[trigger] tag_answers(client, owner@, repo@, sha@, t, ans) && tag_release_outcome(
                        t,
                        ans,
                    ) == outcome_of(r@);
                let w = ReleaseReplies { latest: l, ancestor: na, tags: t, ancestors: ans };
                assert(sha_answers(client, owner@, repo@, sha@, w));
                assert(sha_released_outcome(w) == outcome_of(r@));
            }
            r
        },
        Ok(Some(release)) => {
            let reply = client.is_ancestor(owner, repo, sha, release.tag_name.as_str());
            let r = ancestor_result(op, release.tag_name.as_str(), &reply);
            proof {
                let w = ReleaseReplies { latest: l, ancestor: ancestor_reply(reply), tags: Ok(seq![]), ancestors: seq![] };
                assert(sha_answers(client, owner@, repo@, sha@, w));
                assert(sha_released_outcome(w) == outcome_of(r@));
            }
            r
        },
    }
}


/// Whether a pull request is released: its merge commit, where it was
/// merged, is checked as `check_sha_released` checks a commit.
fn check_pr_released<C: ForgeClient + ?Sized>(issue_ref: &IssueRef, client: &C) -> (r: OperationResult)
    ensures
        r.operation@ == OperationModel::PrReleased(issue_ref@),
        exists|p: Result<PrStatusModel, CheckErrorModel>, w: ReleaseReplies|
            #[trigger] pr_released_answers(
                client,
                issue_ref@.forge_ref.owner,
                issue_ref@.forge_ref.repo,
                issue_ref@.number,
                p,
                w,
            ) && pr_released_outcome(p, w) == outcome_of(r@),
{
    let op = Operation::PrReleased(issue_ref.duplicate());
    let ghost unasked = unread().release;
    let reply = client.get_pr_status(
        issue_ref.forge_ref.owner.as_str(),
        issue_ref.forge_ref.repo.as_str(),
        issue_ref.number,
    );
    let ghost p = pr_reply(reply);
    proof {
        assert(client.pr_answers(
            issue_ref@.forge_ref.owner,
            issue_ref@.forge_ref.repo,
            issue_ref@.number,
            p,
        ));
    }
    match &reply {
        Err(e) => {
            let r = failed_result(op, e);
            proof {
                assert(pr_released_answers(
                    client,
                    issue_ref@.forge_ref.owner,
                    issue_ref@.forge_ref.repo,
                    issue_ref@.number,
                    p,
                    unasked,
                ));
                assert(pr_released_outcome(p, unasked) == outcome_of(r@));
            }
            r
        },
        Ok(pr) => {
            if !pr.merged {
                let r = result(op, OperationStatus::Pending, text("PR not yet merged"));
                proof {
                    assert(pr_released_answers(
                        client,
                        issue_ref@.forge_ref.owner,
                        issue_ref@.forge_ref.repo,
                        issue_ref@.number,
                        p,
                        unasked,
                    ));
                    assert(pr_released_outcome(p, unasked) == outcome_of(r@));
                }
                return r;
            }
            match &pr.merge_commit_sha {
                None => {
                    let r = result(
                        op,
                        OperationStatus::Error,
                        text("PR merged but no merge commit SHA"),
                    );
                    proof {
                        assert(pr_released_answers(
                            client,
                            issue_ref@.forge_ref.owner,
                            issue_ref@.forge_ref.repo,
                            issue_ref@.number,
                            p,
                            unasked,
                        ));
                        assert(pr_released_outcome(p, unasked) == outcome_of(r@));
                    }
                    r
                },
                Some(sha) => {
                    let o = issue_ref.forge_ref.owner.as_str();
                    let q = issue_ref.forge_ref.repo.as_str();
                    let c = sha.as_str();
                    let r = check_sha_released(o, q, c, op, client);
                    proof {
                        assert(o@ == issue_ref@.forge_ref.owner);
                        assert(q@ == issue_ref@.forge_ref.repo);
                        assert(c@ == sha@);
                        assert(p matches Ok(pm) && pm.merge_commit_sha == Some(sha@));
                        let w = choose|w: ReleaseReplies|
                            #[trigger] sha_answers(client, o@, q@, c@, w) && sha_released_outcome(w)
                                == outcome_of(r@);
                        assert(pr_released_answers(
                            client,
                            issue_ref@.forge_ref.owner,
                            issue_ref@.forge_ref.repo,
                            issue_ref@.number,
                            p,
                            w,
                        ));
                        assert(pr_released_outcome(p, w) == outcome_of(r@));
                    }
                    r
                },
            }
        },
    }
}


fn check_issue_closed<C: ForgeClient + ?Sized>(issue_ref: &IssueRef, client: &C) -> (r: OperationResult)
    ensures
        r.operation@ == OperationModel::IssueClosed(issue_ref@),
        exists|s: Result<IssueState, CheckErrorModel>|
            #[trigger] client.issue_answers(
                issue_ref@.forge_ref.owner,
                issue_ref@.forge_ref.repo,
                issue_ref@.number,
                s,
            ) && issue_closed_outcome(s) == outcome_of(r@),
{
    let op = Operation::IssueClosed(issue_ref.duplicate());
    let reply = client.get_issue_status(
        issue_ref.forge_ref.owner.as_str(),
        issue_ref.forge_ref.repo.as_str(),
        issue_ref.number,
    );
    let r = issue_closed_result(op, &reply);
    proof {
        assert(client.issue_answers(
            issue_ref@.forge_ref.owner,
            issue_ref@.forge_ref.repo,
            issue_ref@.number,
            issue_reply(reply),
        ));
        assert(issue_closed_outcome(issue_reply(reply)) == outcome_of(r@));
    }
    r
}

fn check_branch_deleted<C: ForgeClient + ?Sized>(ref_ref: &RefRef, client: &C) -> (r: OperationResult)
    ensures
        r.operation@ == OperationModel::BranchDeleted(ref_ref@),
        exists|b: Result<bool, CheckErrorModel>|
            #[trigger] client.branch_answers(
                ref_ref@.forge_ref.owner,
                ref_ref@.forge_ref.repo,
                ref_ref@.value,
                b,
            ) && branch_deleted_outcome(b) == outcome_of(r@),
{
    let op = Operation::BranchDeleted(ref_ref.duplicate());
    let reply = client.branch_exists(
        ref_ref.forge_ref.owner.as_str(),
        ref_ref.forge_ref.repo.as_str(),
        ref_ref.value.as_str(),
    );
    let r = branch_deleted_result(op, &reply);
    proof {
        assert(client.branch_answers(
            ref_ref@.forge_ref.owner,
            ref_ref@.forge_ref.repo,
            ref_ref@.value,
            branch_reply(reply),
        ));
        assert(branch_deleted_outcome(branch_reply(reply)) == outcome_of(r@));
    }
    r
}

/// Check a `date_passed` operation against the clock: whatever the clock
/// reads, the result is the outcome for that reading. The clock is read at
/// the value's zone offset where it has one, else in the local time zone.
pub fn check_date_passed(date: &str) -> (r: OperationResult)
    ensures
        r.operation@ == OperationModel::DatePassed(date@),
        exists|now: Clock|
            #[trigger] date_outcome(date@, now) == outcome_of(r@) && clock_zone(now) == date_zone(
                date@,
            ),
{
    let op = Operation::DatePassed(owned(date));
    let v = chars_of(date);
    let part = match split_bytes(&v, 10) {
        Ok(k) => string_of(&v, 0, k),
        Err(_) => owned(date),
    };
    proof {
        assert(part@ == date_split(date@).0);
    }
    let parsed = parse_civil_date(part.as_str());
    let now = match time_of(date) {
        Ok(Some(t)) => match t.4 {
            Some(o) => now_at_offset(o),
            None => now_local(),
        },
        _ => now_local(),
    };
    let r = date_result(op, date, &parsed, now);
    proof {
        assert(date_outcome(date@, now) == outcome_of(r@));
        assert(clock_zone(now) == date_zone(date@));
    }
    r
}

fn check_nixpkg_version<N: NixpkgsBackend + ?Sized>(nixpkg_ref: &NixpkgRef, nixpkgs_client: Option<&N>) -> (r:
    OperationResult)
    ensures
        r.operation@ == OperationModel::NixpkgVersion(nixpkg_ref@),
        nixpkgs_client is None ==> outcome_of(r@) == nixpkgs_missing(),
        nixpkgs_client matches Some(c) ==> exists|v: Result<Seq<Seq<char>>, CheckErrorModel>|
            #[trigger] c.versions_answers(nixpkg_ref@.package, v) && nixpkg_outcome(
                nixpkg_ref@.version_constraint,
                v,
            ) == outcome_of(r@),
{
    let op = Operation::NixpkgVersion(nixpkg_ref.duplicate());
    match nixpkgs_client {
        None => result(op, OperationStatus::Error, text("nixpkgs checking not configured")),
        Some(client) => {
            let reply = client.get_package_versions(nixpkg_ref.package.as_str());
            let r = nixpkg_result(op, nixpkg_ref.version_constraint.as_str(), &reply);
            proof {
                assert(client.versions_answers(nixpkg_ref@.package, versions_reply(reply)));
                assert(nixpkg_outcome(nixpkg_ref@.version_constraint, versions_reply(reply))
                    == outcome_of(r@));
            }
            r
        },
    }
}

/// The forge reference of an operation that asks the forge.
fn forge_ref_of(op: &Operation) -> (r: Option<&ForgeRef>)
    ensures
        match r {
            Some(f) => forge_of(op@) == Some(f@),
            None => forge_of(op@) is None,
        },
{
    match op {
        Operation::PrMerged(x) => Some(&x.forge_ref),
        Operation::PrClosed(x) => Some(&x.forge_ref),
        Operation::TagExists(x) => Some(&x.forge_ref),
        Operation::CommitReleased(x) => Some(&x.forge_ref),
        Operation::PrReleased(x) => Some(&x.forge_ref),
        Operation::IssueClosed(x) => Some(&x.forge_ref),
        Operation::BranchDeleted(x) => Some(&x.forge_ref),
        Operation::DatePassed(_) => None,
        Operation::NixpkgVersion(_) => None,
    }
}

/// Check a single operation; the ghost value is the answers it got, and they
/// are the answers the forge (or the package index) gave for the operation's
/// own references. Once the forge's rate limit is exhausted, an operation
/// that would ask the forge is reported as rate limited instead.
fn check_one<C: ForgeClient + ?Sized, N: NixpkgsBackend + ?Sized>(
    op: &Operation,
    client: &C,
    nixpkgs_client: Option<&N>,
) -> (out: (OperationResult, Ghost<Replies>))
    ensures
        out.0@ == operation_result(op@, nixpkgs_client is Some, out.1@),
        replies_fit(client, nixpkgs_client, op@, out.1@),
{
    match forge_ref_of(op) {
        Some(f) => match client.rate_limit_reset() {
            Some(reset) => {
                let ghost t = reset@;
                let e = CheckError::RateLimited { forge: f.forge.clone(), reset_at: reset };
                let r = failed_result(op.duplicate(), &e);
                let ghost w = Replies { limited: Some(t), ..unread() };
                proof {
                    assert(r@ == operation_result(op@, nixpkgs_client is Some, w));
                }
                (r, Ghost(w))
            },
            None => check_answered(op, client, nixpkgs_client),
        },
        None => check_answered(op, client, nixpkgs_client),
    }
}

/// Check a single operation by asking the forge or the package index.
fn check_answered<C: ForgeClient + ?Sized, N: NixpkgsBackend + ?Sized>(
    op: &Operation,
    client: &C,
    nixpkgs_client: Option<&N>,
) -> (out: (OperationResult, Ghost<Replies>))
    ensures
        out.0@ == operation_result(op@, nixpkgs_client is Some, out.1@),
        answers_fit(client, nixpkgs_client, op@, out.1@),
        out.1@.limited is None,
{
    let ghost nix = nixpkgs_client is Some;
    match op {
        Operation::PrMerged(x) => {
            let r = check_pr_merged(x, client);
            let ghost p = choose|p: Result<PrStatusModel, CheckErrorModel>|
                #[trigger] client.pr_answers(
                    x@.forge_ref.owner,
                    x@.forge_ref.repo,
                    x@.number,
                    p,
                ) && pr_merged_outcome(p) == outcome_of(r@);
            let ghost w = Replies { pr: p, ..unread() };
            proof {
                assert(r@ == operation_result(op@, nix, w));
            }
            (r, Ghost(w))
        },
        Operation::PrClosed(x) => {
            let r = check_pr_closed(x, client);
            let ghost p = choose|p: Result<PrStatusModel, CheckErrorModel>|
                #[trigger] client.pr_answers(
                    x@.forge_ref.owner,
                    x@.forge_ref.repo,
                    x@.number,
                    p,
                ) && pr_closed_outcome(p) == outcome_of(r@);
            let ghost w = Replies { pr: p, ..unread() };
            proof {
                assert(r@ == operation_result(op@, nix, w));
            }
            (r, Ghost(w))
        },
        Operation::TagExists(x) => {
            let r = check_tag_exists(x, client);
            let ghost t = choose|t: Result<Seq<Seq<char>>, CheckErrorModel>|
                #[trigger] client.tags_answers(x@.forge_ref.owner, x@.forge_ref.repo, t)
                    && tag_outcome(x@.value, t) == outcome_of(r@);
            let ghost w = Replies { tags: t, ..unread() };
            proof {
                assert(r@ == operation_result(op@, nix, w));
            }
            (r, Ghost(w))
        },
        Operation::CommitReleased(x) => {
            let o = x.forge_ref.owner.as_str();
            let p = x.forge_ref.repo.as_str();
            let c = x.value.as_str();
            let r = check_sha_released(o, p, c, Operation::CommitReleased(x.duplicate()), client);
            let ghost rel = choose|w: ReleaseReplies|
                #[trigger] sha_answers(client, o@, p@, c@, w) && sha_released_outcome(w) == outcome_of(
                    r@,
                );
            let ghost w = Replies { release: rel, ..unread() };
            proof {
                assert(r@ == operation_result(op@, nix, w));
            }
            (r, Ghost(w))
        },
        Operation::PrReleased(x) => {
            let r = check_pr_released(x, client);
            let ghost (p, rel) = choose|p: Result<PrStatusModel, CheckErrorModel>, w: ReleaseReplies|
                #[trigger] pr_released_answers(
                    client,
                    x@.forge_ref.owner,
                    x@.forge_ref.repo,
                    x@.number,
                    p,
                    w,
                ) && pr_released_outcome(p, w) == outcome_of(r@);
            let ghost w = Replies { pr: p, release: rel, ..unread() };
            proof {
                assert(r@ == operation_result(op@, nix, w));
            }
            (r, Ghost(w))
        },
        Operation::IssueClosed(x) => {
            let r = check_issue_closed(x, client);
            let ghost s = choose|s: Result<IssueState, CheckErrorModel>|
                #[trigger] client.issue_answers(
                    x@.forge_ref.owner,
                    x@.forge_ref.repo,
                    x@.number,
                    s,
                ) && issue_closed_outcome(s) == outcome_of(r@);
            let ghost w = Replies { issue: s, ..unread() };
            proof {
                assert(r@ == operation_result(op@, nix, w));
            }
            (r, Ghost(w))
        },
        Operation::BranchDeleted(x) => {
            let r = check_branch_deleted(x, client);
            let ghost b = choose|b: Result<bool, CheckErrorModel>|
                #[trigger] client.branch_answers(
                    x@.forge_ref.owner,
                    x@.forge_ref.repo,
                    x@.value,
                    b,
                ) && branch_deleted_outcome(b) == outcome_of(r@);
            let ghost w = Replies { branch: b, ..unread() };
            proof {
                assert(r@ == operation_result(op@, nix, w));
            }
            (r, Ghost(w))
        },
        Operation::DatePassed(d) => {
            let r = check_date_passed(d.as_str());
            let ghost now = choose|now: Clock|
                #[trigger] date_outcome(d@, now) == outcome_of(r@) && clock_zone(now) == date_zone(
                    d@,
                );
            let ghost w = Replies { clock: now, ..unread() };
            proof {
                assert(r@ == operation_result(op@, nix, w));
            }
            (r, Ghost(w))
        },
        Operation::NixpkgVersion(x) => {
            let r = check_nixpkg_version(x, nixpkgs_client);
            match nixpkgs_client {
                Some(cl) => {
                    let ghost v = choose|v: Result<Seq<Seq<char>>, CheckErrorModel>|
                        #[trigger] cl.versions_answers(x@.package, v) && nixpkg_outcome(
                            x@.version_constraint,
                            v,
                        ) == outcome_of(r@);
                    let ghost w = Replies { versions: v, ..unread() };
                    proof {
                        assert(r@ == operation_result(op@, nix, w));
                    }
                    (r, Ghost(w))
                },
                None => {
                    let ghost w = unread();
                    proof {
                        assert(r@ == operation_result(op@, nix, w));
                    }
                    (r, Ghost(w))
                },
            }
        },
    }
}


// ---------------------------------------------------------------------------
// A run over many reminders
// ---------------------------------------------------------------------------

/// The operations of all reminders, in order.
pub open spec fn all_operations(rems: Seq<ReminderModel>) -> Seq<OperationModel>
    decreases rems.len(),
{
    if rems.len() == 0 {
        seq![]
    } else {
        all_operations(rems.drop_last()) + rems.last().operations
    }
}

/// The comment syntax of each operation.
pub open spec fn op_texts(ops: Seq<OperationModel>) -> Seq<Seq<char>> {
    ops.map_values(|o: OperationModel| o.text())
}

pub open spec fn texts_of(v: Seq<String>) -> Seq<Seq<char>> {
    v.map_values(|s: String| s@)
}

pub open spec fn op_views(v: Seq<Operation>) -> Seq<OperationModel> {
    v.map_values(|o: Operation| o@)
}

/// The first place of `t` in `ts`.
pub open spec fn position(ts: Seq<Seq<char>>, t: Seq<char>) -> Option<int>
    decreases ts.len(),
{
    if ts.len() == 0 {
        None
    } else if ts[0] == t {
        Some(0)
    } else {
        match position(ts.drop_first(), t) {
            Some(k) => Some(k + 1),
            None => None,
        }
    }
}

/// The operations that are asked of the forge: one per distinct comment
/// syntax, at its first occurrence, in order.
pub open spec fn distinct_ops(ops: Seq<OperationModel>) -> Seq<OperationModel>
    decreases ops.len(),
{
    if ops.len() == 0 {
        seq![]
    } else {
        let d = distinct_ops(ops.drop_last());
        if position(op_texts(d), ops.last().text()) is Some {
            d
        } else {
            d.push(ops.last())
        }
    }
}

/// The result an operation of a reminder gets: that of the checked
/// operation written the same way.
pub open spec fn result_for(
    uniq: Seq<OperationModel>,
    rs: Seq<OperationResultModel>,
    op: OperationModel,
) -> OperationResultModel {
    match position(op_texts(uniq), op.text()) {
        Some(k) => rs[k],
        None => OperationResultModel {
            operation: op,
            status: OperationStatus::Error,
            detail: Some("operation not checked"@),
        },
    }
}

pub open spec fn results_for(
    uniq: Seq<OperationModel>,
    rs: Seq<OperationResultModel>,
    ops: Seq<OperationModel>,
) -> Seq<OperationResultModel> {
    ops.map_values(|o: OperationModel| result_for(uniq, rs, o))
}

/// Whether one of the results is triggered.
pub open spec fn any_triggered(results: Seq<OperationResultModel>) -> bool {
    exists|j: int| 0 <= j < results.len() && #[trigger] results[j].status == OperationStatus::Triggered
}

/// The details of the failed results, in order.
pub open spec fn error_details(results: Seq<OperationResultModel>) -> Seq<Seq<char>>
    decreases results.len(),
{
    if results.len() == 0 {
        seq![]
    } else {
        let e = error_details(results.drop_last());
        let r = results.last();
        if r.status == OperationStatus::Error && r.detail is Some {
            e.push(r.detail->0)
        } else {
            e
        }
    }
}

pub open spec fn checked_reminder(
    uniq: Seq<OperationModel>,
    rs: Seq<OperationResultModel>,
    rem: ReminderModel,
) -> CheckedReminderModel {
    let results = results_for(uniq, rs, rem.operations);
    CheckedReminderModel { reminder: rem, results, triggered: any_triggered(results) }
}

/// The details of all failed results, reminder by reminder.
pub open spec fn all_errors(
    uniq: Seq<OperationModel>,
    rs: Seq<OperationResultModel>,
    rems: Seq<ReminderModel>,
) -> Seq<Seq<char>>
    decreases rems.len(),
{
    if rems.len() == 0 {
        seq![]
    } else {
        all_errors(uniq, rs, rems.drop_last()) + error_details(
            results_for(uniq, rs, rems.last().operations),
        )
    }
}

/// The report for the reminders, given the results of the checked operations.
pub open spec fn assembled(
    rems: Seq<ReminderModel>,
    uniq: Seq<OperationModel>,
    rs: Seq<OperationResultModel>,
) -> CheckResultModel {
    CheckResultModel {
        reminders: rems.map_values(|rem: ReminderModel| checked_reminder(uniq, rs, rem)),
        errors: all_errors(uniq, rs, rems),
    }
}

/// The results of the checked operations for the answers `ws`.
pub open spec fn outcomes(uniq: Seq<OperationModel>, nixpkgs: bool, ws: Seq<Replies>) -> Seq<
    OperationResultModel,
> {
    Seq::new(uniq.len(), |k: int| operation_result(uniq[k], nixpkgs, ws[k]))
}

/// The report of a check run on `rems`, when the k-th distinct operation got
/// the answers `ws[k]`.
pub open spec fn check_run(rems: Seq<ReminderModel>, nixpkgs: bool, ws: Seq<Replies>) -> CheckResultModel {
    let uniq = distinct_ops(all_operations(rems));
    assembled(rems, uniq, outcomes(uniq, nixpkgs, ws))
}

// ---------------------------------------------------------------------------
// Lemmas
// ---------------------------------------------------------------------------

pub proof fn lemma_position(ts: Seq<Seq<char>>, t: Seq<char>)
    ensures
        match position(ts, t) {
            Some(k) => 0 <= k < ts.len() && ts[k] == t && forall|m: int|
                0 <= m < k ==> ts[m] != t,
            None => forall|m: int| 0 <= m < ts.len() ==> ts[m] != t,
        },
    decreases ts.len(),
{
    if ts.len() > 0 && ts[0] != t {
        lemma_position(ts.drop_first(), t);
        assert forall|m: int| 0 < m < ts.len() implies ts[m] == ts.drop_first()[m - 1] by {}
    }
}

proof fn lemma_position_push(ts: Seq<Seq<char>>, x: Seq<char>, t: Seq<char>)
    ensures
        position(ts, t) is Some ==> position(ts.push(x), t) == position(ts, t),
        position(ts.push(t), t) is Some,
{
    lemma_position(ts, t);
    lemma_position(ts.push(x), t);
    lemma_position(ts.push(t), t);
    if let Some(k) = position(ts, t) {
        assert(ts.push(x)[k] == t);
        if let Some(k2) = position(ts.push(x), t) {
            assert(k2 <= k);
            if k2 < k {
                assert(ts[k2] == ts.push(x)[k2]);
            }
        }
    }
    assert(ts.push(t)[ts.len() as int] == t);
}

proof fn lemma_distinct_covers(s: Seq<OperationModel>)
    ensures
        forall|m: int|
            0 <= m < s.len() ==> position(op_texts(distinct_ops(s)), (#[trigger] s[m]).text()) is Some,
    decreases s.len(),
{
    if s.len() > 0 {
        let p = s.drop_last();
        lemma_distinct_covers(p);
        let d = distinct_ops(p);
        if position(op_texts(d), s.last().text()) is None {
            assert(op_texts(d.push(s.last())) =~= op_texts(d).push(s.last().text()));
            assert forall|m: int| 0 <= m < s.len() implies position(
                op_texts(distinct_ops(s)),
                (#[trigger] s[m]).text(),
            ) is Some by {
                lemma_position_push(op_texts(d), s.last().text(), s[m].text());
                if m < s.len() - 1 {
                    assert(s[m] == p[m]);
                }
            }
        } else {
            assert forall|m: int| 0 <= m < s.len() implies position(
                op_texts(distinct_ops(s)),
                (#[trigger] s[m]).text(),
            ) is Some by {
                if m < s.len() - 1 {
                    assert(s[m] == p[m]);
                }
            }
        }
    }
}

proof fn lemma_distinct_unique(s: Seq<OperationModel>)
    ensures
        forall|a: int, b: int|
            0 <= a < b < distinct_ops(s).len() ==> (#[trigger] distinct_ops(s)[a]).text() != (
            #[trigger] distinct_ops(s)[b]).text(),
    decreases s.len(),
{
    if s.len() > 0 {
        let p = s.drop_last();
        lemma_distinct_unique(p);
        let d = distinct_ops(p);
        lemma_position(op_texts(d), s.last().text());
        if position(op_texts(d), s.last().text()) is None {
            let dd = d.push(s.last());
            assert forall|a: int, b: int| 0 <= a < b < dd.len() implies (#[trigger] dd[a]).text()
                != (#[trigger] dd[b]).text() by {
                if b < d.len() {
                    assert(dd[a] == d[a] && dd[b] == d[b]);
                } else {
                    assert(op_texts(d)[a] == d[a].text());
                }
            }
        }
    }
}


proof fn lemma_all_operations_prefix(rems: Seq<ReminderModel>, i: int)
    requires
        0 <= i <= rems.len(),
    ensures
        all_operations(rems.take(i)).len() <= all_operations(rems).len(),
        forall|m: int|
            0 <= m < all_operations(rems.take(i)).len() ==> (#[trigger] all_operations(rems)[m])
                == all_operations(rems.take(i))[m],
    decreases rems.len(),
{
    if i == rems.len() {
        assert(rems.take(i) =~= rems);
    } else {
        let p = rems.drop_last();
        assert(rems.take(i) =~= p.take(i));
        lemma_all_operations_prefix(p, i);
    }
}

proof fn lemma_all_operations_place(rems: Seq<ReminderModel>, i: int, j: int)
    requires
        0 <= i < rems.len(),
        0 <= j < rems[i].operations.len(),
    ensures
        all_operations(rems.take(i)).len() + j < all_operations(rems).len(),
        all_operations(rems)[all_operations(rems.take(i)).len() + j] == rems[i].operations[j],
{
    lemma_all_operations_prefix(rems, i + 1);
    assert(rems.take(i + 1).drop_last() =~= rems.take(i));
    let before = all_operations(rems.take(i));
    assert(all_operations(rems.take(i + 1)) == before + rems[i].operations);
    assert(all_operations(rems.take(i + 1))[before.len() + j] == rems[i].operations[j]);
}


/// Laws of a check run, whatever the answers: each reminder keeps its place
/// and gets one result per operation, in order, for an operation written the
/// same way; every operation of every reminder is among those asked of the
/// forge, and no operation is asked twice; operations written alike get the
/// same result wherever they stand; and a reminder is triggered exactly when
/// one of its results is.
pub proof fn lemma_check_run(rems: Seq<ReminderModel>, nixpkgs: bool, ws: Seq<Replies>)
    ensures
        check_run(rems, nixpkgs, ws).reminders.len() == rems.len(),
        forall|i: int|
            0 <= i < rems.len() ==> (#[trigger] check_run(rems, nixpkgs, ws).reminders[i]).reminder
                == rems[i] && check_run(rems, nixpkgs, ws).reminders[i].results.len()
                == rems[i].operations.len(),
        forall|i: int, j: int|
            0 <= i < rems.len() && 0 <= j < rems[i].operations.len() ==> (#[trigger] check_run(
                rems,
                nixpkgs,
                ws,
            ).reminders[i].results[j]).operation.text() == rems[i].operations[j].text(),
        forall|i: int, j: int|
            0 <= i < rems.len() && 0 <= j < rems[i].operations.len() ==> position(
                op_texts(distinct_ops(all_operations(rems))),
                (#[trigger] rems[i].operations[j]).text(),
            ) is Some,
        forall|a: int, b: int|
            0 <= a < b < distinct_ops(all_operations(rems)).len() ==> (#[trigger] distinct_ops(
                all_operations(rems),
            )[a]).text() != (#[trigger] distinct_ops(all_operations(rems))[b]).text(),
        forall|i1: int, j1: int, i2: int, j2: int|
            0 <= i1 < rems.len() && 0 <= j1 < rems[i1].operations.len() && 0 <= i2 < rems.len()
                && 0 <= j2 < rems[i2].operations.len() && (#[trigger] rems[i1].operations[j1]).text()
                == (#[trigger] rems[i2].operations[j2]).text() ==> check_run(
                rems,
                nixpkgs,
                ws,
            ).reminders[i1].results[j1] == check_run(rems, nixpkgs, ws).reminders[i2].results[j2],
        forall|i: int|
            0 <= i < rems.len() ==> ((#[trigger] check_run(rems, nixpkgs, ws).reminders[i]).triggered
                <==> exists|j: int|
                0 <= j < rems[i].operations.len() && check_run(
                    rems,
                    nixpkgs,
                    ws,
                ).reminders[i].results[j].status == OperationStatus::Triggered),
{
    let all = all_operations(rems);
    let uniq = distinct_ops(all);
    let rs = outcomes(uniq, nixpkgs, ws);
    let out = check_run(rems, nixpkgs, ws);
    lemma_distinct_covers(all);
    lemma_distinct_unique(all);
    assert forall|i: int, j: int|
        0 <= i < rems.len() && 0 <= j < rems[i].operations.len() implies position(
        op_texts(uniq),
        (#[trigger] rems[i].operations[j]).text(),
    ) is Some by {
        lemma_all_operations_place(rems, i, j);
        let m = all_operations(rems.take(i)).len() + j;
        assert(all[m] == rems[i].operations[j]);
    }
    assert forall|i: int, j: int|
        0 <= i < rems.len() && 0 <= j < rems[i].operations.len() implies (#[trigger] out.reminders[i].results[j]).operation.text()
        == rems[i].operations[j].text() by {
        let op = rems[i].operations[j];
        lemma_position(op_texts(uniq), op.text());
        let k = position(op_texts(uniq), op.text())->0;
        assert(op_texts(uniq)[k] == uniq[k].text());
        assert(out.reminders[i].results[j] == result_for(uniq, rs, op));
    }
    assert forall|i1: int, j1: int, i2: int, j2: int|
        0 <= i1 < rems.len() && 0 <= j1 < rems[i1].operations.len() && 0 <= i2 < rems.len() && 0
            <= j2 < rems[i2].operations.len() && (#[trigger] rems[i1].operations[j1]).text() == (
        #[trigger] rems[i2].operations[j2]).text() implies out.reminders[i1].results[j1]
        == out.reminders[i2].results[j2] by {
        assert(out.reminders[i1].results[j1] == result_for(uniq, rs, rems[i1].operations[j1]));
        assert(out.reminders[i2].results[j2] == result_for(uniq, rs, rems[i2].operations[j2]));
    }
}

// ---------------------------------------------------------------------------
// Implementation
// ---------------------------------------------------------------------------

/// The first place of `key` among `keys`.
fn find_key(keys: &Vec<String>, key: &String) -> (r: Option<usize>)
    ensures
        match position(texts_of(keys@), key@) {
            Some(k) => r matches Some(i) && i == k,
            None => r is None,
        },
{
    let ghost ts = texts_of(keys@);
    proof {
        lemma_position(ts, key@);
    }
    let mut i: usize = 0;
    while i < keys.len()
        invariant
            ts == texts_of(keys@),
            0 <= i <= keys@.len(),
            forall|m: int| 0 <= m < i ==> ts[m] != key@,
            match position(ts, key@) {
                Some(k) => 0 <= k < ts.len() && ts[k] == key@ && forall|m: int|
                    0 <= m < k ==> ts[m] != key@,
                None => forall|m: int| 0 <= m < ts.len() ==> ts[m] != key@,
            },
        decreases keys@.len() - i,
    {
        if keys[i] == *key {
            assert(ts[i as int] == key@);
            return Some(i);
        }
        i = i + 1;
    }
    None
}

/// The operations to ask of the forge, with their comment syntax.
fn distinct_operations(reminders: &[Reminder]) -> (r: (Vec<Operation>, Vec<String>))
    ensures
        op_views(r.0@) == distinct_ops(all_operations(reminder_views(reminders@))),
        texts_of(r.1@) == op_texts(op_views(r.0@)),
{
    let ghost rems = reminder_views(reminders@);
    let mut uniq: Vec<Operation> = Vec::new();
    let mut keys: Vec<String> = Vec::new();
    let mut i: usize = 0;
    proof {
        assert(rems.take(0) =~= Seq::<ReminderModel>::empty());
        assert(op_views(uniq@) =~= distinct_ops(all_operations(rems.take(0))));
        assert(texts_of(keys@) =~= op_texts(op_views(uniq@)));
    }
    while i < reminders.len()
        invariant
            rems == reminder_views(reminders@),
            0 <= i <= reminders@.len(),
            op_views(uniq@) == distinct_ops(all_operations(rems.take(i as int))),
            texts_of(keys@) == op_texts(op_views(uniq@)),
        decreases reminders@.len() - i,
    {
        let ops = &reminders[i].operations;
        let ghost before = all_operations(rems.take(i as int));
        let ghost rops = rems[i as int].operations;
        proof {
            assert(rops == ops@.map_values(|o: Operation| o@));
            assert(before + rops.take(0) =~= before);
        }
        let mut j: usize = 0;
        while j < ops.len()
            invariant
                rops == ops@.map_values(|o: Operation| o@),
                0 <= j <= ops@.len(),
                op_views(uniq@) == distinct_ops(before + rops.take(j as int)),
                texts_of(keys@) == op_texts(op_views(uniq@)),
            decreases ops@.len() - j,
        {
            let key = ops[j].render();
            let ghost seen = before + rops.take(j as int);
            let ghost seen2 = before + rops.take(j + 1);
            proof {
                assert(seen2 =~= seen.push(ops@[j as int]@));
                assert(seen2.drop_last() =~= seen);
            }
            match find_key(&keys, &key) {
                Some(_) => {},
                None => {
                    let ghost u0 = uniq@;
                    let ghost k0 = keys@;
                    uniq.push(ops[j].duplicate());
                    keys.push(key);
                    proof {
                        assert(op_views(uniq@) =~= op_views(u0).push(ops@[j as int]@));
                        assert(texts_of(keys@) =~= texts_of(k0).push(ops@[j as int]@.text()));
                        assert(op_texts(op_views(uniq@)) =~= op_texts(op_views(u0)).push(
                            ops@[j as int]@.text(),
                        ));
                    }
                },
            }
            j = j + 1;
        }
        proof {
            assert(rops.take(j as int) =~= rops);
            assert(rems.take(i + 1).drop_last() =~= rems.take(i as int));
        }
        i = i + 1;
    }
    proof {
        assert(rems.take(i as int) =~= rems);
    }
    (uniq, keys)
}


/// The results for the operations of one reminder, and whether one is triggered.
fn reminder_results(
    ops: &Vec<Operation>,
    keys: &Vec<String>,
    results: &Vec<OperationResult>,
    Ghost(uniq): Ghost<Seq<OperationModel>>,
) -> (out: (Vec<OperationResult>, bool))
    requires
        texts_of(keys@) == op_texts(uniq),
        results@.len() == uniq.len(),
    ensures
        result_views(out.0@) == results_for(
            uniq,
            result_views(results@),
            op_views(ops@),
        ),
        out.1 == any_triggered(result_views(out.0@)),
{
    let ghost rs = result_views(results@);
    let mut res: Vec<OperationResult> = Vec::new();
    let mut triggered = false;
    let mut j: usize = 0;
    while j < ops.len()
        invariant
            texts_of(keys@) == op_texts(uniq),
            results@.len() == uniq.len(),
            rs == result_views(results@),
            0 <= j <= ops@.len(),
            result_views(res@) == results_for(uniq, rs, op_views(ops@).take(j as int)),
            triggered == any_triggered(result_views(res@)),
        decreases ops@.len() - j,
    {
        let key = ops[j].render();
        let ghost op = ops@[j as int]@;
        proof {
            lemma_position(op_texts(uniq), op.text());
        }
        proof {
            assert(key@ == op.text());
            assert(position(texts_of(keys@), key@) == position(op_texts(uniq), op.text()));
        }
        let r = match find_key(keys, &key) {
            Some(k) => {
                let r = results[k].duplicate();
                proof {
                    assert(position(op_texts(uniq), op.text()) == Some(k as int));
                    assert(r@ == rs[k as int]);
                }
                r
            },
            None => {
                let r = result(
                    ops[j].duplicate(),
                    OperationStatus::Error,
                    text("operation not checked"),
                );
                proof {
                    assert(position(op_texts(uniq), op.text()) is None);
                    assert(r@.operation == op);
                    assert(r@.detail == Some("operation not checked"@));
                }
                r
            },
        };
        proof {
            assert(r@ == result_for(uniq, rs, op));
        }
        let ghost before = result_views(res@);
        if r.status == OperationStatus::Triggered {
            triggered = true;
        }
        res.push(r);
        proof {
            assert(result_views(res@) =~= before.push(result_for(uniq, rs, op)));
            assert(op_views(ops@).take(j + 1) =~= op_views(ops@).take(j as int).push(op));
            assert(results_for(uniq, rs, op_views(ops@).take(j + 1)) =~= results_for(
                uniq,
                rs,
                op_views(ops@).take(j as int),
            ).push(result_for(uniq, rs, op)));
            let now = result_views(res@);
            if triggered {
                if any_triggered(before) {
                    let m = choose|m: int|
                        0 <= m < before.len() && #[trigger] before[m].status
                            == OperationStatus::Triggered;
                    assert(now[m] == before[m]);
                } else {
                    assert(now[j as int].status == OperationStatus::Triggered);
                }
            } else {
                assert forall|m: int| 0 <= m < now.len() implies #[trigger] now[m].status
                    != OperationStatus::Triggered by {
                    if m < before.len() {
                        assert(now[m] == before[m]);
                    }
                }
            }
        }
        j = j + 1;
    }
    proof {
        assert(op_views(ops@).take(j as int) =~= op_views(ops@));
    }
    (res, triggered)
}

/// Appends the details of the failed results.
fn push_error_details(errors: &mut Vec<String>, res: &Vec<OperationResult>)
    ensures
        texts_of(final(errors)@) == texts_of(old(errors)@) + error_details(result_views(res@)),
{
    let ghost start = texts_of(errors@);
    let ghost rv = result_views(res@);
    let mut e: usize = 0;
    proof {
        assert(rv.take(0) =~= Seq::<OperationResultModel>::empty());
        assert(texts_of(errors@) =~= start + error_details(rv.take(0)));
    }
    while e < res.len()
        invariant
            rv == result_views(res@),
            0 <= e <= res@.len(),
            texts_of(errors@) == start + error_details(rv.take(e as int)),
        decreases res@.len() - e,
    {
        proof {
            assert(rv.take(e + 1).drop_last() =~= rv.take(e as int));
        }
        let ghost before = errors@;
        if res[e].status == OperationStatus::Error {
            match &res[e].detail {
                Some(d) => {
                    errors.push(d.clone());
                    proof {
                        assert(texts_of(errors@) =~= texts_of(before).push(d@));
                    }
                },
                None => {},
            }
        }
        proof {
            assert(texts_of(errors@) =~= start + error_details(rv.take(e + 1)));
        }
        e = e + 1;
    }
    proof {
        assert(rv.take(e as int) =~= rv);
    }
}

/// The report for the reminders, given the results of the checked operations
/// and their comment syntax.
fn assemble(
    reminders: &[Reminder],
    keys: &Vec<String>,
    results: &Vec<OperationResult>,
    Ghost(uniq): Ghost<Seq<OperationModel>>,
) -> (r: CheckResult)
    requires
        texts_of(keys@) == op_texts(uniq),
        results@.len() == uniq.len(),
    ensures
        r@ == assembled(reminder_views(reminders@), uniq, result_views(results@)),
{
    let ghost rems = reminder_views(reminders@);
    let ghost rs = result_views(results@);
    let mut checked: Vec<CheckedReminder> = Vec::new();
    let mut errors: Vec<String> = Vec::new();
    let mut i: usize = 0;
    proof {
        assert(rems.take(0) =~= Seq::<ReminderModel>::empty());
        assert(texts_of(errors@) =~= all_errors(uniq, rs, rems.take(0)));
    }
    while i < reminders.len()
        invariant
            texts_of(keys@) == op_texts(uniq),
            results@.len() == uniq.len(),
            rs == result_views(results@),
            rems == reminder_views(reminders@),
            0 <= i <= reminders@.len(),
            checked@.len() == i,
            forall|m: int|
                0 <= m < i ==> (#[trigger] checked@[m])@ == checked_reminder(uniq, rs, rems[m]),
            texts_of(errors@) == all_errors(uniq, rs, rems.take(i as int)),
        decreases reminders@.len() - i,
    {
        let rem = &reminders[i];
        let (res, triggered) = reminder_results(&rem.operations, keys, results, Ghost(uniq));
        push_error_details(&mut errors, &res);
        proof {
            assert(rems.take(i + 1).drop_last() =~= rems.take(i as int));
            assert(rems[i as int].operations == op_views(rem.operations@));
        }
        checked.push(CheckedReminder { reminder: rem.duplicate(), results: res, triggered });
        i = i + 1;
    }
    proof {
        assert(rems.take(i as int) =~= rems);
    }
    let r = CheckResult { reminders: checked, errors };
    proof {
        assert(r@.reminders =~= rems.map_values(
            |rem: ReminderModel| checked_reminder(uniq, rs, rem),
        ));
    }
    r
}


/// Check all reminders against the forge API.
///
/// Each distinct operation (by its comment syntax) is asked of the forge once,
/// one after the other; every reminder then gets the results of its own
/// operations, and the details of the failed ones are collected in order.
/// `max_concurrent` is how many requests the caller allows at once; these
/// requests are made one at a time.
pub fn check_all(
    reminders: &[Reminder],
    client: &dyn ForgeClient,
    nixpkgs_client: Option<&dyn NixpkgsBackend>,
    max_concurrent: usize,
) -> (r: CheckResult)
    ensures
        exists|ws: Seq<Replies>|
            {
                let uniq = distinct_ops(all_operations(reminder_views(reminders@)));
                &&& ws.len() == uniq.len()
                &&& forall|k: int|
                    0 <= k < ws.len() ==> replies_fit(client, nixpkgs_client, uniq[k], #[trigger] ws[k])
                &&& r@ == #[trigger] check_run(reminder_views(reminders@), nixpkgs_client is Some, ws)
            },
        r@.reminders.len() == reminders@.len(),
        forall|i: int|
            0 <= i < reminders@.len() ==> ((#[trigger] r@.reminders[i]).triggered <==> exists|j: int|
                0 <= j < r@.reminders[i].results.len() && r@.reminders[i].results[j].status
                    == OperationStatus::Triggered),
{
    let ghost rems = reminder_views(reminders@);
    let ghost nix = nixpkgs_client is Some;
    let (uniq, keys) = distinct_operations(reminders);
    let mut results: Vec<OperationResult> = Vec::new();
    let ghost mut ws: Seq<Replies> = seq![];
    let mut k: usize = 0;
    while k < uniq.len()
        invariant
            op_views(uniq@) == distinct_ops(all_operations(rems)),
            nix == nixpkgs_client is Some,
            0 <= k <= uniq@.len(),
            results@.len() == k,
            ws.len() == k,
            forall|m: int|
                0 <= m < k ==> replies_fit(client, nixpkgs_client, uniq@[m]@, #[trigger] ws[m]),
            forall|m: int|
                0 <= m < k ==> (#[trigger] results@[m])@ == operation_result(
                    uniq@[m]@,
                    nix,
                    ws[m],
                ),
        decreases uniq@.len() - k,
    {
        let (r, Ghost(w)) = check_one(&uniq[k], client, nixpkgs_client);
        results.push(r);
        proof {
            ws = ws.push(w);
        }
        k = k + 1;
    }
    let ghost u = op_views(uniq@);
    let r = assemble(reminders, &keys, &results, Ghost(u));
    proof {
        assert(result_views(results@) =~= outcomes(u, nix, ws));
        assert(r@ == check_run(rems, nix, ws));
        assert forall|m: int| 0 <= m < ws.len() implies replies_fit(
            client,
            nixpkgs_client,
            distinct_ops(all_operations(rems))[m],
            #[trigger] ws[m],
        ) by {
            assert(u[m] == uniq@[m]@);
        }
    }
    r
}

/// Whether `o` is an operation of one of the reminders.
pub open spec fn op_of(rems: Seq<ReminderModel>, o: OperationModel) -> bool {
    exists|i: int, j: int|
        0 <= i < rems.len() && 0 <= j < rems[i].operations.len() && o == #[trigger] rems[i].operations[j]
}

/// Every operation in the run is an operation of one of the reminders.
proof fn lemma_all_ops_from(rems: Seq<ReminderModel>)
    ensures
        forall|m: int| 0 <= m < all_operations(rems).len() ==> op_of(rems, #[trigger] all_operations(rems)[m]),
    decreases rems.len(),
{
    if rems.len() > 0 {
        let p = rems.drop_last();
        lemma_all_ops_from(p);
        let a = all_operations(p);
        let last = rems[rems.len() - 1].operations;
        assert(all_operations(rems) == a + last);
        assert forall|m: int| 0 <= m < all_operations(rems).len() implies op_of(
            rems,
            #[trigger] all_operations(rems)[m],
        ) by {
            let o = all_operations(rems)[m];
            if m < a.len() {
                assert(o == a[m]);
                assert(op_of(p, a[m]));
                let (i, j) = choose|i: int, j: int|
                    0 <= i < p.len() && 0 <= j < p[i].operations.len() && a[m]
                        == #[trigger] p[i].operations[j];
                assert(rems[i] == p[i]);
                assert(o == rems[i].operations[j]);
            } else {
                let i = rems.len() - 1;
                let j = m - a.len();
                assert(o == rems[i].operations[j]);
            }
        }
    }
}

/// Every distinct operation is one of the operations it was taken from.
proof fn lemma_distinct_from(s: Seq<OperationModel>)
    ensures
        forall|k: int| 0 <= k < distinct_ops(s).len() ==> s.contains(#[trigger] distinct_ops(s)[k]),
    decreases s.len(),
{
    if s.len() > 0 {
        let p = s.drop_last();
        lemma_distinct_from(p);
        let d = distinct_ops(p);
        assert forall|k: int| 0 <= k < distinct_ops(s).len() implies s.contains(
            #[trigger] distinct_ops(s)[k],
        ) by {
            if k < d.len() {
                assert(distinct_ops(s)[k] == d[k]);
                assert(p.contains(d[k]));
                let m = choose|m: int| 0 <= m < p.len() && p[m] == d[k];
                assert(s[m] == p[m]);
            } else {
                let m = s.len() - 1;
                assert(distinct_ops(s)[k] == s[m]);
            }
        }
    }
}

/// Where every operation of the reminders is read back from its own comment
/// syntax (as every operation the grammar reads is), each result of a run is
/// for the very operation of the reminder it stands at.
pub proof fn lemma_results_keep_operations(rems: Seq<ReminderModel>, nixpkgs: bool, ws: Seq<Replies>)
    requires
        forall|i: int, j: int|
            0 <= i < rems.len() && 0 <= j < rems[i].operations.len() ==> reads_back(
                #[trigger] rems[i].operations[j],
            ),
    ensures
        forall|i: int, j: int|
            0 <= i < rems.len() && 0 <= j < rems[i].operations.len() ==> (#[trigger] check_run(
                rems,
                nixpkgs,
                ws,
            ).reminders[i].results[j]).operation == rems[i].operations[j],
{
    lemma_check_run(rems, nixpkgs, ws);
    let all = all_operations(rems);
    let uniq = distinct_ops(all);
    lemma_all_ops_from(rems);
    lemma_distinct_from(all);
    let out = check_run(rems, nixpkgs, ws);
    assert forall|i: int, j: int|
        0 <= i < rems.len() && 0 <= j < rems[i].operations.len() implies (#[trigger] out.reminders[i].results[j]).operation
        == rems[i].operations[j] by {
        let o = rems[i].operations[j];
        lemma_position(op_texts(uniq), o.text());
        let k = position(op_texts(uniq), o.text())->0;
        assert(out.reminders[i] == checked_reminder(uniq, outcomes(uniq, nixpkgs, ws), rems[i]));
        assert(out.reminders[i].results[j] == result_for(uniq, outcomes(uniq, nixpkgs, ws), o));
        assert(out.reminders[i].results[j].operation == uniq[k]);
        assert(uniq[k].text() == o.text());
        assert(all.contains(uniq[k]));
        let m = choose|m: int| 0 <= m < all.len() && all[m] == uniq[k];
        assert(op_of(rems, all[m]));
        let (i2, j2) = choose|i2: int, j2: int|
            0 <= i2 < rems.len() && 0 <= j2 < rems[i2].operations.len() && all[m]
                == #[trigger] rems[i2].operations[j2];
        assert(reads_back(rems[i2].operations[j2]));
        lemma_text_identifies(uniq[k], o);
    }
}

/// A run keeps every reminder, unchanged and in order, each with one result
/// per operation.
pub proof fn lemma_run_keeps_reminders(rems: Seq<ReminderModel>, nixpkgs: bool, ws: Seq<Replies>)
    ensures
        check_run(rems, nixpkgs, ws).reminders.len() == rems.len(),
        forall|i: int|
            0 <= i < rems.len() ==> (#[trigger] check_run(rems, nixpkgs, ws).reminders[i]).reminder
                == rems[i] && check_run(rems, nixpkgs, ws).reminders[i].results.len()
                == rems[i].operations.len(),
{
    lemma_check_run(rems, nixpkgs, ws);
}

/// The report of a run is fixed by the results the distinct operations get:
/// answers that give every distinct operation the same result give the same
/// report, whatever order or concurrency they were asked in. (`check_all`
/// states its report as `check_run` of the answers, whatever
/// `max_concurrent` is.)
pub proof fn lemma_run_fixed_by_results(
    rems: Seq<ReminderModel>,
    nixpkgs: bool,
    ws1: Seq<Replies>,
    ws2: Seq<Replies>,
)
    requires
        ws1.len() == distinct_ops(all_operations(rems)).len(),
        ws2.len() == ws1.len(),
        forall|k: int|
            0 <= k < ws1.len() ==> operation_result(
                distinct_ops(all_operations(rems))[k],
                nixpkgs,
                #[trigger] ws1[k],
            ) == operation_result(distinct_ops(all_operations(rems))[k], nixpkgs, ws2[k]),
    ensures
        check_run(rems, nixpkgs, ws1) == check_run(rems, nixpkgs, ws2),
{
    let uniq = distinct_ops(all_operations(rems));
    assert(outcomes(uniq, nixpkgs, ws1) =~= outcomes(uniq, nixpkgs, ws2));
}

/// What the forge's answers mean for the four conditions that read one
/// answer: a pull request is `pr_closed` exactly when its state is closed,
/// whether or not it was merged (the detail says which), and pending while it
/// is open; it is `pr_merged` exactly when it was merged; an issue is
/// `issue_closed` exactly when its state is closed; a branch is
/// `branch_deleted` exactly when the forge says it does not exist; and a
/// failed answer is an error for each of them.
pub proof fn lemma_forge_conditions(
    pr: PrStatusModel,
    state: IssueState,
    exists: bool,
    e: CheckErrorModel,
)
    ensures
        pr.state == PrState::Closed ==> pr_closed_outcome(Ok(pr)) == (
            OperationStatus::Triggered,
            Some(
                if pr.merged {
                    "closed (merged)"@
                } else {
                    "closed (not merged)"@
                },
            ),
        ),
        pr.state == PrState::Open ==> pr_closed_outcome(Ok(pr)) == (
            OperationStatus::Pending,
            Some("PR is open"@),
        ),
        (pr_merged_outcome(Ok(pr)).0 == OperationStatus::Triggered) == pr.merged,
        !pr.merged ==> pr_merged_outcome(Ok(pr)).0 == OperationStatus::Pending,
        (issue_closed_outcome(Ok(state)).0 == OperationStatus::Triggered) == (state
            == IssueState::Closed),
        state == IssueState::Open ==> issue_closed_outcome(Ok(state)).0 == OperationStatus::Pending,
        (branch_deleted_outcome(Ok(exists)).0 == OperationStatus::Triggered) == !exists,
        exists ==> branch_deleted_outcome(Ok(exists)).0 == OperationStatus::Pending,
        pr_closed_outcome(Err(e)).0 == OperationStatus::Error,
        pr_merged_outcome(Err(e)).0 == OperationStatus::Error,
        issue_closed_outcome(Err(e)).0 == OperationStatus::Error,
        branch_deleted_outcome(Err(e)).0 == OperationStatus::Error,
{
}

} // verus!
