//! The reminder and operation data model, and the injectable forge clients.
use vstd::prelude::*;

use crate::errors::{opt_view, CheckError, CheckErrorModel};
use crate::ops::checker::{
    ancestor_reply, branch_reply, issue_reply, latest_reply, pr_reply, tags_reply, versions_reply,
};
use crate::text::{decimal, push_decimal, push_str};

verus! {

/// A forge reference like `github:owner/repo`
#[derive(Debug, Clone, PartialEq, Eq, Hash)]
pub struct ForgeRef {
    pub forge: String,
    pub owner: String,
    pub repo: String,
}

/// An issue-like reference (PRs, issues): `github:owner/repo#123`
#[derive(Debug, Clone, PartialEq, Eq, Hash)]
pub struct IssueRef {
    pub forge_ref: ForgeRef,
    pub number: u64,
}

/// A ref-like reference (versions, branches, commits): `github:owner/repo@value`
#[derive(Debug, Clone, PartialEq, Eq, Hash)]
pub struct RefRef {
    pub forge_ref: ForgeRef,
    pub value: String,
}

/// A nixpkgs package with a version constraint: `redis@>=7.0.0`
#[derive(Debug, Clone, PartialEq, Eq, Hash)]
pub struct NixpkgRef {
    pub package: String,
    pub version_constraint: String,
}

/// A parsed operation from a REMIND-ME-TO comment
#[derive(Debug, Clone, PartialEq, Eq, Hash)]
pub enum Operation {
    PrMerged(IssueRef),
    PrClosed(IssueRef),
    TagExists(RefRef),
    CommitReleased(RefRef),
    PrReleased(IssueRef),
    IssueClosed(IssueRef),
    BranchDeleted(RefRef),
    DatePassed(String),
    NixpkgVersion(NixpkgRef),
}

/// A parsed reminder from a source file
#[derive(Debug, Clone)]
pub struct Reminder {
    pub file: String,
    pub line: usize,
    pub description: String,
    pub operations: Vec<Operation>,
}

/// The result of checking a single operation
#[derive(Debug, Clone)]
pub struct OperationResult {
    pub operation: Operation,
    pub status: OperationStatus,
    pub detail: Option<String>,
}

/// Status of an individual operation check
#[derive(Debug, Clone, Copy, PartialEq, Eq, Structural)]
pub enum OperationStatus {
    /// The condition is met (e.g., PR is merged)
    Triggered,
    /// The condition is not yet met
    Pending,
    /// Could not check (error occurred)
    Error,
}

/// The result of checking all operations for a reminder
#[derive(Debug, Clone)]
pub struct CheckedReminder {
    pub reminder: Reminder,
    pub results: Vec<OperationResult>,
    /// Whether the reminder is triggered (any operation triggered = true, OR semantics)
    pub triggered: bool,
}

/// Overall result of the check phase
#[derive(Debug)]
pub struct CheckResult {
    pub reminders: Vec<CheckedReminder>,
    pub errors: Vec<String>,
}

/// Status of a PR from the forge API
#[derive(Debug, Clone)]
pub struct PrStatus {
    pub number: u64,
    pub state: PrState,
    pub merged: bool,
    pub merged_at: Option<String>,
    pub merge_commit_sha: Option<String>,
}

#[derive(Debug, Clone, Copy, PartialEq, Eq, Structural)]
pub enum PrState {
    Open,
    Closed,
}

/// Status of an issue from the forge API
#[derive(Debug, Clone)]
pub struct IssueStatus {
    pub number: u64,
    pub state: IssueState,
}

#[derive(Debug, Clone, Copy, PartialEq, Eq, Structural)]
pub enum IssueState {
    Open,
    Closed,
}

/// A tag from the forge API
#[derive(Debug, Clone)]
pub struct Tag {
    pub name: String,
    pub commit_sha: String,
}

/// A release from the forge API
#[derive(Debug, Clone)]
pub struct Release {
    pub tag_name: String,
    pub target_commitish: String,
}

/// Result of comparing two commits
#[derive(Debug, Clone, Copy, PartialEq, Eq, Structural)]
pub enum AncestorStatus {
    /// The commit is an ancestor of (or identical to) the target
    Ancestor,
    /// The commit is NOT an ancestor of the target
    NotAncestor,
}

/// The forge API as the checker sees it. Implemented by the HTTP client and by
/// the test double. Each method's answer is one that the implementation's own
/// predicate admits for the arguments it was asked with. By default a
/// predicate admits every answer (the HTTP client's answers are whatever the
/// forge says); the test double admits exactly the answers of its tables.
pub trait ForgeClient {
    /// Whether `reply` is an answer for pull request `number` of `owner/repo`.
    open spec fn pr_answers(
        &self,
        owner: Seq<char>,
        repo: Seq<char>,
        number: u64,
        reply: Result<PrStatusModel, CheckErrorModel>,
    ) -> bool {
        true
    }

    /// Whether `reply` (the tag names, in order) is an answer for the tags of
    /// `owner/repo`.
    open spec fn tags_answers(
        &self,
        owner: Seq<char>,
        repo: Seq<char>,
        reply: Result<Seq<Seq<char>>, CheckErrorModel>,
    ) -> bool {
        true
    }

    /// Whether `reply` is an answer for issue `number` of `owner/repo`.
    open spec fn issue_answers(
        &self,
        owner: Seq<char>,
        repo: Seq<char>,
        number: u64,
        reply: Result<IssueState, CheckErrorModel>,
    ) -> bool {
        true
    }

    /// Whether `reply` is an answer for whether `branch` exists in `owner/repo`.
    open spec fn branch_answers(
        &self,
        owner: Seq<char>,
        repo: Seq<char>,
        branch: Seq<char>,
        reply: Result<bool, CheckErrorModel>,
    ) -> bool {
        true
    }

    /// Whether `reply` (the tag of the latest release, if any) is an answer
    /// for the latest release of `owner/repo`.
    open spec fn latest_answers(
        &self,
        owner: Seq<char>,
        repo: Seq<char>,
        reply: Result<Option<Seq<char>>, CheckErrorModel>,
    ) -> bool {
        true
    }

    /// Whether `reply` is an answer for whether `commit` is an ancestor of
    /// `tag` in `owner/repo`.
    open spec fn ancestor_answers(
        &self,
        owner: Seq<char>,
        repo: Seq<char>,
        commit: Seq<char>,
        tag: Seq<char>,
        reply: Result<AncestorStatus, CheckErrorModel>,
    ) -> bool {
        true
    }

    /// Whether `reset` (the reset time of an exhausted rate limit, if any) is
    /// an answer for the client's rate limit.
    open spec fn limit_answers(&self, reset: Option<Seq<char>>) -> bool {
        true
    }

    /// The reset time of the forge's rate limit once it is exhausted; `None`
    /// while requests may still be made.
    fn rate_limit_reset(&self) -> (r: Option<String>)
        ensures
            self.limit_answers(opt_view(r)),
    ;

    fn get_pr_status(&self, owner: &str, repo: &str, number: u64) -> (r: Result<PrStatus, CheckError>)
        ensures
            self.pr_answers(owner@, repo@, number, pr_reply(r)),
    ;

    fn get_tags(&self, owner: &str, repo: &str) -> (r: Result<Vec<Tag>, CheckError>)
        ensures
            self.tags_answers(owner@, repo@, tags_reply(r)),
    ;

    fn get_issue_status(&self, owner: &str, repo: &str, number: u64) -> (r: Result<
        IssueStatus,
        CheckError,
    >)
        ensures
            self.issue_answers(owner@, repo@, number, issue_reply(r)),
    ;

    fn branch_exists(&self, owner: &str, repo: &str, branch: &str) -> (r: Result<bool, CheckError>)
        ensures
            self.branch_answers(owner@, repo@, branch@, branch_reply(r)),
    ;

    fn get_latest_release(&self, owner: &str, repo: &str) -> (r: Result<Option<Release>, CheckError>)
        ensures
            self.latest_answers(owner@, repo@, latest_reply(r)),
    ;

    fn is_ancestor(&self, owner: &str, repo: &str, commit: &str, of: &str) -> (r: Result<
        AncestorStatus,
        CheckError,
    >)
        ensures
            self.ancestor_answers(owner@, repo@, commit@, of@, ancestor_reply(r)),
    ;
}

/// The nixpkgs package index as the checker sees it.
pub trait NixpkgsBackend {
    /// Whether `reply` (the versions, in order) is an answer for `package`.
    open spec fn versions_answers(&self, package: Seq<char>, reply: Result<Seq<Seq<char>>, CheckErrorModel>) -> bool {
        true
    }

    fn get_package_versions(&self, package: &str) -> (r: Result<Vec<String>, CheckError>)
        ensures
            self.versions_answers(package@, versions_reply(r)),
    ;
}

// ---------------------------------------------------------------------------
// Mathematical models
// ---------------------------------------------------------------------------

pub struct ForgeRefModel {
    pub forge: Seq<char>,
    pub owner: Seq<char>,
    pub repo: Seq<char>,
}

pub struct IssueRefModel {
    pub forge_ref: ForgeRefModel,
    pub number: u64,
}

pub struct RefRefModel {
    pub forge_ref: ForgeRefModel,
    pub value: Seq<char>,
}

pub struct NixpkgRefModel {
    pub package: Seq<char>,
    pub version_constraint: Seq<char>,
}

pub enum OperationModel {
    PrMerged(IssueRefModel),
    PrClosed(IssueRefModel),
    TagExists(RefRefModel),
    CommitReleased(RefRefModel),
    PrReleased(IssueRefModel),
    IssueClosed(IssueRefModel),
    BranchDeleted(RefRefModel),
    DatePassed(Seq<char>),
    NixpkgVersion(NixpkgRefModel),
}

pub struct ReminderModel {
    pub file: Seq<char>,
    pub line: usize,
    pub description: Seq<char>,
    pub operations: Seq<OperationModel>,
}

impl View for ForgeRef {
    type V = ForgeRefModel;

    open spec fn view(&self) -> ForgeRefModel {
        ForgeRefModel { forge: self.forge@, owner: self.owner@, repo: self.repo@ }
    }
}

impl View for IssueRef {
    type V = IssueRefModel;

    open spec fn view(&self) -> IssueRefModel {
        IssueRefModel { forge_ref: self.forge_ref@, number: self.number }
    }
}

impl View for RefRef {
    type V = RefRefModel;

    open spec fn view(&self) -> RefRefModel {
        RefRefModel { forge_ref: self.forge_ref@, value: self.value@ }
    }
}

impl View for NixpkgRef {
    type V = NixpkgRefModel;

    open spec fn view(&self) -> NixpkgRefModel {
        NixpkgRefModel { package: self.package@, version_constraint: self.version_constraint@ }
    }
}

impl View for Operation {
    type V = OperationModel;

    open spec fn view(&self) -> OperationModel {
        match self {
            Operation::PrMerged(r) => OperationModel::PrMerged(r@),
            Operation::PrClosed(r) => OperationModel::PrClosed(r@),
            Operation::TagExists(r) => OperationModel::TagExists(r@),
            Operation::CommitReleased(r) => OperationModel::CommitReleased(r@),
            Operation::PrReleased(r) => OperationModel::PrReleased(r@),
            Operation::IssueClosed(r) => OperationModel::IssueClosed(r@),
            Operation::BranchDeleted(r) => OperationModel::BranchDeleted(r@),
            Operation::DatePassed(d) => OperationModel::DatePassed(d@),
            Operation::NixpkgVersion(r) => OperationModel::NixpkgVersion(r@),
        }
    }
}

impl View for Reminder {
    type V = ReminderModel;

    open spec fn view(&self) -> ReminderModel {
        ReminderModel {
            file: self.file@,
            line: self.line,
            description: self.description@,
            operations: self.operations@.map_values(|o: Operation| o@),
        }
    }
}

/// `forge:owner/repo`
pub open spec fn forge_ref_text(f: ForgeRefModel) -> Seq<char> {
    f.forge + seq![':'] + f.owner + seq!['/'] + f.repo
}

/// `forge:owner/repo#number`
pub open spec fn issue_ref_text(r: IssueRefModel) -> Seq<char> {
    forge_ref_text(r.forge_ref) + seq!['#'] + decimal(r.number as nat)
}

/// `forge:owner/repo@value`
pub open spec fn ref_ref_text(r: RefRefModel) -> Seq<char> {
    forge_ref_text(r.forge_ref) + seq!['@'] + r.value
}

/// `package@constraint`
pub open spec fn nixpkg_ref_text(r: NixpkgRefModel) -> Seq<char> {
    r.package + seq!['@'] + r.version_constraint
}

impl OperationModel {
    /// The operation name as used in comment syntax.
    pub open spec fn name_text(self) -> Seq<char> {
        match self {
            OperationModel::PrMerged(_) => "pr_merged"@,
            OperationModel::PrClosed(_) => "pr_closed"@,
            OperationModel::TagExists(_) => "tag_exists"@,
            OperationModel::CommitReleased(_) => "commit_released"@,
            OperationModel::PrReleased(_) => "pr_released"@,
            OperationModel::IssueClosed(_) => "issue_closed"@,
            OperationModel::BranchDeleted(_) => "branch_deleted"@,
            OperationModel::DatePassed(_) => "date_passed"@,
            OperationModel::NixpkgVersion(_) => "nixpkg_version"@,
        }
    }

    /// The value part of the comment syntax, after `=`.
    pub open spec fn value_text(self) -> Seq<char> {
        match self {
            OperationModel::PrMerged(r) => issue_ref_text(r),
            OperationModel::PrClosed(r) => issue_ref_text(r),
            OperationModel::TagExists(r) => ref_ref_text(r),
            OperationModel::CommitReleased(r) => ref_ref_text(r),
            OperationModel::PrReleased(r) => issue_ref_text(r),
            OperationModel::IssueClosed(r) => issue_ref_text(r),
            OperationModel::BranchDeleted(r) => ref_ref_text(r),
            OperationModel::DatePassed(d) => d,
            OperationModel::NixpkgVersion(r) => nixpkg_ref_text(r),
        }
    }

    /// The comment syntax of the operation, `name=value`.
    pub open spec fn text(self) -> Seq<char> {
        self.name_text() + seq!['='] + self.value_text()
    }
}

fn push_forge_ref(s: &mut String, f: &ForgeRef)
    ensures
        final(s)@ == old(s)@ + forge_ref_text(f@),
{
    s.append(f.forge.as_str());
    push_str(s, ":");
    s.append(f.owner.as_str());
    push_str(s, "/");
    s.append(f.repo.as_str());
    proof {
        reveal_strlit(":");
        reveal_strlit("/");
        assert(final(s)@ =~= old(s)@ + forge_ref_text(f@));
    }
}

impl ForgeRef {
    /// The reference in comment syntax: `forge:owner/repo`.
    pub fn render(&self) -> (s: String)
        ensures
            s@ == forge_ref_text(self@),
    {
        let mut s = String::new();
        push_forge_ref(&mut s, self);
        proof {
            assert(s@ =~= forge_ref_text(self@));
        }
        s
    }
}

fn push_issue_ref(s: &mut String, r: &IssueRef)
    ensures
        final(s)@ == old(s)@ + issue_ref_text(r@),
{
    push_forge_ref(s, &r.forge_ref);
    push_str(s, "#");
    push_decimal(s, r.number);
    proof {
        reveal_strlit("#");
        assert(final(s)@ =~= old(s)@ + issue_ref_text(r@));
    }
}

fn push_ref_ref(s: &mut String, r: &RefRef)
    ensures
        final(s)@ == old(s)@ + ref_ref_text(r@),
{
    push_forge_ref(s, &r.forge_ref);
    push_str(s, "@");
    s.append(r.value.as_str());
    proof {
        reveal_strlit("@");
        assert(final(s)@ =~= old(s)@ + ref_ref_text(r@));
    }
}

fn push_nixpkg_ref(s: &mut String, r: &NixpkgRef)
    ensures
        final(s)@ == old(s)@ + nixpkg_ref_text(r@),
{
    s.append(r.package.as_str());
    push_str(s, "@");
    s.append(r.version_constraint.as_str());
    proof {
        reveal_strlit("@");
        assert(final(s)@ =~= old(s)@ + nixpkg_ref_text(r@));
    }
}

impl IssueRef {
    /// The reference in comment syntax: `forge:owner/repo#number`.
    pub fn render(&self) -> (s: String)
        ensures
            s@ == issue_ref_text(self@),
    {
        let mut s = String::new();
        push_issue_ref(&mut s, self);
        proof {
            assert(s@ =~= issue_ref_text(self@));
        }
        s
    }
}

impl RefRef {
    /// The reference in comment syntax: `forge:owner/repo@value`.
    pub fn render(&self) -> (s: String)
        ensures
            s@ == ref_ref_text(self@),
    {
        let mut s = String::new();
        push_ref_ref(&mut s, self);
        proof {
            assert(s@ =~= ref_ref_text(self@));
        }
        s
    }
}

impl NixpkgRef {
    /// The reference in comment syntax: `package@constraint`.
    pub fn render(&self) -> (s: String)
        ensures
            s@ == nixpkg_ref_text(self@),
    {
        let mut s = String::new();
        push_nixpkg_ref(&mut s, self);
        proof {
            assert(s@ =~= nixpkg_ref_text(self@));
        }
        s
    }
}

impl Operation {
    /// Returns the operation name as used in comment syntax
    pub fn name(&self) -> (n: &'static str)
        ensures
            n@ == self@.name_text(),
    {
        match self {
            Operation::PrMerged(_) => "pr_merged",
            Operation::PrClosed(_) => "pr_closed",
            Operation::TagExists(_) => "tag_exists",
            Operation::CommitReleased(_) => "commit_released",
            Operation::PrReleased(_) => "pr_released",
            Operation::IssueClosed(_) => "issue_closed",
            Operation::BranchDeleted(_) => "branch_deleted",
            Operation::DatePassed(_) => "date_passed",
            Operation::NixpkgVersion(_) => "nixpkg_version",
        }
    }

    /// Appends the comment syntax of the operation, `name=value`.
    pub fn push_render(&self, s: &mut String)
        ensures
            final(s)@ == old(s)@ + self@.text(),
    {
        push_str(s, self.name());
        push_str(s, "=");
        let ghost mid = s@;
        match self {
            Operation::PrMerged(r) => push_issue_ref(s, r),
            Operation::PrClosed(r) => push_issue_ref(s, r),
            Operation::TagExists(r) => push_ref_ref(s, r),
            Operation::CommitReleased(r) => push_ref_ref(s, r),
            Operation::PrReleased(r) => push_issue_ref(s, r),
            Operation::IssueClosed(r) => push_issue_ref(s, r),
            Operation::BranchDeleted(r) => push_ref_ref(s, r),
            Operation::DatePassed(d) => s.append(d.as_str()),
            Operation::NixpkgVersion(r) => push_nixpkg_ref(s, r),
        }
        proof {
            reveal_strlit("=");
            assert(final(s)@ =~= old(s)@ + self@.text());
        }
    }

    /// The operation in comment syntax, `name=value` (e.g. `pr_merged=github:a/b#1`).
    pub fn render(&self) -> (s: String)
        ensures
            s@ == self@.text(),
    {
        let mut s = String::new();
        self.push_render(&mut s);
        proof {
            assert(s@ =~= self@.text());
        }
        s
    }
}

pub struct OperationResultModel {
    pub operation: OperationModel,
    pub status: OperationStatus,
    pub detail: Option<Seq<char>>,
}

pub struct CheckedReminderModel {
    pub reminder: ReminderModel,
    pub results: Seq<OperationResultModel>,
    pub triggered: bool,
}

pub struct CheckResultModel {
    pub reminders: Seq<CheckedReminderModel>,
    pub errors: Seq<Seq<char>>,
}

pub struct PrStatusModel {
    pub number: u64,
    pub state: PrState,
    pub merged: bool,
    pub merged_at: Option<Seq<char>>,
    pub merge_commit_sha: Option<Seq<char>>,
}

impl View for OperationResult {
    type V = OperationResultModel;

    open spec fn view(&self) -> OperationResultModel {
        OperationResultModel {
            operation: self.operation@,
            status: self.status,
            detail: opt_view(self.detail),
        }
    }
}

pub open spec fn result_views(v: Seq<OperationResult>) -> Seq<OperationResultModel> {
    v.map_values(|r: OperationResult| r@)
}

impl View for CheckedReminder {
    type V = CheckedReminderModel;

    open spec fn view(&self) -> CheckedReminderModel {
        CheckedReminderModel {
            reminder: self.reminder@,
            results: result_views(self.results@),
            triggered: self.triggered,
        }
    }
}

impl View for CheckResult {
    type V = CheckResultModel;

    open spec fn view(&self) -> CheckResultModel {
        CheckResultModel {
            reminders: self.reminders@.map_values(|c: CheckedReminder| c@),
            errors: self.errors@.map_values(|e: String| e@),
        }
    }
}

impl View for PrStatus {
    type V = PrStatusModel;

    open spec fn view(&self) -> PrStatusModel {
        PrStatusModel {
            number: self.number,
            state: self.state,
            merged: self.merged,
            merged_at: opt_view(self.merged_at),
            merge_commit_sha: opt_view(self.merge_commit_sha),
        }
    }
}

/// A copy of an optional string.
pub fn copy_opt(o: &Option<String>) -> (r: Option<String>)
    ensures
        opt_view(r) == opt_view(*o),
{
    match o {
        Some(s) => Some(s.clone()),
        None => None,
    }
}

impl ForgeRef {
    /// A copy of the reference.
    pub fn duplicate(&self) -> (r: ForgeRef)
        ensures
            r@ == self@,
    {
        ForgeRef { forge: self.forge.clone(), owner: self.owner.clone(), repo: self.repo.clone() }
    }
}

impl IssueRef {
    /// A copy of the reference.
    pub fn duplicate(&self) -> (r: IssueRef)
        ensures
            r@ == self@,
    {
        IssueRef { forge_ref: self.forge_ref.duplicate(), number: self.number }
    }
}

impl RefRef {
    /// A copy of the reference.
    pub fn duplicate(&self) -> (r: RefRef)
        ensures
            r@ == self@,
    {
        RefRef { forge_ref: self.forge_ref.duplicate(), value: self.value.clone() }
    }
}

impl NixpkgRef {
    /// A copy of the reference.
    pub fn duplicate(&self) -> (r: NixpkgRef)
        ensures
            r@ == self@,
    {
        NixpkgRef {
            package: self.package.clone(),
            version_constraint: self.version_constraint.clone(),
        }
    }
}

impl Operation {
    /// A copy of the operation.
    pub fn duplicate(&self) -> (r: Operation)
        ensures
            r@ == self@,
    {
        match self {
            Operation::PrMerged(r) => Operation::PrMerged(r.duplicate()),
            Operation::PrClosed(r) => Operation::PrClosed(r.duplicate()),
            Operation::TagExists(r) => Operation::TagExists(r.duplicate()),
            Operation::CommitReleased(r) => Operation::CommitReleased(r.duplicate()),
            Operation::PrReleased(r) => Operation::PrReleased(r.duplicate()),
            Operation::IssueClosed(r) => Operation::IssueClosed(r.duplicate()),
            Operation::BranchDeleted(r) => Operation::BranchDeleted(r.duplicate()),
            Operation::DatePassed(d) => Operation::DatePassed(d.clone()),
            Operation::NixpkgVersion(r) => Operation::NixpkgVersion(r.duplicate()),
        }
    }
}

impl Reminder {
    /// A copy of the reminder.
    pub fn duplicate(&self) -> (r: Reminder)
        ensures
            r@ == self@,
    {
        let mut operations: Vec<Operation> = Vec::new();
        let mut i: usize = 0;
        while i < self.operations.len()
            invariant
                0 <= i <= self.operations@.len(),
                operations@.len() == i,
                forall|k: int| 0 <= k < i ==> (#[trigger] operations@[k])@ == self.operations@[k]@,
            decreases self.operations@.len() - i,
        {
            operations.push(self.operations[i].duplicate());
            i = i + 1;
        }
        proof {
            assert(operations@.map_values(|o: Operation| o@) =~= self.operations@.map_values(
                |o: Operation| o@,
            ));
        }
        Reminder {
            file: self.file.clone(),
            line: self.line,
            description: self.description.clone(),
            operations,
        }
    }
}

impl OperationResult {
    /// A copy of the result.
    pub fn duplicate(&self) -> (r: OperationResult)
        ensures
            r@ == self@,
    {
        OperationResult {
            operation: self.operation.duplicate(),
            status: self.status,
            detail: copy_opt(&self.detail),
        }
    }
}

impl PrStatus {
    /// A copy of the status.
    pub fn duplicate(&self) -> (r: PrStatus)
        ensures
            r@ == self@,
    {
        PrStatus {
            number: self.number,
            state: self.state,
            merged: self.merged,
            merged_at: copy_opt(&self.merged_at),
            merge_commit_sha: copy_opt(&self.merge_commit_sha),
        }
    }
}

impl IssueStatus {
    /// A copy of the status.
    pub fn duplicate(&self) -> (r: IssueStatus)
        ensures
            r.number == self.number,
            r.state == self.state,
    {
        IssueStatus { number: self.number, state: self.state }
    }
}

impl Tag {
    /// A copy of the tag.
    pub fn duplicate(&self) -> (r: Tag)
        ensures
            r.name@ == self.name@,
            r.commit_sha@ == self.commit_sha@,
    {
        Tag { name: self.name.clone(), commit_sha: self.commit_sha.clone() }
    }
}

impl Release {
    /// A copy of the release.
    pub fn duplicate(&self) -> (r: Release)
        ensures
            r.tag_name@ == self.tag_name@,
            r.target_commitish@ == self.target_commitish@,
    {
        Release { tag_name: self.tag_name.clone(), target_commitish: self.target_commitish.clone() }
    }
}

/// A copy of a list of tags.
pub fn copy_tags(tags: &Vec<Tag>) -> (r: Vec<Tag>)
    ensures
        r@.len() == tags@.len(),
        forall|k: int|
            0 <= k < tags@.len() ==> (#[trigger] r@[k]).name@ == tags@[k].name@ && r@[k].commit_sha@
                == tags@[k].commit_sha@,
{
    let mut r: Vec<Tag> = Vec::new();
    let mut i: usize = 0;
    while i < tags.len()
        invariant
            0 <= i <= tags@.len(),
            r@.len() == i,
            forall|k: int|
                0 <= k < i ==> (#[trigger] r@[k]).name@ == tags@[k].name@ && r@[k].commit_sha@
                    == tags@[k].commit_sha@,
        decreases tags@.len() - i,
    {
        r.push(tags[i].duplicate());
        i = i + 1;
    }
    r
}

/// A copy of a list of strings.
pub fn copy_strings(v: &Vec<String>) -> (r: Vec<String>)
    ensures
        r@.len() == v@.len(),
        forall|k: int| 0 <= k < v@.len() ==> (#[trigger] r@[k])@ == v@[k]@,
{
    let mut r: Vec<String> = Vec::new();
    let mut i: usize = 0;
    while i < v.len()
        invariant
            0 <= i <= v@.len(),
            r@.len() == i,
            forall|k: int| 0 <= k < i ==> (#[trigger] r@[k])@ == v@[k]@,
        decreases v@.len() - i,
    {
        r.push(v[i].clone());
        i = i + 1;
    }
    r
}

} // verus!
