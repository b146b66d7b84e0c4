//! A `ForgeClient` that answers from tables filled in by the caller, and
//! counts the requests it gets.
use vstd::prelude::*;

use std::sync::atomic::AtomicUsize;
use std::sync::atomic::Ordering;

use crate::errors::{CheckError, CheckErrorModel};
use crate::ops::types::{
    copy_tags, AncestorStatus, ForgeClient, IssueState, IssueStatus, PrStatus, PrStatusModel, Release,
    Tag,
};
use crate::ops::checker::{
    ancestor_reply, branch_reply, issue_reply, pr_reply, tag_names, tags_reply,
};
use crate::ops::table::ResponseTable;
use crate::text::{owned, push_decimal, push_str};

verus! {

/// A mock ForgeClient for unit testing.
pub struct MockForgeClient {
    pub pr_responses: ResponseTable<(String, String, u64), Result<PrStatus, CheckError>>,
    pub tag_responses: ResponseTable<(String, String), Result<Vec<Tag>, CheckError>>,
    pub issue_responses: ResponseTable<(String, String, u64), Result<IssueStatus, CheckError>>,
    pub branch_responses: ResponseTable<(String, String, String), Result<bool, CheckError>>,
    /// Releases of a repository, latest first.
    pub release_responses: ResponseTable<(String, String), Result<Vec<Release>, CheckError>>,
    /// Answers of `is_ancestor`, keyed by owner, repo, commit and tag.
    pub ancestor_responses: ResponseTable<
        (String, String, String, String),
        Result<AncestorStatus, CheckError>,
    >,
    /// How often each method was called.
    pub calls: ForgeCallCounts,
}

/// Counters of the calls a `MockForgeClient` got, one per method.
pub struct ForgeCallCounts {
    pr: AtomicUsize,
    tags: AtomicUsize,
    issue: AtomicUsize,
    branch: AtomicUsize,
    release: AtomicUsize,
    ancestor: AtomicUsize,
}

impl ForgeCallCounts {
    fn new() -> Self {
        ForgeCallCounts {
            pr: AtomicUsize::new(0),
            tags: AtomicUsize::new(0),
            issue: AtomicUsize::new(0),
            branch: AtomicUsize::new(0),
            release: AtomicUsize::new(0),
            ancestor: AtomicUsize::new(0),
        }
    }

    /// The count for the method named by `v`; 0 for any other name.
    fn count(&self, v: &Vec<char>) -> (n: usize)
        ensures
            !forge_method(v@) ==> n == 0,
    {
        proof {
            reveal_strlit("get_pr_status");
            reveal_strlit("get_tags");
            reveal_strlit("get_issue_status");
            reveal_strlit("branch_exists");
            reveal_strlit("get_latest_release");
            reveal_strlit("is_ancestor");
        }
        if crate::text::equals_str(v, "get_pr_status") {
            self.pr.load(Ordering::Relaxed)
        } else if crate::text::equals_str(v, "get_tags") {
            self.tags.load(Ordering::Relaxed)
        } else if crate::text::equals_str(v, "get_issue_status") {
            self.issue.load(Ordering::Relaxed)
        } else if crate::text::equals_str(v, "branch_exists") {
            self.branch.load(Ordering::Relaxed)
        } else if crate::text::equals_str(v, "get_latest_release") {
            self.release.load(Ordering::Relaxed)
        } else if crate::text::equals_str(v, "is_ancestor") {
            self.ancestor.load(Ordering::Relaxed)
        } else {
            0
        }
    }
}

/// The methods of `ForgeClient`, by name.
pub open spec fn forge_method(name: Seq<char>) -> bool {
    name == "get_pr_status"@ || name == "get_tags"@ || name == "get_issue_status"@ || name
        == "branch_exists"@ || name == "get_latest_release"@ || name == "is_ancestor"@
}

/// The error the mock gives for a pull request or issue it has no answer for.
pub open spec fn mock_not_found(owner: Seq<char>, repo: Seq<char>, number: u64) -> CheckErrorModel {
    CheckErrorModel::ApiError {
        operation: "github:"@ + owner + "/"@ + repo + "#"@ + crate::text::decimal(number as nat),
        message: "not found in mock"@,
        status: Some(404u16),
        retryable: false,
    }
}

/// A pull request answer, by its view.
pub open spec fn pr_answer(r: Result<PrStatus, CheckError>) -> Result<PrStatusModel, CheckErrorModel> {
    match r {
        Ok(p) => Ok(p@),
        Err(e) => Err(e@),
    }
}

/// An issue answer, by its number and state.
pub open spec fn issue_answer(r: Result<IssueStatus, CheckError>) -> Result<
    (u64, IssueState),
    CheckErrorModel,
> {
    match r {
        Ok(i) => Ok((i.number, i.state)),
        Err(e) => Err(e@),
    }
}

/// A tag, by its name and commit.
pub open spec fn tag_view(t: Tag) -> (Seq<char>, Seq<char>) {
    (t.name@, t.commit_sha@)
}

/// A list of tags answer, each tag by its name and commit.
pub open spec fn tags_answer(r: Result<Vec<Tag>, CheckError>) -> Result<
    Seq<(Seq<char>, Seq<char>)>,
    CheckErrorModel,
> {
    match r {
        Ok(v) => Ok(v@.map_values(|t: Tag| tag_view(t))),
        Err(e) => Err(e@),
    }
}

/// A release, by its tag and target.
pub open spec fn release_view(r: Release) -> (Seq<char>, Seq<char>) {
    (r.tag_name@, r.target_commitish@)
}

/// The latest-release answer given for a stored list of releases (the first
/// of them, latest first), or for none.
pub open spec fn latest_answer(stored: Option<Result<Vec<Release>, CheckError>>) -> Result<
    Option<(Seq<char>, Seq<char>)>,
    CheckErrorModel,
> {
    match stored {
        Some(Ok(rs)) => if rs@.len() > 0 {
            Ok(Some(release_view(rs@[0])))
        } else {
            Ok(None)
        },
        Some(Err(e)) => Err(e@),
        None => Ok(None),
    }
}

/// A latest-release answer, by its view.
pub open spec fn latest_view(r: Result<Option<Release>, CheckError>) -> Result<
    Option<(Seq<char>, Seq<char>)>,
    CheckErrorModel,
> {
    match r {
        Ok(Some(rel)) => Ok(Some(release_view(rel))),
        Ok(None) => Ok(None),
        Err(e) => Err(e@),
    }
}

/// An answer of a plain value or an error, by its view.
pub open spec fn plain_answer<T>(r: Result<T, CheckError>) -> Result<T, CheckErrorModel> {
    match r {
        Ok(x) => Ok(x),
        Err(e) => Err(e@),
    }
}

/// The stored answer under a key, if any.
pub open spec fn stored<K, V>(m: Map<K, V>, k: K) -> Option<V> {
    if m.contains_key(k) {
        Some(m[k])
    } else {
        None
    }
}

fn not_found(owner: &str, repo: &str, number: u64) -> (e: CheckError)
    ensures
        e@ == mock_not_found(owner@, repo@, number),
{
    let mut operation = owned("github:");
    push_str(&mut operation, owner);
    push_str(&mut operation, "/");
    push_str(&mut operation, repo);
    push_str(&mut operation, "#");
    push_decimal(&mut operation, number);
    CheckError::ApiError {
        operation,
        message: owned("not found in mock"),
        status: Some(404),
        retryable: false,
    }
}

impl MockForgeClient {
    /// A mock with no answers and no recorded calls.
    pub fn new() -> (m: Self)
        ensures
            m.pr_responses@ == Map::<(Seq<char>, Seq<char>, u64), Result<PrStatus, CheckError>>::empty(),
            m.tag_responses@ == Map::<(Seq<char>, Seq<char>), Result<Vec<Tag>, CheckError>>::empty(),
            m.issue_responses@ == Map::<
                (Seq<char>, Seq<char>, u64),
                Result<IssueStatus, CheckError>,
            >::empty(),
            m.branch_responses@ == Map::<(Seq<char>, Seq<char>, Seq<char>), Result<bool, CheckError>>::empty(),
            m.release_responses@ == Map::<
                (Seq<char>, Seq<char>),
                Result<Vec<Release>, CheckError>,
            >::empty(),
            m.ancestor_responses@ == Map::<
                (Seq<char>, Seq<char>, Seq<char>, Seq<char>),
                Result<AncestorStatus, CheckError>,
            >::empty(),
    {
        MockForgeClient {
            pr_responses: ResponseTable::new(),
            tag_responses: ResponseTable::new(),
            issue_responses: ResponseTable::new(),
            branch_responses: ResponseTable::new(),
            release_responses: ResponseTable::new(),
            ancestor_responses: ResponseTable::new(),
            calls: ForgeCallCounts::new(),
        }
    }

    fn record(counter: &AtomicUsize) {
        counter.fetch_add(1, Ordering::Relaxed);
    }

    /// How many times the method named `method` was called; 0 for a name
    /// that is not a method of `ForgeClient`.
    pub fn call_count(&self, method: &str) -> (n: usize)
        ensures
            !forge_method(method@) ==> n == 0,
    {
        let v = crate::text::chars_of(method);
        self.calls.count(&v)
    }
}

impl ForgeClient for MockForgeClient {
    open spec fn limit_answers(&self, reset: Option<Seq<char>>) -> bool {
        reset is None
    }

    /// The test double has no rate limit.
    fn rate_limit_reset(&self) -> (r: Option<String>) {
        None
    }

    open spec fn pr_answers(
        &self,
        owner: Seq<char>,
        repo: Seq<char>,
        number: u64,
        reply: Result<PrStatusModel, CheckErrorModel>,
    ) -> bool {
        reply == match stored(self.pr_responses@, (owner, repo, number)) {
            Some(a) => pr_reply(a),
            None => Err(mock_not_found(owner, repo, number)),
        }
    }

    open spec fn tags_answers(
        &self,
        owner: Seq<char>,
        repo: Seq<char>,
        reply: Result<Seq<Seq<char>>, CheckErrorModel>,
    ) -> bool {
        reply == match stored(self.tag_responses@, (owner, repo)) {
            Some(a) => tags_reply(a),
            None => Ok(Seq::empty()),
        }
    }

    open spec fn issue_answers(
        &self,
        owner: Seq<char>,
        repo: Seq<char>,
        number: u64,
        reply: Result<IssueState, CheckErrorModel>,
    ) -> bool {
        reply == match stored(self.issue_responses@, (owner, repo, number)) {
            Some(a) => issue_reply(a),
            None => Err(mock_not_found(owner, repo, number)),
        }
    }

    open spec fn branch_answers(
        &self,
        owner: Seq<char>,
        repo: Seq<char>,
        branch: Seq<char>,
        reply: Result<bool, CheckErrorModel>,
    ) -> bool {
        reply == match stored(self.branch_responses@, (owner, repo, branch)) {
            Some(a) => branch_reply(a),
            None => Ok(false),
        }
    }

    open spec fn latest_answers(
        &self,
        owner: Seq<char>,
        repo: Seq<char>,
        reply: Result<Option<Seq<char>>, CheckErrorModel>,
    ) -> bool {
        reply == match latest_answer(stored(self.release_responses@, (owner, repo))) {
            Ok(Some(rel)) => Ok(Some(rel.0)),
            Ok(None) => Ok(None),
            Err(e) => Err(e),
        }
    }

    open spec fn ancestor_answers(
        &self,
        owner: Seq<char>,
        repo: Seq<char>,
        commit: Seq<char>,
        tag: Seq<char>,
        reply: Result<AncestorStatus, CheckErrorModel>,
    ) -> bool {
        reply == match stored(self.ancestor_responses@, (owner, repo, commit, tag)) {
            Some(a) => ancestor_reply(a),
            None => Ok(AncestorStatus::NotAncestor),
        }
    }

    /// The stored answer for the pull request; a 404 error where none is stored.
    fn get_pr_status(&self, owner: &str, repo: &str, number: u64) -> (r: Result<PrStatus, CheckError>)
        ensures
            pr_answer(r) == match stored(self.pr_responses@, (owner@, repo@, number)) {
                Some(a) => pr_answer(a),
                None => Err(mock_not_found(owner@, repo@, number)),
            },
    {
        Self::record(&self.calls.pr);
        let key = (owner.to_owned(), repo.to_owned(), number);
        match self.pr_responses.get(&key) {
            Some(Ok(p)) => Ok(p.duplicate()),
            Some(Err(e)) => Err(e.duplicate()),
            None => Err(not_found(owner, repo, number)),
        }
    }

    /// The stored tags of the repository; no tags where none are stored.
    fn get_tags(&self, owner: &str, repo: &str) -> (r: Result<Vec<Tag>, CheckError>)
        ensures
            tags_answer(r) == match stored(self.tag_responses@, (owner@, repo@)) {
                Some(a) => tags_answer(a),
                None => Ok(Seq::empty()),
            },
    {
        Self::record(&self.calls.tags);
        let key = (owner.to_owned(), repo.to_owned());
        match self.tag_responses.get(&key) {
            Some(Ok(tags)) => {
                let r = copy_tags(tags);
                proof {
                    assert(tag_names(r@) =~= tag_names(tags@));
                    assert(r@.map_values(|t: Tag| tag_view(t)) =~= tags@.map_values(
                        |t: Tag| tag_view(t),
                    ));
                }
                Ok(r)
            },
            Some(Err(e)) => Err(e.duplicate()),
            None => {
                let r: Vec<Tag> = Vec::new();
                proof {
                    assert(tag_names(r@) =~= Seq::empty());
                    assert(r@.map_values(|t: Tag| tag_view(t)) =~= Seq::empty());
                }
                Ok(r)
            },
        }
    }

    /// The stored status of the issue; a 404 error where none is stored.
    fn get_issue_status(&self, owner: &str, repo: &str, number: u64) -> (r: Result<
        IssueStatus,
        CheckError,
    >)
        ensures
            issue_answer(r) == match stored(self.issue_responses@, (owner@, repo@, number)) {
                Some(a) => issue_answer(a),
                None => Err(mock_not_found(owner@, repo@, number)),
            },
    {
        Self::record(&self.calls.issue);
        let key = (owner.to_owned(), repo.to_owned(), number);
        match self.issue_responses.get(&key) {
            Some(Ok(i)) => Ok(i.duplicate()),
            Some(Err(e)) => Err(e.duplicate()),
            None => Err(not_found(owner, repo, number)),
        }
    }

    /// The stored answer for the branch; `false` where none is stored.
    fn branch_exists(&self, owner: &str, repo: &str, branch: &str) -> (r: Result<bool, CheckError>)
        ensures
            plain_answer(r) == match stored(self.branch_responses@, (owner@, repo@, branch@)) {
                Some(a) => plain_answer(a),
                None => Ok(false),
            },
    {
        Self::record(&self.calls.branch);
        let key = (owner.to_owned(), repo.to_owned(), branch.to_owned());
        match self.branch_responses.get(&key) {
            Some(Ok(b)) => Ok(*b),
            Some(Err(e)) => Err(e.duplicate()),
            None => Ok(false),
        }
    }

    /// The first of the stored releases (they are stored latest first);
    /// none where no release, or no list, is stored.
    fn get_latest_release(&self, owner: &str, repo: &str) -> (r: Result<Option<Release>, CheckError>)
        ensures
            latest_view(r) == latest_answer(stored(self.release_responses@, (owner@, repo@))),
    {
        Self::record(&self.calls.release);
        let key = (owner.to_owned(), repo.to_owned());
        match self.release_responses.get(&key) {
            Some(Ok(releases)) => if releases.len() > 0 {
                Ok(Some(releases[0].duplicate()))
            } else {
                Ok(None)
            },
            Some(Err(e)) => Err(e.duplicate()),
            None => Ok(None),
        }
    }

    /// The stored answer for the commit and tag; not an ancestor where none
    /// is stored.
    fn is_ancestor(&self, owner: &str, repo: &str, commit: &str, of: &str) -> (r: Result<
        AncestorStatus,
        CheckError,
    >)
        ensures
            plain_answer(r) == match stored(
                self.ancestor_responses@,
                (owner@, repo@, commit@, of@),
            ) {
                Some(a) => plain_answer(a),
                None => Ok(AncestorStatus::NotAncestor),
            },
    {
        Self::record(&self.calls.ancestor);
        let key = (owner.to_owned(), repo.to_owned(), commit.to_owned(), of.to_owned());
        match self.ancestor_responses.get(&key) {
            Some(Ok(a)) => Ok(*a),
            Some(Err(e)) => Err(e.duplicate()),
            None => Ok(AncestorStatus::NotAncestor),
        }
    }
}

} // verus!
