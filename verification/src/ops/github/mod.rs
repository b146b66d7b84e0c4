//! What the GitHub client decides: request paths, how HTTP failures become
//! check errors, how answers become statuses, and when to fetch more.
pub mod mock;

use vstd::prelude::*;

use crate::errors::{CheckError, CheckErrorModel};
use crate::ops::types::{AncestorStatus, IssueState, IssueStatus, PrState, PrStatus, Release, Tag};
use crate::scanner::git_context::trim_slashes;
use crate::text::{
    chars_of, decimal, owned, parse_unsigned, parse_unsigned_in, push_decimal, push_str,
    string_of,
};

verus! {

/// The API root of GitHub.
pub open spec fn github_api() -> Seq<char> {
    "https://api.github.com"@
}

/// `https://api.github.com`
pub fn default_base_url() -> (s: String)
    ensures
        s@ == github_api(),
{
    owned("https://api.github.com")
}

/// A base URL without its trailing `/` characters.
pub fn base_url_of(base: &str) -> (s: String)
    ensures
        s@ == trim_slashes(base@),
{
    let v = chars_of(base);
    let mut end = v.len();
    proof {
        assert(v@.subrange(0, end as int) =~= v@);
    }
    while end > 0 && v[end - 1] == '/'
        invariant
            end <= v@.len(),
            trim_slashes(base@) == trim_slashes(v@.subrange(0, end as int)),
            v@ == base@,
        decreases end,
    {
        proof {
            assert(v@.subrange(0, end as int).drop_last() =~= v@.subrange(0, end - 1));
        }
        end = end - 1;
    }
    string_of(&v, 0, end)
}

/// `/repos/{owner}/{repo}`
pub open spec fn repo_path(owner: Seq<char>, repo: Seq<char>) -> Seq<char> {
    "/repos/"@ + owner + "/"@ + repo
}

fn push_repo_path(s: &mut String, owner: &str, repo: &str)
    ensures
        final(s)@ == old(s)@ + repo_path(owner@, repo@),
{
    push_str(s, "/repos/");
    push_str(s, owner);
    push_str(s, "/");
    push_str(s, repo);
    proof {
        assert(final(s)@ =~= old(s)@ + repo_path(owner@, repo@));
    }
}

/// `/repos/{owner}/{repo}/pulls/{number}`
pub fn pull_path(owner: &str, repo: &str, number: u64) -> (s: String)
    ensures
        s@ == repo_path(owner@, repo@) + "/pulls/"@ + decimal(number as nat),
{
    let mut s = String::new();
    push_repo_path(&mut s, owner, repo);
    push_str(&mut s, "/pulls/");
    push_decimal(&mut s, number);
    proof {
        assert(s@ =~= repo_path(owner@, repo@) + "/pulls/"@ + decimal(number as nat));
    }
    s
}

/// `/repos/{owner}/{repo}/issues/{number}`
pub fn issue_path(owner: &str, repo: &str, number: u64) -> (s: String)
    ensures
        s@ == repo_path(owner@, repo@) + "/issues/"@ + decimal(number as nat),
{
    let mut s = String::new();
    push_repo_path(&mut s, owner, repo);
    push_str(&mut s, "/issues/");
    push_decimal(&mut s, number);
    proof {
        assert(s@ =~= repo_path(owner@, repo@) + "/issues/"@ + decimal(number as nat));
    }
    s
}

/// `/repos/{owner}/{repo}/branches/{branch}`
pub fn branch_path(owner: &str, repo: &str, branch: &str) -> (s: String)
    ensures
        s@ == repo_path(owner@, repo@) + "/branches/"@ + branch@,
{
    let mut s = String::new();
    push_repo_path(&mut s, owner, repo);
    push_str(&mut s, "/branches/");
    push_str(&mut s, branch);
    proof {
        assert(s@ =~= repo_path(owner@, repo@) + "/branches/"@ + branch@);
    }
    s
}

/// `/repos/{owner}/{repo}/tags?per_page=100&page={page}`
pub fn tags_path(owner: &str, repo: &str, page: u64) -> (s: String)
    ensures
        s@ == repo_path(owner@, repo@) + "/tags?per_page=100&page="@ + decimal(page as nat),
{
    let mut s = String::new();
    push_repo_path(&mut s, owner, repo);
    push_str(&mut s, "/tags?per_page=100&page=");
    push_decimal(&mut s, page);
    proof {
        assert(s@ =~= repo_path(owner@, repo@) + "/tags?per_page=100&page="@ + decimal(
            page as nat,
        ));
    }
    s
}

/// `/repos/{owner}/{repo}/releases/latest`
pub fn latest_release_path(owner: &str, repo: &str) -> (s: String)
    ensures
        s@ == repo_path(owner@, repo@) + "/releases/latest"@,
{
    let mut s = String::new();
    push_repo_path(&mut s, owner, repo);
    push_str(&mut s, "/releases/latest");
    s
}

/// `/repos/{owner}/{repo}/compare/{base}...{head}`
pub fn compare_path(owner: &str, repo: &str, base: &str, head: &str) -> (s: String)
    ensures
        s@ == repo_path(owner@, repo@) + "/compare/"@ + base@ + "..."@ + head@,
{
    let mut s = String::new();
    push_repo_path(&mut s, owner, repo);
    push_str(&mut s, "/compare/");
    push_str(&mut s, base);
    push_str(&mut s, "...");
    push_str(&mut s, head);
    proof {
        assert(s@ =~= repo_path(owner@, repo@) + "/compare/"@ + base@ + "..."@ + head@);
    }
    s
}

/// The value of the `Authorization` header: `Bearer {token}`.
pub fn bearer(token: &str) -> (s: String)
    ensures
        s@ == "Bearer "@ + token@,
{
    let mut s = owned("Bearer ");
    push_str(&mut s, token);
    s
}

/// The error for an HTTP error status of a forge or index API: 429 is a rate
/// limit, which resets after the response's `Retry-After` value where it has
/// one (else "unknown"); 401 and 403 ask for authentication where `auth`
/// holds; anything else is a failed request, worth retrying from 500 on.
pub open spec fn status_error_model(
    forge: Seq<char>,
    auth: bool,
    status: u16,
    path: Seq<char>,
    retry_after: Option<Seq<char>>,
) -> CheckErrorModel {
    if status == 429 {
        CheckErrorModel::RateLimited {
            forge,
            reset_at: match retry_after {
                Some(t) => t,
                None => "unknown"@,
            },
        }
    } else if auth && (status == 401 || status == 403) {
        CheckErrorModel::AuthRequired { forge }
    } else {
        CheckErrorModel::ApiError {
            operation: path,
            message: "HTTP "@ + decimal(status as nat),
            status: Some(status),
            retryable: status >= 500,
        }
    }
}

/// The error for an HTTP error status; see `status_error_model`.
pub fn status_error(forge: &str, auth: bool, status: u16, path: &str, retry_after: Option<&str>) -> (e:
    CheckError)
    ensures
        e@ == status_error_model(
            forge@,
            auth,
            status,
            path@,
            match retry_after {
                Some(t) => Some(t@),
                None => None,
            },
        ),
{
    if status == 429 {
        let reset_at = match retry_after {
            Some(t) => owned(t),
            None => owned("unknown"),
        };
        CheckError::RateLimited { forge: owned(forge), reset_at }
    } else if auth && (status == 401 || status == 403) {
        CheckError::AuthRequired { forge: owned(forge) }
    } else {
        let mut message = owned("HTTP ");
        push_decimal(&mut message, status as u64);
        CheckError::ApiError {
            operation: owned(path),
            message,
            status: Some(status),
            retryable: status >= 500,
        }
    }
}

/// How long to wait before retrying after a rate limit: the reset time read
/// as a number of seconds, at most 30; nothing when it is not a number.
pub open spec fn retry_wait_model(reset_at: Seq<char>) -> Option<u64> {
    match parse_unsigned(reset_at, u64::MAX as nat) {
        Some(n) => Some(if n > 30 { 30u64 } else { n as u64 }),
        None => None,
    }
}

pub fn retry_wait(reset_at: &str) -> (r: Option<u64>)
    ensures
        r == retry_wait_model(reset_at@),
{
    let v = chars_of(reset_at);
    proof {
        assert(v@.subrange(0, v@.len() as int) =~= v@);
    }
    match parse_unsigned_in(&v, 0, v.len(), u64::MAX) {
        Some(n) => Some(if n > 30 {
            30
        } else {
            n
        }),
        None => None,
    }
}

/// The outcome of the retry after a rate limit: its answer, or the first
/// rate limit again when it failed too.
pub fn after_retry<T>(forge: &str, reset_at: &str, retried: Result<T, CheckError>) -> (r: Result<T, CheckError>)
    ensures
        match retried {
            Ok(v) => r == Ok::<T, CheckError>(v),
            Err(_) => r matches Err(e) && e@ == (CheckErrorModel::RateLimited {
                forge: forge@,
                reset_at: reset_at@,
            }),
        },
{
    match retried {
        Ok(v) => Ok(v),
        Err(_) => Err(CheckError::RateLimited { forge: owned(forge), reset_at: owned(reset_at) }),
    }
}

/// A pull request as the checker sees it: open when the API says `open`,
/// closed otherwise; not merged when the API does not say.
pub fn pr_status_from(
    number: u64,
    state: &str,
    merged: Option<bool>,
    merged_at: Option<String>,
    merge_commit_sha: Option<String>,
) -> (p: PrStatus)
    ensures
        p.number == number,
        p.state == (if state@ == "open"@ {
            PrState::Open
        } else {
            PrState::Closed
        }),
        p.merged == (merged == Some(true)),
        p.merged_at == merged_at,
        p.merge_commit_sha == merge_commit_sha,
{
    let v = chars_of(state);
    let open = crate::text::equals_str(&v, "open");
    PrStatus {
        number,
        state: if open {
            PrState::Open
        } else {
            PrState::Closed
        },
        merged: match merged {
            Some(b) => b,
            None => false,
        },
        merged_at,
        merge_commit_sha,
    }
}

/// An issue as the checker sees it: closed when the API says `closed`, open otherwise.
pub fn issue_status_from(number: u64, state: &str) -> (i: IssueStatus)
    ensures
        i.number == number,
        i.state == (if state@ == "closed"@ {
            IssueState::Closed
        } else {
            IssueState::Open
        }),
{
    let v = chars_of(state);
    let closed = crate::text::equals_str(&v, "closed");
    IssueStatus {
        number,
        state: if closed {
            IssueState::Closed
        } else {
            IssueState::Open
        },
    }
}

/// Whether an error is a failed request answered with 404.
pub open spec fn is_not_found(e: CheckErrorModel) -> bool {
    e matches CheckErrorModel::ApiError { status, .. } && status == Some(404u16)
}

fn not_found(e: &CheckError) -> (b: bool)
    ensures
        b == is_not_found(e@),
{
    match e {
        CheckError::ApiError { status: Some(s), .. } => *s == 404,
        _ => false,
    }
}

/// Whether a branch exists, from the answer to a request for it: an answer
/// means yes, a 404 means no, any other error stays an error.
pub fn branch_found(reply: Result<(), CheckError>) -> (r: Result<bool, CheckError>)
    ensures
        match reply {
            Ok(_) => r == Ok::<bool, CheckError>(true),
            Err(e) => if is_not_found(e@) {
                r == Ok::<bool, CheckError>(false)
            } else {
                r matches Err(e2) && e2@ == e@
            },
        },
{
    match reply {
        Ok(_) => Ok(true),
        Err(e) => if not_found(&e) {
            Ok(false)
        } else {
            Err(e)
        },
    }
}

/// The latest release, from the answer to a request for it: a 404 means
/// there is none.
pub fn latest_found(reply: Result<Release, CheckError>) -> (r: Result<Option<Release>, CheckError>)
    ensures
        match reply {
            Ok(rel) => r == Ok::<Option<Release>, CheckError>(Some(rel)),
            Err(e) => if is_not_found(e@) {
                r == Ok::<Option<Release>, CheckError>(None)
            } else {
                r matches Err(e2) && e2@ == e@
            },
        },
{
    match reply {
        Ok(rel) => Ok(Some(rel)),
        Err(e) => if not_found(&e) {
            Ok(None)
        } else {
            Err(e)
        },
    }
}

/// Whether `base` is in `head`, from the status of comparing `base...head`:
/// `head` is ahead of `base` or the same commit.
pub fn ancestor_from_compare(status: &str) -> (a: AncestorStatus)
    ensures
        a == (if status@ == "ahead"@ || status@ == "identical"@ {
            AncestorStatus::Ancestor
        } else {
            AncestorStatus::NotAncestor
        }),
{
    let v = chars_of(status);
    if crate::text::equals_str(&v, "ahead") || crate::text::equals_str(&v, "identical") {
        AncestorStatus::Ancestor
    } else {
        AncestorStatus::NotAncestor
    }
}

/// The number of tags in a full page.
pub open spec fn page_size() -> nat {
    100
}

/// Adds a page of tags to those fetched so far; whether another page may
/// follow (this one was full).
pub fn add_tag_page(all: &mut Vec<Tag>, page: Vec<Tag>) -> (more: bool)
    ensures
        final(all)@ == old(all)@ + page@,
        more == (page@.len() >= page_size()),
{
    let more = page.len() >= 100;
    let mut page = page;
    all.append(&mut page);
    more
}

/// How many requests the checker makes of GitHub without a token: half of
/// the 60 an hour that GitHub allows an unauthenticated client, leaving the
/// rest to other tools.
pub const UNAUTHENTICATED_BUDGET: u64 = 30;

/// Whether a client has used up what it may ask: never with a token, and
/// after `UNAUTHENTICATED_BUDGET` requests without one.
pub fn budget_spent(authenticated: bool, requests: u64) -> (b: bool)
    ensures
        b == (!authenticated && requests >= UNAUTHENTICATED_BUDGET),
{
    !authenticated && requests >= UNAUTHENTICATED_BUDGET
}

} // verus!
