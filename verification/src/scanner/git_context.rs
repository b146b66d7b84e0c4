//! The forge, owner and repository that a git remote points at, and the
//! resolution of shorthand references against them.
use vstd::prelude::*;

use crate::ops::types::{forge_ref_text, ForgeRefModel, IssueRefModel, RefRefModel};
use crate::scanner::common::{
    forge_ref_readable, issue_ref_parse, lemma_forge_ref_prefix_of_text, lemma_split_join,
    ref_ref_parse,
};
use crate::text::{parse_unsigned, 
    chars_of, copy_range, find_char, owned, push_chars, push_str, split_once, starts_with,
    to_string,
};

verus! {

/// Detected forge context from git remotes.
#[derive(Debug, Clone)]
pub struct GitContext {
    pub forge: String,
    pub owner: String,
    pub repo: String,
}

pub struct GitContextModel {
    pub forge: Seq<char>,
    pub owner: Seq<char>,
    pub repo: Seq<char>,
}

impl View for GitContext {
    type V = GitContextModel;

    open spec fn view(&self) -> GitContextModel {
        GitContextModel { forge: self.forge@, owner: self.owner@, repo: self.repo@ }
    }
}

/// `s` without its trailing `/` characters.
pub open spec fn trim_slashes(s: Seq<char>) -> Seq<char>
    decreases s.len(),
{
    if s.len() > 0 && s.last() == '/' {
        trim_slashes(s.drop_last())
    } else {
        s
    }
}

/// `s` without a `.git` suffix.
pub open spec fn strip_git(s: Seq<char>) -> Seq<char> {
    if s.len() >= 4 && s.skip(s.len() - 4) == ".git"@ {
        s.take(s.len() - 4)
    } else {
        s
    }
}

/// The forge a host name stands for; only `github.com` is recognised.
pub open spec fn forge_of_host(host: Seq<char>) -> Option<Seq<char>> {
    if host == "github.com"@ || starts_with(host, "github.com:"@) {
        Some("github"@)
    } else {
        None
    }
}

/// Owner and repository from `owner/repo`, `owner/repo.git` (trailing `/` dropped).
pub open spec fn owner_repo(path: Seq<char>) -> Option<(Seq<char>, Seq<char>)> {
    match split_once(path, '/') {
        Some((owner, rest)) => {
            let repo = trim_slashes(strip_git(rest));
            if owner.len() == 0 || repo.len() == 0 {
                None
            } else {
                Some((owner, repo))
            }
        },
        None => None,
    }
}

/// The context of `host` + `sep` + `path`.
pub open spec fn context_of(rest: Seq<char>, sep: char) -> Option<GitContextModel> {
    match split_once(rest, sep) {
        Some((host, path)) => match forge_of_host(host) {
            Some(forge) => match owner_repo(path) {
                Some((owner, repo)) => Some(GitContextModel { forge, owner, repo }),
                None => None,
            },
            None => None,
        },
        None => None,
    }
}

/// What a remote URL points at: `git@host:owner/repo[.git]`,
/// `ssh://git@host/owner/repo[.git]` or `http(s)://host/owner/repo[.git]`.
pub open spec fn remote_context(url: Seq<char>) -> Option<GitContextModel> {
    if starts_with(url, "git@"@) {
        context_of(url.skip(4), ':')
    } else if starts_with(url, "ssh://git@"@) {
        context_of(url.skip(10), '/')
    } else if starts_with(url, "https://"@) {
        context_of(url.skip(8), '/')
    } else if starts_with(url, "http://"@) {
        context_of(url.skip(7), '/')
    } else {
        None
    }
}

/// Detect the forge type from a hostname (`v[from..to]`).
fn detect_forge(v: &Vec<char>, from: usize, to: usize) -> (r: Option<String>)
    requires
        from <= to <= v@.len(),
    ensures
        match forge_of_host(v@.subrange(from as int, to as int)) {
            Some(f) => r matches Some(s) && s@ == f,
            None => r is None,
        },
{
    let host = copy_range(v, from, to);
    if crate::text::equals_str(&host, "github.com") || crate::scanner::common::starts_in(
        v,
        from,
        to,
        "github.com:",
    ) {
        Some(owned("github"))
    } else {
        None
    }
}

/// Parse "owner/repo" or "owner/repo.git" from `v[from..to]`.
fn parse_owner_repo(v: &Vec<char>, from: usize, to: usize) -> (r: Option<(String, String)>)
    requires
        from <= to <= v@.len(),
    ensures
        match owner_repo(v@.subrange(from as int, to as int)) {
            Some((o, p)) => r matches Some((so, sp)) && so@ == o && sp@ == p,
            None => r is None,
        },
{
    let ghost path = v@.subrange(from as int, to as int);
    let slash = match find_char(v, from, '/') {
        Some(k) if k < to => k,
        _ => {
            proof {
                crate::text::lemma_index_of(v@.skip(from as int), '/');
                crate::text::lemma_index_of(path, '/');
                if let Some(j) = crate::text::index_of(path, '/') {
                    assert(v@.skip(from as int)[j] == '/');
                }
            }
            return None;
        },
    };
    proof {
        crate::text::lemma_index_of(v@.skip(from as int), '/');
        assert forall|j: int| 0 <= j < slash - from implies path[j] != '/' by {
            assert(path[j] == v@.skip(from as int)[j]);
        }
        assert(path[slash - from] == '/');
        crate::text::lemma_index_of_char(path, '/', slash - from);
    }
    let ghost rest = path.skip(slash - from + 1);
    let mut end = to;
    proof {
        reveal_strlit(".git");
        assert(rest =~= v@.subrange(slash + 1, to as int));
    }
    if to - (slash + 1) >= 4 && v[to - 4] == '.' && v[to - 3] == 'g' && v[to - 2] == 'i' && v[to
        - 1] == 't' {
        end = to - 4;
        proof {
            assert(rest.skip(rest.len() - 4) =~= ".git"@);
            assert(strip_git(rest) =~= v@.subrange(slash + 1, end as int));
        }
    } else {
        proof {
            if rest.len() >= 4 {
                assert(rest.skip(rest.len() - 4)[0] == v@[to - 4]);
                assert(rest.skip(rest.len() - 4)[1] == v@[to - 3]);
                assert(rest.skip(rest.len() - 4)[2] == v@[to - 2]);
                assert(rest.skip(rest.len() - 4)[3] == v@[to - 1]);
                assert(".git"@[0] == '.');
                assert(".git"@[1] == 'g');
                assert(".git"@[2] == 'i');
                assert(".git"@[3] == 't');
            }
            assert(strip_git(rest) =~= v@.subrange(slash + 1, end as int));
        }
    }
    while end > slash + 1 && v[end - 1] == '/'
        invariant
            slash + 1 <= end <= to <= v@.len(),
            trim_slashes(strip_git(rest)) == trim_slashes(v@.subrange(slash + 1, end as int)),
        decreases end,
    {
        proof {
            assert(v@.subrange(slash + 1, end as int).drop_last() =~= v@.subrange(
                slash + 1,
                end - 1,
            ));
        }
        end = end - 1;
    }
    proof {
        assert(trim_slashes(v@.subrange(slash + 1, end as int)) == v@.subrange(
            slash + 1,
            end as int,
        ));
        assert(path.take(slash - from) =~= v@.subrange(from as int, slash as int));
    }
    if slash == from || end == slash + 1 {
        return None;
    }
    let owner = copy_range(v, from, slash);
    let repo = copy_range(v, slash + 1, end);
    Some((to_string(&owner), to_string(&repo)))
}

/// The context of `v[from..to]` read as `host` + `sep` + `owner/repo`.
fn context_from(v: &Vec<char>, from: usize, to: usize, sep: char) -> (r: Option<GitContext>)
    requires
        from <= to == v@.len(),
    ensures
        match context_of(v@.subrange(from as int, to as int), sep) {
            Some(c) => r matches Some(g) && g@ == c,
            None => r is None,
        },
{
    let ghost rest = v@.subrange(from as int, to as int);
    proof {
        assert(v@.skip(from as int) =~= rest);
    }
    let k = match find_char(v, from, sep) {
        Some(k) => k,
        None => return None,
    };
    proof {
        assert(rest.take(k - from) =~= v@.subrange(from as int, k as int));
        assert(rest.skip(k - from + 1) =~= v@.subrange(k + 1, to as int));
    }
    let forge = match detect_forge(v, from, k) {
        Some(f) => f,
        None => return None,
    };
    match parse_owner_repo(v, k + 1, to) {
        Some((owner, repo)) => Some(GitContext { forge, owner, repo }),
        None => None,
    }
}

/// Parse a git remote URL into forge, owner, repo.
///
/// Supported formats:
/// - `https://github.com/owner/repo.git`
/// - `https://github.com/owner/repo`
/// - `git@github.com:owner/repo.git`
/// - `git@github.com:owner/repo`
/// - `ssh://git@github.com/owner/repo.git`
pub fn parse_remote_url(url: &str) -> (r: Option<GitContext>)
    ensures
        match remote_context(url@) {
            Some(c) => r matches Some(g) && g@ == c,
            None => r is None,
        },
{
    let v = chars_of(url);
    let n = v.len();
    proof {
        assert(v@.subrange(0, n as int) =~= v@);
    }
    if crate::scanner::common::starts_in(&v, 0, n, "git@") {
        proof {
            reveal_strlit("git@");
            assert(v@.skip(4) =~= v@.subrange(4, n as int));
        }
        return context_from(&v, 4, n, ':');
    }
    if crate::scanner::common::starts_in(&v, 0, n, "ssh://git@") {
        proof {
            reveal_strlit("ssh://git@");
            assert(v@.skip(10) =~= v@.subrange(10, n as int));
        }
        return context_from(&v, 10, n, '/');
    }
    if crate::scanner::common::starts_in(&v, 0, n, "https://") {
        proof {
            reveal_strlit("https://");
            assert(v@.skip(8) =~= v@.subrange(8, n as int));
        }
        return context_from(&v, 8, n, '/');
    }
    if crate::scanner::common::starts_in(&v, 0, n, "http://") {
        proof {
            reveal_strlit("http://");
            assert(v@.skip(7) =~= v@.subrange(7, n as int));
        }
        return context_from(&v, 7, n, '/');
    }
    None
}

/// The shorthand `#123` or `@value` resolved against a context:
/// `forge:owner/repo#123` or `forge:owner/repo@value`.
pub open spec fn shorthand_resolution(shorthand: Seq<char>, context: Option<GitContextModel>) -> Option<
    Seq<char>,
> {
    match context {
        None => None,
        Some(c) => if shorthand.len() > 0 && (shorthand[0] == '#' || shorthand[0] == '@') {
            Some(c.forge + seq![':'] + c.owner + seq!['/'] + c.repo + shorthand)
        } else {
            None
        },
    }
}

/// Resolve a shorthand reference like `#123` into a full forge reference.
///
/// Returns `Some("github:owner/repo#123")` if git context is available,
/// or `None` if shorthand can't be resolved.
pub fn resolve_shorthand(shorthand: &str, context: &Option<GitContext>) -> (r: Option<String>)
    ensures
        r matches Some(s) ==> shorthand_resolution(
            shorthand@,
            match context {
                Some(c) => Some(c@),
                None => None,
            },
        ) == Some(s@),
        r is None ==> shorthand_resolution(
            shorthand@,
            match context {
                Some(c) => Some(c@),
                None => None,
            },
        ) is None,
{
    let context = match context {
        Some(c) => c,
        None => return None,
    };
    let v = chars_of(shorthand);
    if v.len() == 0 || (v[0] != '#' && v[0] != '@') {
        return None;
    }
    let mut s = context.forge.clone();
    push_str(&mut s, ":");
    s.append(context.owner.as_str());
    push_str(&mut s, "/");
    s.append(context.repo.as_str());
    push_chars(&mut s, &v);
    proof {
        reveal_strlit(":");
        reveal_strlit("/");
        assert(s@ =~= context.forge@ + seq![':'] + context.owner@ + seq!['/'] + context.repo@
            + shorthand@);
    }
    Some(s)
}

/// The remote to resolve shorthands against: the only one, else `upstream`,
/// else `origin`, else the first.
pub open spec fn preferred_remote(remotes: Seq<Seq<char>>) -> Option<Seq<char>> {
    if remotes.len() == 0 {
        None
    } else if remotes.len() == 1 {
        Some(remotes[0])
    } else if remotes.contains("upstream"@) {
        Some("upstream"@)
    } else if remotes.contains("origin"@) {
        Some("origin"@)
    } else {
        Some(remotes[0])
    }
}

/// Whether `remotes` holds `name`.
fn has_remote(remotes: &[String], name: &str) -> (b: bool)
    ensures
        b == remotes@.map_values(|r: String| r@).contains(name@),
{
    let ghost rv = remotes@.map_values(|r: String| r@);
    let mut i: usize = 0;
    while i < remotes.len()
        invariant
            rv == remotes@.map_values(|r: String| r@),
            0 <= i <= remotes@.len(),
            forall|k: int| 0 <= k < i ==> rv[k] != name@,
        decreases remotes@.len() - i,
    {
        let c = chars_of(remotes[i].as_str());
        if crate::text::equals_str(&c, name) {
            proof {
                assert(rv[i as int] == name@);
            }
            return true;
        }
        i = i + 1;
    }
    false
}

/// Pick the best remote to resolve shorthands against: the only one, else
/// `upstream`, else `origin`, else the first.
pub fn pick_remote(remotes: &[String]) -> (r: Option<String>)
    ensures
        match preferred_remote(remotes@.map_values(|r: String| r@)) {
            Some(name) => r matches Some(s) && s@ == name,
            None => r is None,
        },
{
    if remotes.len() == 0 {
        None
    } else if remotes.len() == 1 {
        Some(remotes[0].clone())
    } else if has_remote(remotes, "upstream") {
        Some(owned("upstream"))
    } else if has_remote(remotes, "origin") {
        Some(owned("origin"))
    } else {
        Some(remotes[0].clone())
    }
}

/// The reference a context stands for.
pub open spec fn context_ref(c: GitContextModel) -> ForgeRefModel {
    ForgeRefModel { forge: c.forge, owner: c.owner, repo: c.repo }
}

/// A shorthand resolved against a context reads back as a reference to the
/// context's repository: `@value` with that value, `#n` with that number.
pub proof fn lemma_shorthand_reads_back(shorthand: Seq<char>, c: GitContextModel)
    requires
        forge_ref_readable(context_ref(c)),
        shorthand.len() > 1,
    ensures
        shorthand[0] == '@' ==> ref_ref_parse(shorthand_resolution(shorthand, Some(c))->0) == Ok::<
            _,
            crate::scanner::common::RefFault,
        >(RefRefModel { forge_ref: context_ref(c), value: shorthand.drop_first() }),
        shorthand[0] == '#' ==> match parse_unsigned(shorthand.drop_first(), u64::MAX as nat) {
            Some(n) => issue_ref_parse(shorthand_resolution(shorthand, Some(c))->0) == Ok::<
                _,
                crate::scanner::common::RefFault,
            >(IssueRefModel { forge_ref: context_ref(c), number: n as u64 }),
            None => issue_ref_parse(shorthand_resolution(shorthand, Some(c))->0) is Err,
        },
{
    if shorthand[0] == '@' || shorthand[0] == '#' {
        let f = context_ref(c);
        assert(shorthand_resolution(shorthand, Some(c))->0 =~= forge_ref_text(f) + shorthand);
        lemma_forge_ref_prefix_of_text(f, shorthand);
    }
}

/// The shapes of a GitHub remote URL that are understood.
pub enum RemoteForm {
    /// `git@github.com:owner/repo`
    Scp,
    /// `ssh://git@github.com/owner/repo`
    Ssh,
    /// `https://github.com/owner/repo`
    Https,
    /// `http://github.com/owner/repo`
    Http,
}

/// The URL of GitHub repository `owner/repo` in shape `form`, with a `.git`
/// suffix where `git` holds.
pub open spec fn github_url(form: RemoteForm, owner: Seq<char>, repo: Seq<char>, git: bool) -> Seq<
    char,
> {
    let path = owner + seq!['/'] + repo + if git {
        ".git"@
    } else {
        seq![]
    };
    match form {
        RemoteForm::Scp => "git@github.com:"@ + path,
        RemoteForm::Ssh => "ssh://git@github.com/"@ + path,
        RemoteForm::Https => "https://github.com/"@ + path,
        RemoteForm::Http => "http://github.com/"@ + path,
    }
}

proof fn lemma_owner_repo_of(owner: Seq<char>, repo: Seq<char>, git: bool)
    requires
        owner.len() > 0,
        repo.len() > 0,
        forall|k: int| 0 <= k < owner.len() ==> owner[k] != '/',
        forall|k: int| 0 <= k < repo.len() ==> repo[k] != '/',
        !(repo.len() >= 4 && repo.skip(repo.len() - 4) == ".git"@),
    ensures
        owner_repo(owner + seq!['/'] + repo + if git {
            ".git"@
        } else {
            seq![]
        }) == Some((owner, repo)),
{
    reveal_strlit(".git");
    let rest = repo + if git {
        ".git"@
    } else {
        seq![]
    };
    assert(owner + seq!['/'] + repo + (if git {
        ".git"@
    } else {
        seq![]
    }) =~= owner + seq!['/'] + rest);
    lemma_split_join(owner, '/', rest);
    if git {
        assert(rest.skip(rest.len() - 4) =~= ".git"@);
        assert(rest.take(rest.len() - 4) =~= repo);
    } else {
        assert(rest =~= repo);
    }
    assert(strip_git(rest) == repo);
    assert(repo.last() != '/');
    assert(trim_slashes(repo) == repo);
}

/// Every GitHub repository `owner/repo` (owner and repo non-empty and without
/// `/`, repo not itself ending in `.git`) is read back from its remote URL in
/// each understood shape, with or without the `.git` suffix.
pub proof fn lemma_github_url_parses(form: RemoteForm, owner: Seq<char>, repo: Seq<char>, git: bool)
    requires
        owner.len() > 0,
        repo.len() > 0,
        forall|k: int| 0 <= k < owner.len() ==> owner[k] != '/',
        forall|k: int| 0 <= k < repo.len() ==> repo[k] != '/',
        !(repo.len() >= 4 && repo.skip(repo.len() - 4) == ".git"@),
    ensures
        remote_context(github_url(form, owner, repo, git)) == Some(
            GitContextModel { forge: "github"@, owner, repo },
        ),
{
    reveal_strlit("git@github.com:");
    reveal_strlit("ssh://git@github.com/");
    reveal_strlit("https://github.com/");
    reveal_strlit("http://github.com/");
    reveal_strlit("git@");
    reveal_strlit("ssh://git@");
    reveal_strlit("https://");
    reveal_strlit("http://");
    reveal_strlit("github.com");
    reveal_strlit("github.com:");
    reveal_strlit("github");
    lemma_owner_repo_of(owner, repo, git);
    let path = owner + seq!['/'] + repo + if git {
        ".git"@
    } else {
        seq![]
    };
    let host = "github.com"@;
    assert forall|k: int| 0 <= k < host.len() implies host[k] != ':' && host[k] != '/' by {}
    assert(forge_of_host(host) == Some("github"@));
    let url = github_url(form, owner, repo, git);
    match form {
        RemoteForm::Scp => {
            assert(url.take(4) =~= "git@"@);
            assert(url.skip(4) =~= host + seq![':'] + path);
            lemma_split_join(host, ':', path);
        },
        RemoteForm::Ssh => {
            assert(url.take(4) != "git@"@) by {
                assert(url.take(4)[0] != "git@"@[0]);
            }
            assert(url.take(10) =~= "ssh://git@"@);
            assert(url.skip(10) =~= host + seq!['/'] + path);
            lemma_split_join(host, '/', path);
        },
        RemoteForm::Https => {
            assert(url.take(4) != "git@"@) by {
                assert(url.take(4)[0] != "git@"@[0]);
            }
            assert(url.take(10) != "ssh://git@"@) by {
                assert(url.take(10)[0] != "ssh://git@"@[0]);
            }
            assert(url.take(8) =~= "https://"@);
            assert(url.skip(8) =~= host + seq!['/'] + path);
            lemma_split_join(host, '/', path);
        },
        RemoteForm::Http => {
            assert(url.take(4) != "git@"@) by {
                assert(url.take(4)[0] != "git@"@[0]);
            }
            assert(url.take(10) != "ssh://git@"@) by {
                assert(url.take(10)[0] != "ssh://git@"@[0]);
            }
            assert(url.take(8) != "https://"@) by {
                assert(url.take(8)[4] != "https://"@[4]);
            }
            assert(url.take(7) =~= "http://"@);
            assert(url.skip(7) =~= host + seq!['/'] + path);
            lemma_split_join(host, '/', path);
        },
    }
}

} // verus!
