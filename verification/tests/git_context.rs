use remind_me_to::scanner::git_context::{parse_remote_url, pick_remote, resolve_shorthand, GitContext};

#[test]
fn parse_https_url() {
    let ctx = parse_remote_url("https://github.com/owner/repo.git").unwrap();
    assert_eq!(ctx.forge, "github");
    assert_eq!(ctx.owner, "owner");
    assert_eq!(ctx.repo, "repo");
}

#[test]
fn parse_https_url_no_git_suffix() {
    let ctx = parse_remote_url("https://github.com/owner/repo").unwrap();
    assert_eq!(ctx.forge, "github");
    assert_eq!(ctx.owner, "owner");
    assert_eq!(ctx.repo, "repo");
}

#[test]
fn parse_ssh_url() {
    let ctx = parse_remote_url("git@github.com:owner/repo.git").unwrap();
    assert_eq!(ctx.forge, "github");
    assert_eq!(ctx.owner, "owner");
    assert_eq!(ctx.repo, "repo");
}

#[test]
fn parse_ssh_url_no_git_suffix() {
    let ctx = parse_remote_url("git@github.com:owner/repo").unwrap();
    assert_eq!(ctx.repo, "repo");
}

#[test]
fn parse_ssh_protocol_url() {
    let ctx = parse_remote_url("ssh://git@github.com/owner/repo.git").unwrap();
    assert_eq!(ctx.forge, "github");
    assert_eq!(ctx.owner, "owner");
    assert_eq!(ctx.repo, "repo");
}

#[test]
fn non_github_returns_none() {
    assert!(parse_remote_url("https://gitlab.com/owner/repo").is_none());
}

#[test]
fn malformed_url_returns_none() {
    assert!(parse_remote_url("not-a-url").is_none());
}

#[test]
fn resolve_issue_shorthand() {
    let ctx = Some(GitContext {
        forge: "github".to_string(),
        owner: "tokio-rs".to_string(),
        repo: "tokio".to_string(),
    });
    let resolved = resolve_shorthand("#5432", &ctx).unwrap();
    assert_eq!(resolved, "github:tokio-rs/tokio#5432");
}

#[test]
fn resolve_ref_shorthand() {
    let ctx = Some(GitContext {
        forge: "github".to_string(),
        owner: "serde-rs".to_string(),
        repo: "serde".to_string(),
    });
    let resolved = resolve_shorthand("@>=2.0.0", &ctx).unwrap();
    assert_eq!(resolved, "github:serde-rs/serde@>=2.0.0");
}

#[test]
fn resolve_without_context() {
    assert!(resolve_shorthand("#123", &None).is_none());
}

#[test]
fn resolve_non_shorthand() {
    let ctx = Some(GitContext {
        forge: "github".to_string(),
        owner: "foo".to_string(),
        repo: "bar".to_string(),
    });
    assert!(resolve_shorthand("not-a-shorthand", &ctx).is_none());
}

// ---- remote choice and URL edge cases ----

fn names(v: &[&str]) -> Vec<String> {
    v.iter().map(|s| s.to_string()).collect()
}

#[test]
fn single_remote_is_used_whatever_its_name() {
    assert_eq!(pick_remote(&names(&["fork"])), Some("fork".to_string()));
}

#[test]
fn upstream_is_preferred_then_origin_then_the_first() {
    assert_eq!(
        pick_remote(&names(&["origin", "upstream"])),
        Some("upstream".to_string())
    );
    assert_eq!(
        pick_remote(&names(&["mine", "origin"])),
        Some("origin".to_string())
    );
    assert_eq!(pick_remote(&names(&["a", "b"])), Some("a".to_string()));
    assert_eq!(pick_remote(&[]), None);
}

#[test]
fn trailing_slashes_and_http_are_accepted() {
    let ctx = parse_remote_url("http://github.com/owner/repo/").unwrap();
    assert_eq!(ctx.owner, "owner");
    assert_eq!(ctx.repo, "repo");
}

#[test]
fn empty_owner_or_repo_is_rejected() {
    assert!(parse_remote_url("https://github.com//repo").is_none());
    assert!(parse_remote_url("https://github.com/owner/").is_none());
    assert!(parse_remote_url("https://github.com/owner").is_none());
}
