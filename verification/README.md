# remind-me-to

Scans source files for comments such as

```
// REMIND-ME-TO: Remove workaround pr_merged=github:tokio-rs/tokio#5432
// REMIND-ME-TO: Upgrade to v2 tag_exists=github:serde-rs/serde@>=2.0.0
// REMIND-ME-TO: Review this decision date_passed=2025-06-01
```

and checks whether their conditions have been met (a pull request merged or
closed, a tag or a release, an issue closed, a branch deleted, a date passed,
a nixpkgs version published). A reminder fires when any of its conditions is
met.

## Layout

- `src/` — the library, verified with Verus:
  - `scanner/` — the comment syntax (`common`), the grammar parser
    (`grammar`), the whitespace-token parser (`parser`), per-file scanning
    (`scan`) and git remotes (`git_context`);
  - `ops/` — the data model (`types`), version constraints (`version`), the
    checker (`checker`), and the request/answer logic of the GitHub and
    nixhub clients with their test doubles (`github`, `nixpkgs`), and the
    answer table the test doubles keep (`table`);
  - `output/` — the text, LLM and exit-status reports;
  - `text.rs`, `dates.rs`, `errors.rs` — shared pieces.
- `app/` — the command-line program: argument handling, the directory walk,
  HTTP, `git`, terminal colors and JSON.
- `tests/` — tests of the library.

The checker checks each distinct operation once (operations are told apart by
their comment syntax; the call-count tests of the test double show each
distinct pull request asked once). Its contract states that each result comes
from the forge's answers about that operation's own references, that every
reminder then gets, in order, the result for each of its operations, that a
reminder is triggered exactly when one of its results is, and that the failure
of one request leaves the other results alone.
