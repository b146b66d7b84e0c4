//! Pieces of REMIND-ME-TO comment syntax shared by both comment parsers:
//! the marker, the operation names and the structure of reference values.
use vstd::prelude::*;

use crate::ops::types::{
    forge_ref_text, issue_ref_text, ref_ref_text, ForgeRef, ForgeRefModel, IssueRef, IssueRefModel,
    RefRef, RefRefModel,
};
use crate::text::{
    char_utf8_len, char_utf8_width, copy_range, count_char, decimal, digit_char, digits_value,
    equals_str, even_count, find_char, index_of, is_digit, lemma_index_of, lemma_index_of_char,
    matches_at, parse_unsigned, parse_unsigned_in, rfind, rfind_in, split_once, starts_with,
    strip_plus, to_string,
};

verus! {

/// The marker, in lower case.
pub open spec fn marker() -> Seq<char> {
    seq!['r', 'e', 'm', 'i', 'n', 'd', '-', 'm', 'e', '-', 't', 'o', ':']
}

/// Whether `c` is the marker character `m` up to ASCII case.
pub open spec fn marker_char_matches(c: char, m: char) -> bool {
    c == m || ('a' as u32 <= m as u32 <= 'z' as u32 && c as u32 + 32 == m as u32)
}

/// Whether the marker (ignoring case) starts at index `i` of `s`.
pub open spec fn marker_at(s: Seq<char>, i: int) -> bool {
    &&& 0 <= i
    &&& i + 13 <= s.len()
    &&& forall|k: int| 0 <= k < 13 ==> marker_char_matches(#[trigger] s[i + k], marker()[k])
}

/// The first index at or after `i` where the marker starts.
pub open spec fn find_marker_from(s: Seq<char>, i: int) -> Option<int>
    decreases s.len() - i,
{
    if i < 0 || i + 13 > s.len() {
        None
    } else if marker_at(s, i) {
        Some(i)
    } else {
        find_marker_from(s, i + 1)
    }
}

/// Where the case-insensitive marker first occurs in a line.
pub open spec fn find_marker(s: Seq<char>) -> Option<int> {
    find_marker_from(s, 0)
}

pub proof fn lemma_find_marker_from(s: Seq<char>, i: int)
    requires
        0 <= i,
    ensures
        find_marker_from(s, i) matches Some(k) ==> i <= k && k + 13 <= s.len(),
    decreases s.len() - i,
{
    if i + 13 <= s.len() && !marker_at(s, i) {
        lemma_find_marker_from(s, i + 1);
    }
}

fn marker_char(k: usize) -> (m: char)
    requires
        k < 13,
    ensures
        m == marker()[k as int],
{
    if k == 0 { 'r' } else if k == 1 { 'e' } else if k == 2 { 'm' } else if k == 3 { 'i' }
    else if k == 4 { 'n' } else if k == 5 { 'd' } else if k == 6 { '-' } else if k == 7 { 'm' }
    else if k == 8 { 'e' } else if k == 9 { '-' } else if k == 10 { 't' } else if k == 11 { 'o' }
    else { ':' }
}

/// Index (relative to `from`) of the first case-insensitive marker in `v[from..to]`.
pub fn locate_marker(v: &Vec<char>, from: usize, to: usize) -> (r: Option<usize>)
    requires
        from <= to <= v@.len(),
    ensures
        r matches Some(k) ==> find_marker(v@.subrange(from as int, to as int)) == Some(k as int)
            && k + 13 <= to - from,
        r is None ==> find_marker(v@.subrange(from as int, to as int)) is None,
{
    let ghost s = v@.subrange(from as int, to as int);
    let len = to - from;
    let mut i: usize = 0;
    while len >= 13 && i <= len - 13
        invariant
            s == v@.subrange(from as int, to as int),
            len == s.len(),
            to == from + len,
            to <= v@.len(),
            find_marker(s) == find_marker_from(s, i as int),
        decreases len - i,
    {
        let mut k: usize = 0;
        let mut ok = true;
        while k < 13
            invariant
                s == v@.subrange(from as int, to as int),
                to == from + len,
                to <= v@.len(),
                i + 13 <= len,
                0 <= k <= 13,
                ok == forall|j: int| 0 <= j < k ==> marker_char_matches(#[trigger] s[i + j], marker()[j]),
            decreases 13 - k,
        {
            let c = v[from + i + k];
            let m = marker_char(k);
            let cu = c as u32;
            let mu = m as u32;
            let matched = c == m || ('a' as u32 <= mu && mu <= 'z' as u32 && cu == mu - 32);
            proof {
                assert(s[i + k] == c);
                assert(matched == marker_char_matches(s[i + k], marker()[k as int]));
            }
            ok = ok && matched;
            k = k + 1;
        }
        if ok {
            return Some(i);
        }
        i = i + 1;
    }
    None
}

/// The text before and after the first marker of a line.
pub open spec fn split_at_marker(line: Seq<char>) -> Option<(Seq<char>, Seq<char>)> {
    match find_marker(line) {
        Some(k) => Some((line.take(k), line.skip(k + 13))),
        None => None,
    }
}

/// The operation names known to the comment syntax.
#[derive(Debug, Clone, Copy, PartialEq, Eq, Structural)]
pub enum OpKind {
    PrMerged,
    PrClosed,
    TagExists,
    CommitReleased,
    PrReleased,
    IssueClosed,
    BranchDeleted,
    DatePassed,
    NixpkgVersion,
}

/// The operation named `key`, if `key` is an operation name.
pub open spec fn op_kind_of(key: Seq<char>) -> Option<OpKind> {
    if key == "pr_merged"@ {
        Some(OpKind::PrMerged)
    } else if key == "pr_closed"@ {
        Some(OpKind::PrClosed)
    } else if key == "tag_exists"@ {
        Some(OpKind::TagExists)
    } else if key == "commit_released"@ {
        Some(OpKind::CommitReleased)
    } else if key == "pr_released"@ {
        Some(OpKind::PrReleased)
    } else if key == "issue_closed"@ {
        Some(OpKind::IssueClosed)
    } else if key == "branch_deleted"@ {
        Some(OpKind::BranchDeleted)
    } else if key == "date_passed"@ {
        Some(OpKind::DatePassed)
    } else if key == "nixpkg_version"@ {
        Some(OpKind::NixpkgVersion)
    } else {
        None
    }
}

pub fn op_kind(key: &Vec<char>) -> (r: Option<OpKind>)
    ensures
        r == op_kind_of(key@),
{
    if equals_str(key, "pr_merged") {
        Some(OpKind::PrMerged)
    } else if equals_str(key, "pr_closed") {
        Some(OpKind::PrClosed)
    } else if equals_str(key, "tag_exists") {
        Some(OpKind::TagExists)
    } else if equals_str(key, "commit_released") {
        Some(OpKind::CommitReleased)
    } else if equals_str(key, "pr_released") {
        Some(OpKind::PrReleased)
    } else if equals_str(key, "issue_closed") {
        Some(OpKind::IssueClosed)
    } else if equals_str(key, "branch_deleted") {
        Some(OpKind::BranchDeleted)
    } else if equals_str(key, "date_passed") {
        Some(OpKind::DatePassed)
    } else if equals_str(key, "nixpkg_version") {
        Some(OpKind::NixpkgVersion)
    } else {
        None
    }
}

/// The name of an operation.
pub open spec fn kind_name(k: OpKind) -> Seq<char> {
    match k {
        OpKind::PrMerged => "pr_merged"@,
        OpKind::PrClosed => "pr_closed"@,
        OpKind::TagExists => "tag_exists"@,
        OpKind::CommitReleased => "commit_released"@,
        OpKind::PrReleased => "pr_released"@,
        OpKind::IssueClosed => "issue_closed"@,
        OpKind::BranchDeleted => "branch_deleted"@,
        OpKind::DatePassed => "date_passed"@,
        OpKind::NixpkgVersion => "nixpkg_version"@,
    }
}

/// Why a reference value did not parse.
pub enum RefFault {
    /// No `:` after the forge name.
    NoForge,
    /// No `/` between owner and repo; holds the forge name.
    NoOwnerRepo(Seq<char>),
    EmptyOwner,
    EmptyRepo,
    /// The `#` or `@` sigil is missing; holds what follows the repo.
    MissingSigil(Seq<char>),
    /// What follows `#` is not a number; holds it.
    BadNumber(Seq<char>),
    /// Nothing follows `@`.
    EmptyValue,
}

/// Why a reference value did not parse (exec form).
pub enum RefError {
    NoForge,
    NoOwnerRepo(Vec<char>),
    EmptyOwner,
    EmptyRepo,
    MissingSigil(Vec<char>),
    BadNumber(Vec<char>),
    EmptyValue,
}

impl View for RefError {
    type V = RefFault;

    open spec fn view(&self) -> RefFault {
        match self {
            RefError::NoForge => RefFault::NoForge,
            RefError::NoOwnerRepo(f) => RefFault::NoOwnerRepo(f@),
            RefError::EmptyOwner => RefFault::EmptyOwner,
            RefError::EmptyRepo => RefFault::EmptyRepo,
            RefError::MissingSigil(a) => RefFault::MissingSigil(a@),
            RefError::BadNumber(r) => RefFault::BadNumber(r@),
            RefError::EmptyValue => RefFault::EmptyValue,
        }
    }
}

/// Index of the first `#` or `@` in `s`, or its length.
pub open spec fn sigil_index(s: Seq<char>) -> nat
    decreases s.len(),
{
    if s.len() == 0 || s[0] == '#' || s[0] == '@' {
        0
    } else {
        1 + sigil_index(s.drop_first())
    }
}

proof fn lemma_sigil_index_exact(s: Seq<char>, n: int)
    requires
        0 <= n <= s.len(),
        forall|k: int| 0 <= k < n ==> s[k] != '#' && s[k] != '@',
        n < s.len() ==> s[n] == '#' || s[n] == '@',
    ensures
        sigil_index(s) == n,
    decreases s.len(),
{
    if n > 0 {
        lemma_sigil_index_exact(s.drop_first(), n - 1);
    }
}

/// The `forge:owner/repo` prefix of a reference value and what follows the repo
/// (the repo ends at the first `#` or `@`).
pub open spec fn forge_ref_prefix(value: Seq<char>) -> Result<(ForgeRefModel, Seq<char>), RefFault> {
    match split_once(value, ':') {
        None => Err(RefFault::NoForge),
        Some((forge, rest)) => match split_once(rest, '/') {
            None => Err(RefFault::NoOwnerRepo(forge)),
            Some((owner, rest2)) => {
                let e = sigil_index(rest2) as int;
                if owner.len() == 0 {
                    Err(RefFault::EmptyOwner)
                } else if e == 0 {
                    Err(RefFault::EmptyRepo)
                } else {
                    Ok((ForgeRefModel { forge, owner, repo: rest2.take(e) }, rest2.skip(e)))
                }
            },
        },
    }
}

/// `github:owner/repo#123`
pub open spec fn issue_ref_parse(value: Seq<char>) -> Result<IssueRefModel, RefFault> {
    match forge_ref_prefix(value) {
        Err(f) => Err(f),
        Ok((forge_ref, after)) => if after.len() > 0 && after[0] == '#' {
            match parse_unsigned(after.drop_first(), u64::MAX as nat) {
                Some(n) => Ok(IssueRefModel { forge_ref, number: n as u64 }),
                None => Err(RefFault::BadNumber(after.drop_first())),
            }
        } else {
            Err(RefFault::MissingSigil(after))
        },
    }
}

/// `github:owner/repo@value`
pub open spec fn ref_ref_parse(value: Seq<char>) -> Result<RefRefModel, RefFault> {
    match forge_ref_prefix(value) {
        Err(f) => Err(f),
        Ok((forge_ref, after)) => if after.len() > 0 && after[0] == '@' {
            if after.len() == 1 {
                Err(RefFault::EmptyValue)
            } else {
                Ok(RefRefModel { forge_ref, value: after.drop_first() })
            }
        } else {
            Err(RefFault::MissingSigil(after))
        },
    }
}

/// Splits a reference value into its forge reference and what follows the repo.
#[verifier::spinoff_prover]
pub fn parse_forge_ref_prefix(value: &Vec<char>) -> (r: Result<(ForgeRef, Vec<char>), RefError>)
    ensures
        match r {
            Ok((f, rest)) => forge_ref_prefix(value@) == Ok::<_, RefFault>((f@, rest@)),
            Err(e) => forge_ref_prefix(value@) == Err::<(ForgeRefModel, Seq<char>), _>(e@),
        },
{
    let colon = match find_char(value, 0, ':') {
        Some(c) => c,
        None => {
            proof {
                assert(value@.skip(0) =~= value@);
            }
            return Err(RefError::NoForge);
        },
    };
    proof {
        assert(value@.skip(0) =~= value@);
    }
    let ghost rest = value@.skip(colon + 1);
    let slash = match find_char(value, colon + 1, '/') {
        Some(s) => s,
        None => {
            let forge = copy_range(value, 0, colon);
            proof {
                assert(forge@ =~= value@.take(colon as int));
            }
            return Err(RefError::NoOwnerRepo(forge));
        },
    };
    let ghost rest2 = rest.skip(slash - colon);
    proof {
        assert(rest2 =~= value@.skip(slash + 1));
        assert(rest.take(slash - colon - 1) =~= value@.subrange(colon + 1, slash as int));
    }
    let mut e = slash + 1;
    while e < value.len() && value[e] != '#' && value[e] != '@'
        invariant
            slash + 1 <= e <= value@.len(),
            forall|k: int| slash + 1 <= k < e ==> value@[k] != '#' && value@[k] != '@',
        decreases value@.len() - e,
    {
        e = e + 1;
    }
    proof {
        lemma_sigil_index_exact(rest2, e - slash - 1);
    }
    if slash == colon + 1 {
        return Err(RefError::EmptyOwner);
    }
    if e == slash + 1 {
        return Err(RefError::EmptyRepo);
    }
    let forge = copy_range(value, 0, colon);
    let owner = copy_range(value, colon + 1, slash);
    let repo = copy_range(value, slash + 1, e);
    let after = copy_range(value, e, value.len());
    proof {
        assert(forge@ =~= value@.take(colon as int));
        assert(repo@ =~= rest2.take(e - slash - 1));
        assert(after@ =~= rest2.skip(e - slash - 1));
    }
    let f = ForgeRef { forge: to_string(&forge), owner: to_string(&owner), repo: to_string(&repo) };
    Ok((f, after))
}

/// Parses `github:owner/repo#123`.
pub fn parse_issue_ref(value: &Vec<char>) -> (r: Result<IssueRef, RefError>)
    ensures
        match r {
            Ok(i) => issue_ref_parse(value@) == Ok::<_, RefFault>(i@),
            Err(e) => issue_ref_parse(value@) == Err::<IssueRefModel, _>(e@),
        },
{
    let (forge_ref, after) = match parse_forge_ref_prefix(value) {
        Ok(p) => p,
        Err(e) => return Err(e),
    };
    if after.len() > 0 && after[0] == '#' {
        match parse_unsigned_in(&after, 1, after.len(), u64::MAX) {
            Some(n) => {
                proof {
                    assert(after@.subrange(1, after@.len() as int) =~= after@.drop_first());
                }
                Ok(IssueRef { forge_ref, number: n })
            },
            None => {
                let rest = copy_range(&after, 1, after.len());
                proof {
                    assert(after@.subrange(1, after@.len() as int) =~= after@.drop_first());
                }
                Err(RefError::BadNumber(rest))
            },
        }
    } else {
        Err(RefError::MissingSigil(after))
    }
}

/// Parses `github:owner/repo@value`.
pub fn parse_ref_ref(value: &Vec<char>) -> (r: Result<RefRef, RefError>)
    ensures
        match r {
            Ok(i) => ref_ref_parse(value@) == Ok::<_, RefFault>(i@),
            Err(e) => ref_ref_parse(value@) == Err::<RefRefModel, _>(e@),
        },
{
    let (forge_ref, after) = match parse_forge_ref_prefix(value) {
        Ok(p) => p,
        Err(e) => return Err(e),
    };
    if after.len() > 0 && after[0] == '@' {
        if after.len() == 1 {
            Err(RefError::EmptyValue)
        } else {
            let rest = copy_range(&after, 1, after.len());
            proof {
                assert(rest@ =~= after@.drop_first());
            }
            Ok(RefRef { forge_ref, value: to_string(&rest) })
        }
    } else {
        Err(RefError::MissingSigil(after))
    }
}

/// How many leading characters of `s` take exactly `n` bytes of UTF-8:
/// `Err(true)` when `s` is shorter than `n` bytes, `Err(false)` when byte `n`
/// falls inside a character.
pub open spec fn byte_split(s: Seq<char>, n: nat) -> Result<nat, bool>
    decreases s.len(),
{
    if n == 0 {
        Ok(0)
    } else if s.len() == 0 {
        Err(true)
    } else if char_utf8_len(s[0]) > n {
        Err(false)
    } else {
        match byte_split(s.drop_first(), (n - char_utf8_len(s[0])) as nat) {
            Ok(k) => Ok(k + 1),
            Err(b) => Err(b),
        }
    }
}

pub proof fn lemma_byte_split(s: Seq<char>, n: nat)
    ensures
        byte_split(s, n) matches Ok(k) ==> k <= s.len(),
    decreases s.len(),
{
    if n > 0 && s.len() > 0 && char_utf8_len(s[0]) <= n {
        lemma_byte_split(s.drop_first(), (n - char_utf8_len(s[0])) as nat);
    }
}

/// `byte_split(v@, n)`, computed.
pub fn split_bytes(v: &Vec<char>, n: usize) -> (r: Result<usize, bool>)
    ensures
        match r {
            Ok(k) => byte_split(v@, n as nat) == Ok::<nat, bool>(k as nat) && k <= v@.len(),
            Err(b) => byte_split(v@, n as nat) == Err::<nat, bool>(b),
        },
{
    let mut i: usize = 0;
    let mut left: usize = n;
    proof {
        assert(v@.skip(0) =~= v@);
    }
    while left > 0
        invariant
            0 <= i <= v@.len(),
            left <= n,
            byte_split(v@, n as nat) == match byte_split(v@.skip(i as int), left as nat) {
                Ok(k) => Ok::<nat, bool>(k + i as nat),
                Err(b) => Err(b),
            },
        decreases left,
    {
        if i == v.len() {
            return Err(true);
        }
        let w = char_utf8_width(v[i]);
        if w > left {
            return Err(false);
        }
        proof {
            assert(v@.skip(i as int).drop_first() =~= v@.skip(i + 1));
        }
        left = left - w;
        i = i + 1;
    }
    Ok(i)
}

/// Whether the last `p` in `t` stands outside a string literal: an even number
/// of `"` precede it.
pub open spec fn inline_prefix_ok(t: Seq<char>, p: Seq<char>) -> bool {
    match rfind(t, p) {
        Some(pos) => count_char(t.take(pos), '"') % 2 == 0,
        None => false,
    }
}

/// `inline_prefix_ok(v[lo..hi], p)`, computed.
pub fn inline_prefix_in(v: &Vec<char>, lo: usize, hi: usize, p: &str) -> (b: bool)
    requires
        lo <= hi <= v@.len(),
    ensures
        b == inline_prefix_ok(v@.subrange(lo as int, hi as int), p@),
{
    match rfind_in(v, lo, hi, p) {
        Some(k) => {
            proof {
                let t = v@.subrange(lo as int, hi as int);
                crate::text::lemma_rfind(t, p@);
                assert(t.take(k as int) =~= v@.subrange(lo as int, lo + k));
            }
            even_count(v, lo, lo + k, '"')
        },
        None => false,
    }
}

/// `starts_with(v[lo..hi], p)`, computed.
pub fn starts_in(v: &Vec<char>, lo: usize, hi: usize, p: &str) -> (b: bool)
    requires
        lo <= hi <= v@.len(),
    ensures
        b == starts_with(v@.subrange(lo as int, hi as int), p@),
{
    let n = p.unicode_len();
    if n > hi - lo {
        return false;
    }
    let b = matches_at(v, lo, p);
    proof {
        assert(v@.skip(lo as int).take(n as int) =~= v@.subrange(lo as int, hi as int).take(
            n as int,
        ));
    }
    b
}

// ---------------------------------------------------------------------------
// Reading back what is rendered
// ---------------------------------------------------------------------------

/// Splitting `a + [c] + b` at its first `c`, when `a` holds no `c`, gives `a` and `b`.
pub proof fn lemma_split_join(a: Seq<char>, c: char, b: Seq<char>)
    requires
        forall|k: int| 0 <= k < a.len() ==> a[k] != c,
    ensures
        split_once(a + seq![c] + b, c) == Some((a, b)),
{
    let s = a + seq![c] + b;
    assert(s[a.len() as int] == c);
    assert forall|k: int| 0 <= k < a.len() implies s[k] != c by {
        assert(s[k] == a[k]);
    }
    lemma_index_of_char(s, c, a.len() as int);
    assert(s.take(a.len() as int) =~= a);
    assert(s.skip(a.len() as int + 1) =~= b);
}

/// Splitting at the first `c` cuts `s` into a part without `c`, the `c`, and the rest.
pub proof fn lemma_split_parts(s: Seq<char>, c: char)
    ensures
        split_once(s, c) matches Some((a, b)) ==> s == a + seq![c] + b && forall|k: int|
            0 <= k < a.len() ==> a[k] != c,
{
    lemma_index_of(s, c);
    if let Some(i) = index_of(s, c) {
        assert(s =~= s.take(i) + seq![c] + s.skip(i + 1));
    }
}

proof fn lemma_sigil_parts(s: Seq<char>)
    ensures
        sigil_index(s) <= s.len(),
        forall|k: int| 0 <= k < sigil_index(s) ==> s[k] != '#' && s[k] != '@',
        sigil_index(s) < s.len() ==> s[sigil_index(s) as int] == '#' || s[sigil_index(s) as int]
            == '@',
    decreases s.len(),
{
    if s.len() > 0 && s[0] != '#' && s[0] != '@' {
        lemma_sigil_parts(s.drop_first());
        assert forall|k: int| 0 < k < sigil_index(s) implies s[k] == s.drop_first()[k - 1] by {}
    }
}

/// A `forge:owner/repo` reference as the parser accepts it: no `:` in the
/// forge, a non-empty owner without `/`, and a non-empty repo without `#` or `@`.
pub open spec fn forge_ref_readable(f: ForgeRefModel) -> bool {
    &&& forall|k: int| 0 <= k < f.forge.len() ==> f.forge[k] != ':'
    &&& f.owner.len() > 0
    &&& forall|k: int| 0 <= k < f.owner.len() ==> f.owner[k] != '/'
    &&& f.repo.len() > 0
    &&& forall|k: int| 0 <= k < f.repo.len() ==> f.repo[k] != '#' && f.repo[k] != '@'
}

/// What follows a repo: nothing, or a `#` or `@` sigil first.
pub open spec fn sigil_first(after: Seq<char>) -> bool {
    after.len() > 0 ==> after[0] == '#' || after[0] == '@'
}

/// A value with a `forge:owner/repo` prefix is that prefix, rendered,
/// followed by what comes after the repo.
pub proof fn lemma_forge_ref_prefix_parts(value: Seq<char>)
    requires
        forge_ref_prefix(value) is Ok,
    ensures
        forge_ref_readable(forge_ref_prefix(value)->Ok_0.0),
        sigil_first(forge_ref_prefix(value)->Ok_0.1),
        value == forge_ref_text(forge_ref_prefix(value)->Ok_0.0) + forge_ref_prefix(value)->Ok_0.1,
{
    lemma_split_parts(value, ':');
    let (forge, rest) = split_once(value, ':')->Some_0;
    lemma_split_parts(rest, '/');
    let (owner, rest2) = split_once(rest, '/')->Some_0;
    lemma_sigil_parts(rest2);
    let e = sigil_index(rest2) as int;
    let f = ForgeRefModel { forge, owner, repo: rest2.take(e) };
    assert(rest2 =~= rest2.take(e) + rest2.skip(e));
    assert(value =~= forge_ref_text(f) + rest2.skip(e));
}

/// Reading a rendered prefix back gives the same reference and the same rest.
pub proof fn lemma_forge_ref_prefix_of_text(f: ForgeRefModel, after: Seq<char>)
    requires
        forge_ref_readable(f),
        sigil_first(after),
    ensures
        forge_ref_prefix(forge_ref_text(f) + after) == Ok::<_, RefFault>((f, after)),
{
    let rest2 = f.repo + after;
    let rest = f.owner + seq!['/'] + rest2;
    assert(forge_ref_text(f) + after =~= f.forge + seq![':'] + rest);
    lemma_split_join(f.forge, ':', rest);
    lemma_split_join(f.owner, '/', rest2);
    assert forall|k: int| 0 <= k < f.repo.len() implies rest2[k] != '#' && rest2[k] != '@' by {
        assert(rest2[k] == f.repo[k]);
    }
    if after.len() > 0 {
        assert(rest2[f.repo.len() as int] == after[0]);
    }
    lemma_sigil_index_exact(rest2, f.repo.len() as int);
    assert(rest2.take(f.repo.len() as int) =~= f.repo);
    assert(rest2.skip(f.repo.len() as int) =~= after);
}

/// Parsing a `@` reference loses nothing: rendering what was read gives back
/// the value.
pub proof fn lemma_ref_ref_text(value: Seq<char>)
    requires
        ref_ref_parse(value) is Ok,
    ensures
        ref_ref_text(ref_ref_parse(value)->Ok_0) == value,
{
    lemma_forge_ref_prefix_parts(value);
    let (f, after) = forge_ref_prefix(value)->Ok_0;
    let r = ref_ref_parse(value)->Ok_0;
    assert(after =~= seq!['@'] + r.value);
    assert(ref_ref_text(r) =~= forge_ref_text(f) + after);
}

proof fn lemma_digit_char(d: nat)
    requires
        d < 10,
    ensures
        is_digit(digit_char(d)),
        (digit_char(d) as u32) - ('0' as u32) == d,
        digit_char(d) != '+',
{
}

/// The decimal form of a number: one or more ASCII digits whose value is the number.
proof fn lemma_decimal_digits(n: nat)
    ensures
        decimal(n).len() > 0,
        forall|k: int| 0 <= k < decimal(n).len() ==> is_digit(#[trigger] decimal(n)[k]),
        digits_value(decimal(n)) == n,
    decreases n,
{
    if n < 10 {
        lemma_digit_char(n);
        assert(decimal(n).drop_last() =~= Seq::<char>::empty());
        assert(digits_value(decimal(n).drop_last()) == 0);
        assert(decimal(n).last() == digit_char(n));
        assert(digits_value(decimal(n)) == ((digit_char(n) as u32) - ('0' as u32)) as nat);
    } else {
        lemma_decimal_digits(n / 10);
        lemma_digit_char(n % 10);
        let d = decimal(n / 10);
        assert(decimal(n).drop_last() =~= d);
        assert(decimal(n).last() == digit_char(n % 10));
        assert((n / 10) * 10 + n % 10 == n) by (nonlinear_arith);
        assert(digits_value(decimal(n)) == digits_value(d) * 10 + ((digit_char(n % 10) as u32) - (
        '0' as u32)) as nat);
        assert(digits_value(decimal(n)) == n);
        assert forall|k: int| 0 <= k < decimal(n).len() implies is_digit(
            #[trigger] decimal(n)[k],
        ) by {
            if k < d.len() {
                assert(decimal(n)[k] == d[k]);
            }
        }
    }
}

/// A number written in decimal is read back as itself.
pub proof fn lemma_decimal_parses(n: nat)
    requires
        n <= u64::MAX,
    ensures
        parse_unsigned(decimal(n), u64::MAX as nat) == Some(n),
{
    lemma_decimal_digits(n);
    assert(decimal(n)[0] != '+') by {
        assert(is_digit(decimal(n)[0]));
    }
    assert(strip_plus(decimal(n)) == decimal(n));
}

/// A `#` reference that was read, rendered, is read back as the same reference.
pub proof fn lemma_issue_ref_round_trip(value: Seq<char>)
    requires
        issue_ref_parse(value) is Ok,
    ensures
        issue_ref_parse(issue_ref_text(issue_ref_parse(value)->Ok_0)) == issue_ref_parse(value),
{
    lemma_forge_ref_prefix_parts(value);
    let (f, after) = forge_ref_prefix(value)->Ok_0;
    let r = issue_ref_parse(value)->Ok_0;
    let tail = seq!['#'] + decimal(r.number as nat);
    lemma_forge_ref_prefix_of_text(f, tail);
    assert(issue_ref_text(r) =~= forge_ref_text(f) + tail);
    lemma_decimal_parses(r.number as nat);
    assert(tail.drop_first() =~= decimal(r.number as nat));
}

/// Each operation name is read as its operation, and holds no `=`.
pub proof fn lemma_kind_name(kind: OpKind)
    ensures
        op_kind_of(kind_name(kind)) == Some(kind),
        forall|k: int| 0 <= k < kind_name(kind).len() ==> kind_name(kind)[k] != '=',
{
    reveal_strlit("pr_merged");
    reveal_strlit("pr_closed");
    reveal_strlit("tag_exists");
    reveal_strlit("commit_released");
    reveal_strlit("pr_released");
    reveal_strlit("issue_closed");
    reveal_strlit("branch_deleted");
    reveal_strlit("date_passed");
    reveal_strlit("nixpkg_version");
    match kind {
        OpKind::PrMerged => {
            assert(op_kind_of(kind_name(kind)) == Some(kind));
        },
        OpKind::PrClosed => {
            assert("pr_closed"@[3] != "pr_merged"@[3]);
            assert(op_kind_of(kind_name(kind)) == Some(kind));
        },
        OpKind::TagExists => {
            assert("tag_exists"@[0] != "pr_merged"@[0]);
            assert("tag_exists"@[0] != "pr_closed"@[0]);
            assert(op_kind_of(kind_name(kind)) == Some(kind));
        },
        OpKind::CommitReleased => {
            assert("commit_released"@[0] != "pr_merged"@[0]);
            assert("commit_released"@[0] != "pr_closed"@[0]);
            assert("commit_released"@[0] != "tag_exists"@[0]);
            assert(op_kind_of(kind_name(kind)) == Some(kind));
        },
        OpKind::PrReleased => {
            assert("pr_released"@[3] != "pr_merged"@[3]);
            assert("pr_released"@[3] != "pr_closed"@[3]);
            assert("pr_released"@[0] != "tag_exists"@[0]);
            assert("pr_released"@[0] != "commit_released"@[0]);
            assert(op_kind_of(kind_name(kind)) == Some(kind));
        },
        OpKind::IssueClosed => {
            assert("issue_closed"@[0] != "pr_merged"@[0]);
            assert("issue_closed"@[0] != "pr_closed"@[0]);
            assert("issue_closed"@[0] != "tag_exists"@[0]);
            assert("issue_closed"@[0] != "commit_released"@[0]);
            assert("issue_closed"@[0] != "pr_released"@[0]);
            assert(op_kind_of(kind_name(kind)) == Some(kind));
        },
        OpKind::BranchDeleted => {
            assert("branch_deleted"@[0] != "pr_merged"@[0]);
            assert("branch_deleted"@[0] != "pr_closed"@[0]);
            assert("branch_deleted"@[0] != "tag_exists"@[0]);
            assert("branch_deleted"@[0] != "commit_released"@[0]);
            assert("branch_deleted"@[0] != "pr_released"@[0]);
            assert("branch_deleted"@[0] != "issue_closed"@[0]);
            assert(op_kind_of(kind_name(kind)) == Some(kind));
        },
        OpKind::DatePassed => {
            assert("date_passed"@[0] != "pr_merged"@[0]);
            assert("date_passed"@[0] != "pr_closed"@[0]);
            assert("date_passed"@[0] != "tag_exists"@[0]);
            assert("date_passed"@[0] != "commit_released"@[0]);
            assert("date_passed"@[0] != "pr_released"@[0]);
            assert("date_passed"@[0] != "issue_closed"@[0]);
            assert("date_passed"@[0] != "branch_deleted"@[0]);
            assert(op_kind_of(kind_name(kind)) == Some(kind));
        },
        OpKind::NixpkgVersion => {
            assert("nixpkg_version"@[0] != "pr_merged"@[0]);
            assert("nixpkg_version"@[0] != "pr_closed"@[0]);
            assert("nixpkg_version"@[0] != "tag_exists"@[0]);
            assert("nixpkg_version"@[0] != "commit_released"@[0]);
            assert("nixpkg_version"@[0] != "pr_released"@[0]);
            assert("nixpkg_version"@[0] != "issue_closed"@[0]);
            assert("nixpkg_version"@[0] != "branch_deleted"@[0]);
            assert("nixpkg_version"@[0] != "date_passed"@[0]);
            assert(op_kind_of(kind_name(kind)) == Some(kind));
        },
    }
}

/// Two characters that are the same up to the case of an ASCII letter.
pub open spec fn same_up_to_case(c: char, d: char) -> bool {
    ||| c == d
    ||| ('A' as u32 <= c as u32 <= 'Z' as u32 && c as u32 + 32 == d as u32)
    ||| ('A' as u32 <= d as u32 <= 'Z' as u32 && d as u32 + 32 == c as u32)
}

proof fn lemma_marker_char_case(c: char, d: char, k: int)
    requires
        0 <= k < 13,
        same_up_to_case(c, d),
    ensures
        marker_char_matches(c, marker()[k]) == marker_char_matches(d, marker()[k]),
{
}

proof fn lemma_marker_from_case(s: Seq<char>, t: Seq<char>, i: int)
    requires
        s.len() == t.len(),
        forall|k: int| 0 <= k < s.len() ==> same_up_to_case(s[k], t[k]),
    ensures
        find_marker_from(s, i) == find_marker_from(t, i),
    decreases s.len() - i,
{
    if 0 <= i && i + 13 <= s.len() {
        assert forall|k: int| 0 <= k < 13 implies marker_char_matches(#[trigger] s[i + k], marker()[k])
            == marker_char_matches(t[i + k], marker()[k]) by {
            lemma_marker_char_case(s[i + k], t[i + k], k);
        }
        if marker_at(s, i) {
            assert(marker_at(t, i));
        } else {
            assert(!marker_at(t, i));
            lemma_marker_from_case(s, t, i + 1);
        }
    }
}

/// The marker is case-insensitive: whether and where a line holds it does not
/// change when letters change case.
pub proof fn lemma_marker_ignores_case(s: Seq<char>, t: Seq<char>)
    requires
        s.len() == t.len(),
        forall|k: int| 0 <= k < s.len() ==> same_up_to_case(s[k], t[k]),
    ensures
        find_marker(s) == find_marker(t),
{
    lemma_marker_from_case(s, t, 0);
}

} // verus!
