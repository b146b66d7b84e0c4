//! Version constraints on tag names, through the `versions` crate.
use vstd::prelude::*;

use versions::{Requirement, Versioning};

use crate::dates::digit_run;
use crate::text::{chars_of, copy_range, is_digit, matches_at, starts_with, trim, trim_bounds};

verus! {

/// A parsed version (`versions::Versioning`), carried through unread.
#[verifier::external_type_specification]
#[verifier::external_body]
pub struct ExVersioning(Versioning);

/// A parsed version requirement (`versions::Requirement`), carried through unread.
#[verifier::external_type_specification]
#[verifier::external_body]
pub struct ExRequirement(Requirement);

/// Which of the three tiers a version parsed as.
#[derive(Debug, Clone, Copy, PartialEq, Eq, Structural)]
pub enum VersionKind {
    /// Strict semantic version.
    Ideal,
    /// Numeric segments, more permissive.
    General,
    /// Anything else.
    Complex,
}

/// The order of two versions.
#[derive(Debug, Clone, Copy, PartialEq, Eq, Structural)]
pub enum VersionOrder {
    Less,
    Equal,
    Greater,
}

/// A version together with the text it was parsed from; its view is that text.
pub struct Version {
    inner: Versioning,
    text: Ghost<Seq<char>>,
}

impl View for Version {
    type V = Seq<char>;

    closed spec fn view(&self) -> Seq<char> {
        self.text@
    }
}

/// A version requirement together with the text it was parsed from; its view
/// is that text.
struct VersionRequirement {
    inner: Requirement,
    text: Ghost<Seq<char>>,
}

impl View for VersionRequirement {
    type V = Seq<char>;

    closed spec fn view(&self) -> Seq<char> {
        self.text@
    }
}

/// Whether `Versioning::new` accepts a text.
pub uninterp spec fn version_parses(s: Seq<char>) -> bool;

/// The tier of the version that a text parses as.
pub uninterp spec fn version_kind(s: Seq<char>) -> VersionKind;

/// Whether the strict semantic version that a text parses as has a
/// pre-release part (`pre_rel`).
pub uninterp spec fn semver_pre_release(s: Seq<char>) -> bool;

/// The `Display` text of the general-tier version that a text parses as.
pub uninterp spec fn general_text(s: Seq<char>) -> Seq<char>;

/// Whether `Requirement::new` accepts a text.
pub uninterp spec fn requirement_parses(c: Seq<char>) -> bool;

/// The tier of the version (the `version` field) of the requirement that a
/// text parses as, if it holds one.
pub uninterp spec fn requirement_version_kind(c: Seq<char>) -> Option<VersionKind>;

/// What `Requirement::matches` answers for the requirement parsed from `c` and
/// the version parsed from `s`.
pub uninterp spec fn requirement_accepts(c: Seq<char>, s: Seq<char>) -> bool;

/// What `Ord::cmp` answers for the versions parsed from two texts.
pub uninterp spec fn version_order(a: Seq<char>, b: Seq<char>) -> VersionOrder;

/// What `==` answers for the versions parsed from two texts.
pub uninterp spec fn version_equal(a: Seq<char>, b: Seq<char>) -> bool;

/// `Versioning::new`; claims that it succeeds exactly when `version_parses`
/// holds of the text, and keeps the text as the version's view.
#[verifier::external_body]
fn parse_versioning(s: &str) -> (r: Option<Version>)
    ensures
        r is Some <==> version_parses(s@),
        r matches Some(v) ==> v@ == s@,
{
    match Versioning::new(s) {
        Some(inner) => Some(Version { inner, text: Ghost(s@) }),
        None => None,
    }
}

/// `Requirement::new`; claims that it succeeds exactly when
/// `requirement_parses` holds of the text, and keeps the text as the view.
#[verifier::external_body]
fn parse_requirement(s: &str) -> (r: Option<VersionRequirement>)
    ensures
        r is Some <==> requirement_parses(s@),
        r matches Some(q) ==> q@ == s@,
{
    match Requirement::new(s) {
        Some(inner) => Some(VersionRequirement { inner, text: Ghost(s@) }),
        None => None,
    }
}

/// Reads the variant of a requirement's `version` field; claims that the
/// answer is `requirement_version_kind` of the requirement's text.
#[verifier::external_body]
fn requirement_kind(r: &VersionRequirement) -> (k: Option<VersionKind>)
    ensures
        k == requirement_version_kind(r@),
{
    match &r.inner.version {
        None => None,
        Some(Versioning::Ideal(_)) => Some(VersionKind::Ideal),
        Some(Versioning::General(_)) => Some(VersionKind::General),
        Some(Versioning::Complex(_)) => Some(VersionKind::Complex),
    }
}

/// Reads the variant of a version; claims that the answer is `version_kind`
/// of its text.
#[verifier::external_body]
fn kind_of(v: &Version) -> (k: VersionKind)
    ensures
        k == version_kind(v@),
{
    match &v.inner {
        Versioning::Ideal(_) => VersionKind::Ideal,
        Versioning::General(_) => VersionKind::General,
        Versioning::Complex(_) => VersionKind::Complex,
    }
}

/// Reads whether a strict semantic version's `pre_rel` is set; claims that the
/// answer is `semver_pre_release` of its text.
#[verifier::external_body]
fn semver_has_pre_release(v: &Version) -> (b: bool)
    requires
        version_kind(v@) == VersionKind::Ideal,
    ensures
        b == semver_pre_release(v@),
{
    match &v.inner {
        Versioning::Ideal(s) => s.pre_rel.is_some(),
        _ => false,
    }
}

/// The `Display` text of a general-tier version (`Version::to_string`);
/// claims that it is `general_text` of the version's text.
#[verifier::external_body]
fn general_display(v: &Version) -> (s: String)
    requires
        version_kind(v@) == VersionKind::General,
    ensures
        s@ == general_text(v@),
{
    match &v.inner {
        Versioning::General(g) => g.to_string(),
        _ => String::new(),
    }
}

/// `Requirement::matches`; claims that the answer is `requirement_accepts` of
/// the two texts.
#[verifier::external_body]
fn requirement_matches(r: &VersionRequirement, v: &Version) -> (b: bool)
    ensures
        b == requirement_accepts(r@, v@),
{
    r.inner.matches(&v.inner)
}

/// `Ord::cmp` on versions; claims that the answer is `version_order` of the
/// two texts.
#[verifier::external_body]
fn compare_versions(a: &Version, b: &Version) -> (o: VersionOrder)
    ensures
        o == version_order(a@, b@),
{
    match a.inner.cmp(&b.inner) {
        std::cmp::Ordering::Less => VersionOrder::Less,
        std::cmp::Ordering::Equal => VersionOrder::Equal,
        std::cmp::Ordering::Greater => VersionOrder::Greater,
    }
}

/// `==` on versions; claims that the answer is `version_equal` of the two
/// texts.
#[verifier::external_body]
fn versions_equal(a: &Version, b: &Version) -> (e: bool)
    ensures
        e == version_equal(a@, b@),
{
    a.inner == b.inner
}

// ---------------------------------------------------------------------------
// Specification
// ---------------------------------------------------------------------------

/// A tag name without one leading `v` or `V`.
pub open spec fn strip_v(s: Seq<char>) -> Seq<char> {
    if s.len() > 0 && (s[0] == 'v' || s[0] == 'V') {
        s.drop_first()
    } else {
        s
    }
}

/// Index of the first ASCII digit of `s`, or its length.
pub open spec fn first_digit(s: Seq<char>) -> nat
    decreases s.len(),
{
    if s.len() == 0 || is_digit(s[0]) {
        0
    } else {
        1 + first_digit(s.drop_first())
    }
}

/// Whether the constraint explicitly targets pre-releases: a `-` follows its
/// first ASCII digit.
pub open spec fn targets_prerelease(c: Seq<char>) -> bool {
    exists|i: int| first_digit(c) <= i < c.len() && c[i] == '-'
}

/// Whether `p` occurs in `s`.
pub open spec fn contains_text(s: Seq<char>, p: Seq<char>) -> bool {
    exists|i: int| 0 <= i <= s.len() && starts_with(#[trigger] s.skip(i), p)
}

/// Whether the version parsed from `s` looks like a pre-release: a semantic
/// version with a pre-release part, or a general version whose text holds
/// `-alpha`, `-beta`, `-rc`, `-dev` or `-pre`.
pub open spec fn is_prerelease_version(s: Seq<char>) -> bool {
    match version_kind(s) {
        VersionKind::Ideal => semver_pre_release(s),
        VersionKind::General => {
            let t = general_text(s);
            contains_text(t, "-alpha"@) || contains_text(t, "-beta"@) || contains_text(t, "-rc"@)
                || contains_text(t, "-dev"@) || contains_text(t, "-pre"@)
        },
        VersionKind::Complex => false,
    }
}

/// Whether a tag satisfies the standard requirement parsed from `c`.
pub open spec fn tag_meets_requirement(c: Seq<char>, tag: Seq<char>) -> bool {
    let s = strip_v(tag);
    &&& version_parses(s)
    &&& !(is_prerelease_version(s) && !targets_prerelease(c))
    &&& requirement_accepts(c, s)
}

/// Index of the first tag that satisfies the standard requirement parsed from `c`.
pub open spec fn first_requirement_match(c: Seq<char>, tags: Seq<Seq<char>>) -> Option<int>
    decreases tags.len(),
{
    if tags.len() == 0 {
        None
    } else {
        match first_requirement_match(c, tags.drop_last()) {
            Some(i) => Some(i),
            None => if tag_meets_requirement(c, tags.last()) {
                Some(tags.len() - 1)
            } else {
                None
            },
        }
    }
}

/// The comparison operators of a hand-parsed constraint.
#[derive(Debug, Clone, Copy, PartialEq, Eq, Structural)]
pub enum ManualOp {
    Ge,
    Gt,
    Le,
    Lt,
    Eq,
    Caret,
    Tilde,
}

/// The operator and version text of a constraint, read by hand.
pub open spec fn manual_constraint(c: Seq<char>) -> Option<(ManualOp, Seq<char>)> {
    let t = trim(c);
    if starts_with(t, seq!['>', '=']) {
        Some((ManualOp::Ge, t.skip(2)))
    } else if starts_with(t, seq!['<', '=']) {
        Some((ManualOp::Le, t.skip(2)))
    } else if starts_with(t, seq!['>']) {
        Some((ManualOp::Gt, t.skip(1)))
    } else if starts_with(t, seq!['<']) {
        Some((ManualOp::Lt, t.skip(1)))
    } else if starts_with(t, seq!['=']) {
        Some((ManualOp::Eq, t.skip(1)))
    } else if starts_with(t, seq!['^']) {
        Some((ManualOp::Caret, t.skip(1)))
    } else if starts_with(t, seq!['~']) {
        Some((ManualOp::Tilde, t.skip(1)))
    } else {
        None
    }
}

/// A run of digits without its leading zeros (a zero component is empty).
pub open spec fn strip_zeros(d: Seq<char>) -> Seq<char>
    decreases d.len(),
{
    if d.len() > 0 && d[0] == '0' {
        strip_zeros(d.drop_first())
    } else {
        d
    }
}

/// The leading numeric components of a version text (`2.5.1-rc` has `2`,
/// `5` and `1`), each as its digits without leading zeros.
pub open spec fn components(s: Seq<char>) -> Seq<Seq<char>>
    decreases s.len(),
{
    let n = digit_run(s);
    if n == 0 {
        seq![]
    } else if n < s.len() && s[n as int] == '.' {
        seq![strip_zeros(s.take(n as int))] + components(s.skip(n as int + 1))
    } else {
        seq![strip_zeros(s.take(n as int))]
    }
}

/// Component `i`, zero (empty) where there is none.
pub open spec fn comp_at(c: Seq<Seq<char>>, i: int) -> Seq<char> {
    if 0 <= i < c.len() {
        c[i]
    } else {
        seq![]
    }
}

/// The index of the first non-zero component, or the number of components.
pub open spec fn first_nonzero(c: Seq<Seq<char>>) -> nat
    decreases c.len(),
{
    if c.len() == 0 || c[0].len() > 0 {
        0
    } else {
        1 + first_nonzero(c.drop_first())
    }
}

/// How many leading components a `^` constraint fixes: up to and including
/// its first non-zero one (all of them where every one is zero).
pub open spec fn caret_len(c: Seq<Seq<char>>) -> int {
    if first_nonzero(c) < c.len() {
        first_nonzero(c) as int + 1
    } else {
        c.len() as int
    }
}

/// How many leading components a `~` constraint fixes: major and minor (the
/// major alone where only it is given).
pub open spec fn tilde_len(c: Seq<Seq<char>>) -> int {
    if c.len() < 2 {
        c.len() as int
    } else {
        2
    }
}

/// Whether the first `p` components of `t` are those of `c`.
pub open spec fn agrees(t: Seq<Seq<char>>, c: Seq<Seq<char>>, p: int) -> bool {
    forall|i: int| 0 <= i < p ==> comp_at(t, i) == c[i]
}

/// Whether the version parsed from `t` stands in relation `op` to the one
/// parsed from `cv`. `^` accepts versions at or above `cv` with the same
/// components up to its first non-zero one; `~` those at or above `cv` with
/// the same major and minor.
pub open spec fn manual_accepts(op: ManualOp, t: Seq<char>, cv: Seq<char>) -> bool {
    match op {
        ManualOp::Ge => version_order(t, cv) != VersionOrder::Less,
        ManualOp::Gt => version_order(t, cv) == VersionOrder::Greater,
        ManualOp::Le => version_order(t, cv) != VersionOrder::Greater,
        ManualOp::Lt => version_order(t, cv) == VersionOrder::Less,
        ManualOp::Eq => version_equal(t, cv),
        ManualOp::Caret => version_order(t, cv) != VersionOrder::Less && agrees(
            components(t),
            components(cv),
            caret_len(components(cv)),
        ),
        ManualOp::Tilde => version_order(t, cv) != VersionOrder::Less && agrees(
            components(t),
            components(cv),
            tilde_len(components(cv)),
        ),
    }
}

/// Whether a tag satisfies a hand-parsed constraint (pre-releases never do).
pub open spec fn tag_meets_manual(op: ManualOp, cv: Seq<char>, tag: Seq<char>) -> bool {
    let s = strip_v(tag);
    &&& version_parses(s)
    &&& !is_prerelease_version(s)
    &&& manual_accepts(op, s, cv)
}

/// Index of the first tag that satisfies a hand-parsed constraint.
pub open spec fn first_manual_match(op: ManualOp, cv: Seq<char>, tags: Seq<Seq<char>>) -> Option<
    int,
>
    decreases tags.len(),
{
    if tags.len() == 0 {
        None
    } else {
        match first_manual_match(op, cv, tags.drop_last()) {
            Some(i) => Some(i),
            None => if tag_meets_manual(op, cv, tags.last()) {
                Some(tags.len() - 1)
            } else {
                None
            },
        }
    }
}

/// Whether the constraint is read as a standard requirement: it parses as one
/// whose version, if any, is a strict semantic version.
pub open spec fn uses_requirement(c: Seq<char>) -> bool {
    requirement_parses(c) && match requirement_version_kind(c) {
        Some(k) => k == VersionKind::Ideal,
        None => true,
    }
}

/// Index of the first tag that satisfies the constraint: a standard
/// requirement when the constraint is one with a strict semantic version (or
/// none); otherwise an operator and a version read by hand.
pub open spec fn constraint_match(c: Seq<char>, tags: Seq<Seq<char>>) -> Option<int> {
    if uses_requirement(c) {
        first_requirement_match(c, tags)
    } else {
        match manual_constraint(c) {
            Some((op, vs)) => if version_parses(vs) {
                first_manual_match(op, vs, tags)
            } else {
                None
            },
            None => None,
        }
    }
}

pub open spec fn tag_views(tags: Seq<String>) -> Seq<Seq<char>> {
    tags.map_values(|t: String| t@)
}

proof fn lemma_first_match_bounds_req(c: Seq<char>, tags: Seq<Seq<char>>)
    ensures
        first_requirement_match(c, tags) matches Some(i) ==> 0 <= i < tags.len(),
    decreases tags.len(),
{
    if tags.len() > 0 {
        lemma_first_match_bounds_req(c, tags.drop_last());
    }
}

proof fn lemma_first_match_bounds_manual(op: ManualOp, cv: Seq<char>, tags: Seq<Seq<char>>)
    ensures
        first_manual_match(op, cv, tags) matches Some(i) ==> 0 <= i < tags.len(),
    decreases tags.len(),
{
    if tags.len() > 0 {
        lemma_first_match_bounds_manual(op, cv, tags.drop_last());
    }
}

// ---------------------------------------------------------------------------
// Implementation
// ---------------------------------------------------------------------------

impl Version {
    /// Parses a version (`Versioning::new`); `None` where the text is no version.
    pub fn parse(s: &str) -> (r: Option<Version>)
        ensures
            r is Some <==> version_parses(s@),
            r matches Some(v) ==> v@ == s@,
    {
        parse_versioning(s)
    }
}

/// Strip v/V prefix from a tag name.
pub fn strip_version_prefix(tag: &str) -> (r: &str)
    ensures
        r@ == strip_v(tag@),
{
    let n = tag.unicode_len();
    if n > 0 {
        let c = tag.get_char(0);
        if c == 'v' || c == 'V' {
            let r = tag.substring_char(1, n);
            proof {
                assert(r@ =~= tag@.drop_first());
            }
            return r;
        }
    }
    tag
}

/// Check if the constraint string explicitly targets pre-release versions.
pub fn constraint_targets_prerelease(constraint: &str) -> (b: bool)
    ensures
        b == targets_prerelease(constraint@),
{
    let v = chars_of(constraint);
    let mut i: usize = 0;
    proof {
        assert(v@.skip(0) =~= v@);
    }
    while i < v.len() && !(v[i] as u32 >= '0' as u32 && v[i] as u32 <= '9' as u32)
        invariant
            v@ == constraint@,
            0 <= i <= v@.len(),
            first_digit(v@) == i + first_digit(v@.skip(i as int)),
        decreases v@.len() - i,
    {
        proof {
            assert(v@.skip(i as int).drop_first() =~= v@.skip(i + 1));
        }
        i = i + 1;
    }
    proof {
        assert(first_digit(v@.skip(i as int)) == 0);
    }
    let mut j = i;
    while j < v.len()
        invariant
            v@ == constraint@,
            first_digit(v@) == i,
            i <= j <= v@.len(),
            forall|k: int| i <= k < j ==> v@[k] != '-',
        decreases v@.len() - j,
    {
        if v[j] == '-' {
            return true;
        }
        j = j + 1;
    }
    false
}

/// Whether `p` occurs in `v`.
fn contains_str(v: &Vec<char>, p: &str) -> (b: bool)
    ensures
        b == contains_text(v@, p@),
{
    let mut i: usize = 0;
    loop
        invariant
            0 <= i <= v@.len(),
            forall|k: int| 0 <= k < i ==> !starts_with(#[trigger] v@.skip(k), p@),
        decreases v@.len() - i,
    {
        if matches_at(v, i, p) {
            return true;
        }
        if i == v.len() {
            return false;
        }
        i = i + 1;
    }
}

/// Check if a version looks like a pre-release.
pub fn is_prerelease(v: &Version) -> (b: bool)
    ensures
        b == is_prerelease_version(v@),
{
    match kind_of(v) {
        VersionKind::Ideal => semver_has_pre_release(v),
        VersionKind::General => {
            let text = general_display(v);
            let t = chars_of(text.as_str());
            contains_str(&t, "-alpha") || contains_str(&t, "-beta") || contains_str(&t, "-rc")
                || contains_str(&t, "-dev") || contains_str(&t, "-pre")
        },
        VersionKind::Complex => false,
    }
}

/// Check tags using the standard Requirement type.
fn check_with_requirement(req: &VersionRequirement, constraint: &str, tags: &[String]) -> (r:
    Option<String>)
    requires
        req@ == constraint@,
    ensures
        match first_requirement_match(constraint@, tag_views(tags@)) {
            Some(i) => r matches Some(t) && t@ == tags@[i]@,
            None => r is None,
        },
{
    let ghost tv = tag_views(tags@);
    let targets = constraint_targets_prerelease(constraint);
    let mut i: usize = 0;
    while i < tags.len()
        invariant
            req@ == constraint@,
            tv == tag_views(tags@),
            targets == targets_prerelease(constraint@),
            0 <= i <= tags@.len(),
            first_requirement_match(constraint@, tv.take(i as int)) is None,
        decreases tags@.len() - i,
    {
        proof {
            assert(tv.take(i + 1).drop_last() =~= tv.take(i as int));
            assert(tv.take(i + 1).last() == tags@[i as int]@);
        }
        let stripped = strip_version_prefix(tags[i].as_str());
        match parse_versioning(stripped) {
            Some(v) => {
                if !(is_prerelease(&v) && !targets) && requirement_matches(req, &v) {
                    proof {
                        assert(first_requirement_match(constraint@, tv.take(i + 1)) == Some(
                            i as int,
                        ));
                        lemma_first_match_prefix_req(constraint@, tv, i + 1);
                    }
                    return Some(tags[i].clone());
                }
            },
            None => {},
        }
        i = i + 1;
    }
    proof {
        assert(tv.take(tags@.len() as int) =~= tv);
    }
    None
}

proof fn lemma_first_match_prefix_req(c: Seq<char>, tags: Seq<Seq<char>>, n: int)
    requires
        0 <= n <= tags.len(),
        first_requirement_match(c, tags.take(n)) is Some,
    ensures
        first_requirement_match(c, tags) == first_requirement_match(c, tags.take(n)),
    decreases tags.len() - n,
{
    if n < tags.len() {
        assert(tags.take(n + 1).drop_last() =~= tags.take(n));
        lemma_first_match_prefix_req(c, tags, n + 1);
    } else {
        assert(tags.take(n) =~= tags);
    }
}

proof fn lemma_first_match_prefix_manual(op: ManualOp, cv: Seq<char>, tags: Seq<Seq<char>>, n: int)
    requires
        0 <= n <= tags.len(),
        first_manual_match(op, cv, tags.take(n)) is Some,
    ensures
        first_manual_match(op, cv, tags) == first_manual_match(op, cv, tags.take(n)),
    decreases tags.len() - n,
{
    if n < tags.len() {
        assert(tags.take(n + 1).drop_last() =~= tags.take(n));
        lemma_first_match_prefix_manual(op, cv, tags, n + 1);
    } else {
        assert(tags.take(n) =~= tags);
    }
}

pub open spec fn comp_views(c: Seq<Vec<char>>) -> Seq<Seq<char>> {
    c.map_values(|x: Vec<char>| x@)
}

proof fn lemma_digit_run_step(s: Seq<char>, i: int)
    requires
        0 <= i < s.len(),
        is_digit(s[i]),
    ensures
        digit_run(s.skip(i)) == 1 + digit_run(s.skip(i + 1)),
{
    assert(s.skip(i).drop_first() =~= s.skip(i + 1));
}

proof fn lemma_digit_run_take(s: Seq<char>, n: nat)
    requires
        n == digit_run(s),
    ensures
        n <= s.len(),
        forall|k: int| 0 <= k < n ==> is_digit(#[trigger] s[k]),
        n < s.len() ==> !is_digit(s[n as int]),
    decreases s.len(),
{
    if n > 0 {
        lemma_digit_run_take(s.drop_first(), (n - 1) as nat);
        assert forall|k: int| 0 <= k < n implies is_digit(#[trigger] s[k]) by {
            if k > 0 {
                assert(s[k] == s.drop_first()[k - 1]);
            }
        }
    }
}

/// The digits `v[from..to]` without their leading zeros.
fn strip_zeros_of(v: &Vec<char>, from: usize, to: usize) -> (r: Vec<char>)
    requires
        from <= to <= v@.len(),
    ensures
        r@ == strip_zeros(v@.subrange(from as int, to as int)),
{
    let mut k = from;
    while k < to && v[k] == '0'
        invariant
            from <= k <= to <= v@.len(),
            strip_zeros(v@.subrange(from as int, to as int)) == strip_zeros(
                v@.subrange(k as int, to as int),
            ),
        decreases to - k,
    {
        proof {
            assert(v@.subrange(k as int, to as int).drop_first() =~= v@.subrange(k + 1, to as int));
        }
        k = k + 1;
    }
    copy_range(v, k, to)
}

/// The leading numeric components of a version text (see `components`).
fn components_of(s: &str) -> (r: Vec<Vec<char>>)
    ensures
        comp_views(r@) == components(s@),
{
    let v = chars_of(s);
    let mut out: Vec<Vec<char>> = Vec::new();
    let mut i: usize = 0;
    proof {
        assert(v@.skip(0) =~= v@);
        assert(comp_views(out@) =~= Seq::<Seq<char>>::empty());
    }
    loop
        invariant
            v@ == s@,
            0 <= i <= v@.len(),
            comp_views(out@) + components(v@.skip(i as int)) == components(s@),
        decreases v@.len() - i,
    {
        let mut j = i;
        while j < v.len() && '0' as u32 <= v[j] as u32 && v[j] as u32 <= '9' as u32
            invariant
                i <= j <= v@.len(),
                digit_run(v@.skip(i as int)) == (j - i) + digit_run(v@.skip(j as int)),
            decreases v@.len() - j,
        {
            proof {
                lemma_digit_run_step(v@, j as int);
            }
            j = j + 1;
        }
        proof {
            if j < v@.len() {
                assert(v@.skip(j as int)[0] == v@[j as int]);
            }
            assert(digit_run(v@.skip(j as int)) == 0);
        }
        let ghost rest = v@.skip(i as int);
        let ghost n = (j - i) as nat;
        if j == i {
            proof {
                assert(components(rest) =~= Seq::<Seq<char>>::empty());
                assert(comp_views(out@) + components(rest) =~= comp_views(out@));
            }
            return out;
        }
        let comp = strip_zeros_of(&v, i, j);
        proof {
            assert(rest.take(n as int) =~= v@.subrange(i as int, j as int));
        }
        let ghost before = comp_views(out@);
        out.push(comp);
        proof {
            assert(comp_views(out@) =~= before.push(strip_zeros(rest.take(n as int))));
        }
        if j < v.len() && v[j] == '.' {
            proof {
                assert(rest[n as int] == v@[j as int]);
                assert(rest.skip(n as int + 1) =~= v@.skip(j + 1));
                assert(components(rest) == seq![strip_zeros(rest.take(n as int))] + components(
                    v@.skip(j + 1),
                ));
                assert(comp_views(out@) + components(v@.skip(j + 1)) =~= before + components(
                    rest,
                ));
            }
            i = j + 1;
        } else {
            proof {
                if n < rest.len() {
                    assert(rest[n as int] == v@[j as int]);
                }
                assert(components(rest) == seq![strip_zeros(rest.take(n as int))]);
                assert(comp_views(out@) =~= before + components(rest));
            }
            return out;
        }
    }
}

fn same_chars(a: &Vec<char>, b: &Vec<char>) -> (r: bool)
    ensures
        r == (a@ == b@),
{
    if a.len() != b.len() {
        return false;
    }
    let mut i: usize = 0;
    while i < a.len()
        invariant
            a@.len() == b@.len(),
            0 <= i <= a@.len(),
            forall|k: int| 0 <= k < i ==> a@[k] == b@[k],
        decreases a@.len() - i,
    {
        if a[i] != b[i] {
            return false;
        }
        i = i + 1;
    }
    proof {
        assert(a@ =~= b@);
    }
    true
}

/// How many leading components of `c` a `^` constraint fixes (see `caret_len`).
fn caret_prefix(c: &Vec<Vec<char>>) -> (n: usize)
    ensures
        n == caret_len(comp_views(c@)),
{
    let ghost cv = comp_views(c@);
    let mut i: usize = 0;
    proof {
        assert(cv.skip(0) =~= cv);
    }
    while i < c.len() && c[i].len() == 0
        invariant
            0 <= i <= c@.len(),
            cv == comp_views(c@),
            first_nonzero(cv) == i + first_nonzero(cv.skip(i as int)),
        decreases c@.len() - i,
    {
        proof {
            assert(cv.skip(i as int)[0] == cv[i as int]);
            assert(cv.skip(i as int).drop_first() =~= cv.skip(i + 1));
        }
        i = i + 1;
    }
    proof {
        if i < c@.len() {
            assert(cv.skip(i as int)[0] == cv[i as int]);
        }
        assert(first_nonzero(cv.skip(i as int)) == 0);
    }
    if i < c.len() {
        i + 1
    } else {
        c.len()
    }
}

/// Whether the first `n` components of `t` are those of `c`.
fn prefix_agrees(t: &Vec<Vec<char>>, c: &Vec<Vec<char>>, n: usize) -> (r: bool)
    requires
        n <= c@.len(),
    ensures
        r == agrees(comp_views(t@), comp_views(c@), n as int),
{
    let ghost tv = comp_views(t@);
    let ghost cv = comp_views(c@);
    let empty: Vec<char> = Vec::new();
    let mut i: usize = 0;
    while i < n
        invariant
            0 <= i <= n <= c@.len(),
            tv == comp_views(t@),
            cv == comp_views(c@),
            empty@ == Seq::<char>::empty(),
            forall|k: int| 0 <= k < i ==> comp_at(tv, k) == cv[k],
        decreases n - i,
    {
        let ti = if i < t.len() {
            &t[i]
        } else {
            &empty
        };
        proof {
            assert(ti@ == comp_at(tv, i as int));
            assert(c[i as int]@ == cv[i as int]);
        }
        if !same_chars(ti, &c[i]) {
            return false;
        }
        i = i + 1;
    }
    true
}

/// Parse a constraint string by hand: its operator and the text after it.
fn parse_constraint_manual(constraint: &str) -> (r: Option<(ManualOp, String)>)
    ensures
        match manual_constraint(constraint@) {
            Some((op, rest)) => r matches Some((o, s)) && o == op && s@ == rest,
            None => r is None,
        },
{
    let v = chars_of(constraint);
    let (lo, hi) = trim_bounds(&v, 0, v.len());
    let ghost t = v@.subrange(lo as int, hi as int);
    proof {
        assert(v@.subrange(0, v@.len() as int) =~= v@);
        reveal_strlit(">=");
        reveal_strlit("<=");
        reveal_strlit(">");
        reveal_strlit("<");
        reveal_strlit("=");
        reveal_strlit("^");
        reveal_strlit("~");
        assert(">="@ =~= seq!['>', '=']);
        assert("<="@ =~= seq!['<', '=']);
        assert(">"@ =~= seq!['>']);
        assert("<"@ =~= seq!['<']);
        assert("="@ =~= seq!['=']);
        assert("^"@ =~= seq!['^']);
        assert("~"@ =~= seq!['~']);
    }
    let (op, skip): (ManualOp, usize) = if crate::scanner::common::starts_in(&v, lo, hi, ">=") {
        (ManualOp::Ge, 2)
    } else if crate::scanner::common::starts_in(&v, lo, hi, "<=") {
        (ManualOp::Le, 2)
    } else if crate::scanner::common::starts_in(&v, lo, hi, ">") {
        (ManualOp::Gt, 1)
    } else if crate::scanner::common::starts_in(&v, lo, hi, "<") {
        (ManualOp::Lt, 1)
    } else if crate::scanner::common::starts_in(&v, lo, hi, "=") {
        (ManualOp::Eq, 1)
    } else if crate::scanner::common::starts_in(&v, lo, hi, "^") {
        (ManualOp::Caret, 1)
    } else if crate::scanner::common::starts_in(&v, lo, hi, "~") {
        (ManualOp::Tilde, 1)
    } else {
        return None;
    };
    let rest = crate::text::string_of(&v, lo + skip, hi);
    proof {
        assert(rest@ =~= t.skip(skip as int));
    }
    Some((op, rest))
}

/// Check tags using manual version comparison for non-standard version formats.
fn check_with_manual_comparison(op: ManualOp, ver_str: &str, tags: &[String]) -> (r: Option<
    String,
>)
    ensures
        if version_parses(ver_str@) {
            match first_manual_match(op, ver_str@, tag_views(tags@)) {
                Some(i) => r matches Some(t) && t@ == tags@[i]@,
                None => r is None,
            }
        } else {
            r is None
        },
{
    let constraint_ver = match parse_versioning(ver_str) {
        Some(cv) => cv,
        None => return None,
    };
    let ghost tv = tag_views(tags@);
    let ghost cs = ver_str@;
    let cc = components_of(ver_str);
    let mut i: usize = 0;
    while i < tags.len()
        invariant
            tv == tag_views(tags@),
            constraint_ver@ == cs,
            cs == ver_str@,
            version_parses(cs),
            comp_views(cc@) == components(cs),
            0 <= i <= tags@.len(),
            first_manual_match(op, cs, tv.take(i as int)) is None,
        decreases tags@.len() - i,
    {
        proof {
            assert(tv.take(i + 1).drop_last() =~= tv.take(i as int));
            assert(tv.take(i + 1).last() == tags@[i as int]@);
        }
        let stripped = strip_version_prefix(tags[i].as_str());
        match parse_versioning(stripped) {
            Some(tag_ver) => {
                if !is_prerelease(&tag_ver) {
                    let matches = match op {
                        ManualOp::Ge => compare_versions(&tag_ver, &constraint_ver)
                            != VersionOrder::Less,
                        ManualOp::Gt => compare_versions(&tag_ver, &constraint_ver)
                            == VersionOrder::Greater,
                        ManualOp::Le => compare_versions(&tag_ver, &constraint_ver)
                            != VersionOrder::Greater,
                        ManualOp::Lt => compare_versions(&tag_ver, &constraint_ver)
                            == VersionOrder::Less,
                        ManualOp::Eq => versions_equal(&tag_ver, &constraint_ver),
                        ManualOp::Caret => compare_versions(&tag_ver, &constraint_ver)
                            != VersionOrder::Less && {
                            let tc = components_of(stripped);
                            let n = caret_prefix(&cc);
                            prefix_agrees(&tc, &cc, n)
                        },
                        ManualOp::Tilde => compare_versions(&tag_ver, &constraint_ver)
                            != VersionOrder::Less && {
                            let tc = components_of(stripped);
                            let n = if cc.len() < 2 {
                                cc.len()
                            } else {
                                2
                            };
                            prefix_agrees(&tc, &cc, n)
                        },
                    };
                    if matches {
                        proof {
                            assert(first_manual_match(op, cs, tv.take(i + 1)) == Some(i as int));
                            lemma_first_match_prefix_manual(op, cs, tv, i + 1);
                        }
                        return Some(tags[i].clone());
                    }
                }
            },
            None => {},
        }
        i = i + 1;
    }
    proof {
        assert(tv.take(tags@.len() as int) =~= tv);
    }
    None
}

/// Check if any tag in the list satisfies the given version constraint.
///
/// Returns `Some(tag_name)` of the first matching tag, or `None` if no match.
pub fn check_version_constraint(constraint: &str, tags: &[String]) -> (r: Option<String>)
    ensures
        match constraint_match(constraint@, tag_views(tags@)) {
            Some(i) => r matches Some(t) && 0 <= i < tags@.len() && t@ == tags@[i]@,
            None => r is None,
        },
{
    proof {
        lemma_first_match_bounds_req(constraint@, tag_views(tags@));
    }
    if let Some(req) = parse_requirement(constraint) {
        let non_ideal = match requirement_kind(&req) {
            Some(k) => k != VersionKind::Ideal,
            None => false,
        };
        if !non_ideal {
            return check_with_requirement(&req, constraint, tags);
        }
    }
    match parse_constraint_manual(constraint) {
        Some((op, ver_str)) => {
            proof {
                lemma_first_match_bounds_manual(op, ver_str@, tag_views(tags@));
            }
            check_with_manual_comparison(op, ver_str.as_str(), tags)
        },
        None => None,
    }
}

proof fn lemma_requirement_match_first(c: Seq<char>, tags: Seq<Seq<char>>)
    ensures
        first_requirement_match(c, tags) matches Some(i) ==> 0 <= i < tags.len()
            && tag_meets_requirement(c, tags[i]) && forall|j: int|
            0 <= j < i ==> !tag_meets_requirement(c, #[trigger] tags[j]),
        first_requirement_match(c, tags) is None ==> forall|j: int|
            0 <= j < tags.len() ==> !tag_meets_requirement(c, #[trigger] tags[j]),
    decreases tags.len(),
{
    if tags.len() > 0 {
        let p = tags.drop_last();
        lemma_requirement_match_first(c, p);
        assert forall|j: int| 0 <= j < p.len() implies tags[j] == p[j] by {}
    }
}

proof fn lemma_manual_match_first(op: ManualOp, cv: Seq<char>, tags: Seq<Seq<char>>)
    ensures
        first_manual_match(op, cv, tags) matches Some(i) ==> 0 <= i < tags.len()
            && tag_meets_manual(op, cv, tags[i]) && forall|j: int|
            0 <= j < i ==> !tag_meets_manual(op, cv, #[trigger] tags[j]),
        first_manual_match(op, cv, tags) is None ==> forall|j: int|
            0 <= j < tags.len() ==> !tag_meets_manual(op, cv, #[trigger] tags[j]),
    decreases tags.len(),
{
    if tags.len() > 0 {
        let p = tags.drop_last();
        lemma_manual_match_first(op, cv, p);
        assert forall|j: int| 0 <= j < p.len() implies tags[j] == p[j] by {}
    }
}

/// Whether a tag meets a constraint (as `constraint_match` reads the constraint).
pub open spec fn tag_meets(c: Seq<char>, tag: Seq<char>) -> bool {
    if uses_requirement(c) {
        tag_meets_requirement(c, tag)
    } else {
        match manual_constraint(c) {
            Some((op, vs)) => version_parses(vs) && tag_meets_manual(op, vs, tag),
            None => false,
        }
    }
}

/// The tag a constraint reports is the first, in list order, that meets it;
/// it parses as a version, and unless the constraint targets a pre-release
/// that version is no pre-release. No tag meets a constraint that reports none.
pub proof fn lemma_constraint_match(c: Seq<char>, tags: Seq<Seq<char>>)
    ensures
        match constraint_match(c, tags) {
            Some(i) => {
                &&& 0 <= i < tags.len()
                &&& tag_meets(c, tags[i])
                &&& forall|j: int| 0 <= j < i ==> !tag_meets(c, #[trigger] tags[j])
                &&& version_parses(strip_v(tags[i]))
                &&& !targets_prerelease(c) ==> !is_prerelease_version(strip_v(tags[i]))
            },
            None => forall|j: int| 0 <= j < tags.len() ==> !tag_meets(c, #[trigger] tags[j]),
        },
{
    if uses_requirement(c) {
        lemma_requirement_match_first(c, tags);
    } else {
        match manual_constraint(c) {
            Some((op, vs)) => if version_parses(vs) {
                lemma_manual_match_first(op, vs, tags);
            },
            None => {},
        }
    }
}

/// A constraint read by hand (an operator and a version that the standard
/// requirement syntax does not take) accepts exactly the tags whose version
/// stands in the operator's relation to the constraint's version: `>=` no
/// lower, `>` higher, `<=` no higher, `<` lower, `=` equal, and `^`/`~` no
/// lower; pre-releases are never accepted. The tag reported is such a tag,
/// and no earlier tag is.
pub proof fn lemma_manual_constraint(c: Seq<char>, tags: Seq<Seq<char>>)
    requires
        !uses_requirement(c),
        manual_constraint(c) is Some,
        version_parses((manual_constraint(c)->0).1),
    ensures
        ({
            let op = (manual_constraint(c)->0).0;
            let cv = (manual_constraint(c)->0).1;
            &&& forall|t: Seq<char>|
                #[trigger] tag_meets(c, t) ==> {
                    let v = strip_v(t);
                    &&& version_parses(v)
                    &&& !is_prerelease_version(v)
                    &&& match op {
                        ManualOp::Ge => version_order(v, cv) != VersionOrder::Less,
                        ManualOp::Gt => version_order(v, cv) == VersionOrder::Greater,
                        ManualOp::Le => version_order(v, cv) != VersionOrder::Greater,
                        ManualOp::Lt => version_order(v, cv) == VersionOrder::Less,
                        ManualOp::Eq => version_equal(v, cv),
                        ManualOp::Caret => version_order(v, cv) != VersionOrder::Less,
                        ManualOp::Tilde => version_order(v, cv) != VersionOrder::Less,
                    }
                }
            &&& forall|t: Seq<char>|
                ({
                    let v = strip_v(t);
                    &&& version_parses(v)
                    &&& !is_prerelease_version(v)
                    &&& match op {
                        ManualOp::Ge => version_order(v, cv) != VersionOrder::Less,
                        ManualOp::Gt => version_order(v, cv) == VersionOrder::Greater,
                        ManualOp::Le => version_order(v, cv) != VersionOrder::Greater,
                        ManualOp::Lt => version_order(v, cv) == VersionOrder::Less,
                        ManualOp::Eq => version_equal(v, cv),
                        ManualOp::Caret => false,
                        ManualOp::Tilde => false,
                    }
                }) ==> #[trigger] tag_meets(c, t)
            &&& match constraint_match(c, tags) {
                Some(i) => 0 <= i < tags.len() && tag_meets(c, tags[i]) && forall|j: int|
                    0 <= j < i ==> !tag_meets(c, #[trigger] tags[j]),
                None => forall|j: int| 0 <= j < tags.len() ==> !tag_meets(c, #[trigger] tags[j]),
            }
        }),
{
    lemma_constraint_match(c, tags);
}

} // verus!
