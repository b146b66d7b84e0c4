//! Character-level helpers shared by the parsers and the report builders.
use vstd::prelude::*;

verus! {

broadcast use vstd::string::group_string_axioms;

/// Appends one character to a `String` (std's `String::push`).
#[verifier::external_body]
fn push_char(s: &mut String, c: char)
    ensures
        final(s)@ == old(s)@.push(c),
{
    s.push(c);
}

/// The characters of a string slice, in order.
pub fn chars_of(s: &str) -> (v: Vec<char>)
    ensures
        v@ == s@,
{
    let mut v: Vec<char> = Vec::new();
    for c in it: s.chars()
        invariant
            v@ == it.seq().take(it.index() as int),
            it.seq() == s@,
    {
        v.push(c);
    }
    v
}

/// A `String` holding the characters `v[from..to]`.
pub fn string_of(v: &Vec<char>, from: usize, to: usize) -> (s: String)
    requires
        from <= to <= v@.len(),
    ensures
        s@ == v@.subrange(from as int, to as int),
{
    let mut s = String::new();
    let mut i = from;
    while i < to
        invariant
            from <= i <= to <= v@.len(),
            s@ == v@.subrange(from as int, i as int),
        decreases to - i,
    {
        push_char(&mut s, v[i]);
        i = i + 1;
    }
    s
}

/// Appends a string slice.
pub fn push_str(s: &mut String, t: &str)
    ensures
        final(s)@ == old(s)@ + t@,
{
    s.append(t);
}

/// The ASCII digit for a value below ten.
pub open spec fn digit_char(d: nat) -> char {
    if d == 0 { '0' } else if d == 1 { '1' } else if d == 2 { '2' } else if d == 3 { '3' }
    else if d == 4 { '4' } else if d == 5 { '5' } else if d == 6 { '6' } else if d == 7 { '7' }
    else if d == 8 { '8' } else { '9' }
}

/// The decimal representation of a natural number, without leading zeros.
pub open spec fn decimal(n: nat) -> Seq<char>
    decreases n,
{
    if n < 10 {
        seq![digit_char(n)]
    } else {
        decimal(n / 10).push(digit_char(n % 10))
    }
}

fn digit(d: u64) -> (c: char)
    requires
        d < 10,
    ensures
        c == digit_char(d as nat),
{
    if d == 0 { '0' } else if d == 1 { '1' } else if d == 2 { '2' } else if d == 3 { '3' }
    else if d == 4 { '4' } else if d == 5 { '5' } else if d == 6 { '6' } else if d == 7 { '7' }
    else if d == 8 { '8' } else { '9' }
}

/// Appends the decimal representation of `n`.
pub fn push_decimal(s: &mut String, n: u64)
    ensures
        final(s)@ == old(s)@ + decimal(n as nat),
    decreases n,
{
    if n >= 10 {
        push_decimal(s, n / 10);
    }
    push_char(s, digit(n % 10));
    proof {
        assert(final(s)@ =~= old(s)@ + decimal(n as nat));
    }
}

/// Whether `char::is_alphanumeric` holds of a character (Unicode
/// `Alphabetic` or `Numeric`).
pub uninterp spec fn char_alphanumeric(c: char) -> bool;

/// `char::is_alphanumeric`; claims that the answer is `char_alphanumeric` of
/// the character.
#[verifier::external_body]
pub(crate) fn is_alphanumeric(c: char) -> (b: bool)
    ensures
        b == char_alphanumeric(c),
{
    c.is_alphanumeric()
}

/// Unicode `White_Space` characters (what `char::is_whitespace` accepts).
pub open spec fn is_ws(c: char) -> bool {
    let u = c as u32;
    ||| 0x09 <= u <= 0x0D
    ||| u == 0x20
    ||| u == 0x85
    ||| u == 0xA0
    ||| u == 0x1680
    ||| 0x2000 <= u <= 0x200A
    ||| u == 0x2028
    ||| u == 0x2029
    ||| u == 0x202F
    ||| u == 0x205F
    ||| u == 0x3000
}

pub fn is_whitespace(c: char) -> (b: bool)
    ensures
        b == is_ws(c),
{
    let u = c as u32;
    (0x09 <= u && u <= 0x0D) || u == 0x20 || u == 0x85 || u == 0xA0 || u == 0x1680 || (0x2000
        <= u && u <= 0x200A) || u == 0x2028 || u == 0x2029 || u == 0x202F || u == 0x205F || u
        == 0x3000
}

/// Number of bytes of the UTF-8 encoding of a character.
pub open spec fn char_utf8_len(c: char) -> nat {
    let u = c as u32;
    if u < 0x80 {
        1
    } else if u < 0x800 {
        2
    } else if u < 0x10000 {
        3
    } else {
        4
    }
}

/// Number of bytes of the UTF-8 encoding of a character sequence.
pub open spec fn utf8_len(s: Seq<char>) -> nat
    decreases s.len(),
{
    if s.len() == 0 {
        0
    } else {
        utf8_len(s.drop_last()) + char_utf8_len(s.last())
    }
}

pub fn char_utf8_width(c: char) -> (n: usize)
    ensures
        n == char_utf8_len(c),
{
    let u = c as u32;
    if u < 0x80 {
        1
    } else if u < 0x800 {
        2
    } else if u < 0x10000 {
        3
    } else {
        4
    }
}

/// Number of bytes of the UTF-8 encoding of `v`.
pub fn utf8_width(v: &Vec<char>) -> (n: usize)
    requires
        4 * v@.len() <= usize::MAX,
    ensures
        n == utf8_len(v@),
{
    let mut n: usize = 0;
    let mut i: usize = 0;
    while i < v.len()
        invariant
            0 <= i <= v@.len(),
            4 * v@.len() <= usize::MAX,
            n == utf8_len(v@.take(i as int)),
            n <= 4 * i,
        decreases v@.len() - i,
    {
        proof {
            assert(v@.take(i + 1).drop_last() =~= v@.take(i as int));
        }
        n = n + char_utf8_width(v[i]);
        i = i + 1;
    }
    proof {
        assert(v@.take(v@.len() as int) =~= v@);
    }
    n
}

/// A copy of `v[from..to]`.
pub fn copy_range(v: &Vec<char>, from: usize, to: usize) -> (r: Vec<char>)
    requires
        from <= to <= v@.len(),
    ensures
        r@ == v@.subrange(from as int, to as int),
{
    let mut r: Vec<char> = Vec::new();
    let mut i = from;
    while i < to
        invariant
            from <= i <= to <= v@.len(),
            r@ == v@.subrange(from as int, i as int),
        decreases to - i,
    {
        r.push(v[i]);
        i = i + 1;
    }
    r
}

/// Appends the characters of `v`.
pub fn push_chars(s: &mut String, v: &Vec<char>)
    ensures
        final(s)@ == old(s)@ + v@,
{
    let mut i: usize = 0;
    while i < v.len()
        invariant
            0 <= i <= v@.len(),
            s@ == old(s)@ + v@.take(i as int),
        decreases v@.len() - i,
    {
        push_char(s, v[i]);
        i = i + 1;
        proof {
            assert(s@ =~= old(s)@ + v@.take(i as int));
        }
    }
    proof {
        assert(v@.take(v@.len() as int) =~= v@);
    }
}

/// A `String` holding the characters of `v`.
pub fn to_string(v: &Vec<char>) -> (s: String)
    ensures
        s@ == v@,
{
    string_of(v, 0, v.len())
}

/// Index of the first occurrence of `c` in `s`.
pub open spec fn index_of(s: Seq<char>, c: char) -> Option<int>
    decreases s.len(),
{
    if s.len() == 0 {
        None
    } else if s[0] == c {
        Some(0)
    } else {
        match index_of(s.drop_first(), c) {
            Some(i) => Some(i + 1),
            None => None,
        }
    }
}

pub proof fn lemma_index_of(s: Seq<char>, c: char)
    ensures
        index_of(s, c) matches Some(i) ==> 0 <= i < s.len() && s[i] == c && forall|k: int|
            0 <= k < i ==> s[k] != c,
        index_of(s, c) is None ==> forall|k: int| 0 <= k < s.len() ==> s[k] != c,
    decreases s.len(),
{
    if s.len() > 0 {
        lemma_index_of(s.drop_first(), c);
        if s[0] != c {
            assert forall|k: int| 1 <= k < s.len() implies s[k] == s.drop_first()[k - 1] by {}
        }
    }
}

pub proof fn lemma_index_of_char(s: Seq<char>, c: char, i: int)
    requires
        0 <= i < s.len(),
        s[i] == c,
        forall|k: int| 0 <= k < i ==> s[k] != c,
    ensures
        index_of(s, c) == Some(i),
    decreases s.len(),
{
    if i > 0 {
        lemma_index_of_char(s.drop_first(), c, i - 1);
    }
}

pub proof fn lemma_index_of_none(s: Seq<char>, c: char)
    requires
        forall|k: int| 0 <= k < s.len() ==> s[k] != c,
    ensures
        index_of(s, c) is None,
    decreases s.len(),
{
    if s.len() > 0 {
        lemma_index_of_none(s.drop_first(), c);
    }
}

/// Position of the first `c` in `v[from..]`, as an index into `v`.
pub fn find_char(v: &Vec<char>, from: usize, c: char) -> (r: Option<usize>)
    requires
        from <= v@.len(),
    ensures
        match r {
            Some(i) => index_of(v@.skip(from as int), c) == Some(i - from) && from <= i < v.len(),
            None => index_of(v@.skip(from as int), c) is None,
        },
{
    let mut i = from;
    while i < v.len()
        invariant
            from <= i <= v@.len(),
            forall|k: int| from <= k < i ==> v@[k] != c,
        decreases v@.len() - i,
    {
        if v[i] == c {
            proof {
                lemma_index_of_char(v@.skip(from as int), c, i - from);
            }
            return Some(i);
        }
        i = i + 1;
    }
    proof {
        lemma_index_of_none(v@.skip(from as int), c);
    }
    None
}

/// `Some((before, after))` around the first `c` (what `str::split_once` gives).
pub open spec fn split_once(s: Seq<char>, c: char) -> Option<(Seq<char>, Seq<char>)> {
    match index_of(s, c) {
        Some(i) => Some((s.take(i), s.skip(i + 1))),
        None => None,
    }
}

/// Whether `s` has the prefix `p`.
pub open spec fn starts_with(s: Seq<char>, p: Seq<char>) -> bool {
    p.len() <= s.len() && s.take(p.len() as int) == p
}

/// Whether `v[at..at + p.len()]` is `p`.
pub fn matches_at(v: &Vec<char>, at: usize, p: &str) -> (b: bool)
    requires
        at <= v@.len(),
    ensures
        b == starts_with(v@.skip(at as int), p@),
{
    let n = p.unicode_len();
    if n > v.len() - at {
        return false;
    }
    let mut k: usize = 0;
    while k < n
        invariant
            n == p@.len(),
            at + n <= v.len(),
            0 <= k <= n,
            forall|j: int| 0 <= j < k ==> v@[at + j] == p@[j],
        decreases n - k,
    {
        if v[at + k] != p.get_char(k) {
            proof {
                assert(v@.skip(at as int).take(n as int)[k as int] != p@[k as int]);
            }
            return false;
        }
        k = k + 1;
    }
    proof {
        assert(v@.skip(at as int).take(n as int) =~= p@);
    }
    true
}

/// Whether all of `v` is `p`.
pub fn equals_str(v: &Vec<char>, p: &str) -> (b: bool)
    ensures
        b == (v@ == p@),
{
    let n = p.unicode_len();
    if n != v.len() {
        return false;
    }
    let b = matches_at(v, 0, p);
    proof {
        assert(v@.skip(0) =~= v@);
        assert(v@.take(n as int) =~= v@);
    }
    b
}

/// `s` without leading whitespace.
pub open spec fn trim_start(s: Seq<char>) -> Seq<char>
    decreases s.len(),
{
    if s.len() > 0 && is_ws(s[0]) {
        trim_start(s.drop_first())
    } else {
        s
    }
}

/// `s` without trailing whitespace.
pub open spec fn trim_end(s: Seq<char>) -> Seq<char>
    decreases s.len(),
{
    if s.len() > 0 && is_ws(s.last()) {
        trim_end(s.drop_last())
    } else {
        s
    }
}

/// `s` without leading and trailing whitespace (what `str::trim` gives).
pub open spec fn trim(s: Seq<char>) -> Seq<char> {
    trim_end(trim_start(s))
}

/// The bounds of `trim(v[from..to])` inside `v`.
pub fn trim_bounds(v: &Vec<char>, from: usize, to: usize) -> (r: (usize, usize))
    requires
        from <= to <= v@.len(),
    ensures
        from <= r.0 <= r.1 <= to,
        v@.subrange(r.0 as int, r.1 as int) == trim(v@.subrange(from as int, to as int)),
{
    let mut lo = from;
    while lo < to && is_whitespace(v[lo])
        invariant
            from <= lo <= to <= v@.len(),
            trim_start(v@.subrange(from as int, to as int)) == trim_start(
                v@.subrange(lo as int, to as int),
            ),
        decreases to - lo,
    {
        proof {
            assert(v@.subrange(lo as int, to as int).drop_first() =~= v@.subrange(
                lo + 1,
                to as int,
            ));
        }
        lo = lo + 1;
    }
    let mut hi = to;
    while hi > lo && is_whitespace(v[hi - 1])
        invariant
            from <= lo <= hi <= to <= v@.len(),
            trim_end(v@.subrange(lo as int, to as int)) == trim_end(
                v@.subrange(lo as int, hi as int),
            ),
        decreases hi - lo,
    {
        proof {
            assert(v@.subrange(lo as int, hi as int).drop_last() =~= v@.subrange(
                lo as int,
                hi - 1,
            ));
        }
        hi = hi - 1;
    }
    (lo, hi)
}

/// Length of the leading run of non-whitespace characters.
pub open spec fn word_len(s: Seq<char>) -> nat
    decreases s.len(),
{
    if s.len() == 0 || is_ws(s[0]) {
        0
    } else {
        1 + word_len(s.drop_first())
    }
}

pub proof fn lemma_word_len(s: Seq<char>)
    ensures
        word_len(s) <= s.len(),
        s.len() > 0 && !is_ws(s[0]) ==> word_len(s) >= 1,
        forall|k: int| 0 <= k < word_len(s) ==> !is_ws(s[k]),
        word_len(s) < s.len() ==> is_ws(s[word_len(s) as int]),
    decreases s.len(),
{
    if s.len() > 0 && !is_ws(s[0]) {
        lemma_word_len(s.drop_first());
        assert forall|k: int| 0 <= k < word_len(s) implies !is_ws(s[k]) by {
            if k > 0 {
                assert(s[k] == s.drop_first()[k - 1]);
            }
        }
    }
}

pub proof fn lemma_word_len_exact(s: Seq<char>, n: int)
    requires
        0 <= n <= s.len(),
        forall|k: int| 0 <= k < n ==> !is_ws(s[k]),
        n < s.len() ==> is_ws(s[n]),
    ensures
        word_len(s) == n,
    decreases s.len(),
{
    if n > 0 {
        lemma_word_len_exact(s.drop_first(), n - 1);
    }
}

/// The maximal runs of non-whitespace characters (what `str::split_whitespace` gives).
pub open spec fn tokens(s: Seq<char>) -> Seq<Seq<char>>
    decreases s.len(),
{
    if s.len() == 0 {
        seq![]
    } else if is_ws(s[0]) {
        tokens(s.drop_first())
    } else {
        let n = word_len(s);
        proof {
            lemma_word_len(s);
        }
        seq![s.take(n as int)] + tokens(s.skip(n as int))
    }
}

pub proof fn lemma_tokens_short(s: Seq<char>)
    ensures
        forall|i: int| 0 <= i < tokens(s).len() ==> (#[trigger] tokens(s)[i]).len() <= s.len(),
    decreases s.len(),
{
    if s.len() > 0 {
        if is_ws(s[0]) {
            lemma_tokens_short(s.drop_first());
            assert(tokens(s) == tokens(s.drop_first()));
        } else {
            lemma_word_len(s);
            lemma_tokens_short(s.skip(word_len(s) as int));
            let n = word_len(s);
            assert(tokens(s) == seq![s.take(n as int)] + tokens(s.skip(n as int)));
            assert forall|i: int| 0 <= i < tokens(s).len() implies (#[trigger] tokens(s)[i]).len()
                <= s.len() by {
                if i > 0 {
                    assert(tokens(s)[i] == tokens(s.skip(n as int))[i - 1]);
                }
            }
        }
    }
}

pub open spec fn views(v: Seq<Vec<char>>) -> Seq<Seq<char>> {
    v.map_values(|t: Vec<char>| t@)
}

/// The whitespace-separated tokens of `v[from..to]`.
pub fn tokenize(v: &Vec<char>, from: usize, to: usize) -> (r: Vec<Vec<char>>)
    requires
        from <= to <= v@.len(),
    ensures
        views(r@) == tokens(v@.subrange(from as int, to as int)),
{
    let mut r: Vec<Vec<char>> = Vec::new();
    let mut i = from;
    while i < to
        invariant
            from <= i <= to <= v@.len(),
            views(r@) + tokens(v@.subrange(i as int, to as int)) == tokens(
                v@.subrange(from as int, to as int),
            ),
        decreases to - i,
    {
        let ghost rest = v@.subrange(i as int, to as int);
        if is_whitespace(v[i]) {
            proof {
                assert(rest.drop_first() =~= v@.subrange(i + 1, to as int));
            }
            i = i + 1;
        } else {
            let mut j = i;
            while j < to && !is_whitespace(v[j])
                invariant
                    i <= j <= to <= v@.len(),
                    forall|k: int| i <= k < j ==> !is_ws(v@[k]),
                decreases to - j,
            {
                j = j + 1;
            }
            let t = copy_range(v, i, j);
            proof {
                lemma_word_len_exact(rest, j - i);
                assert(rest.take(j - i) =~= t@);
                assert(rest.skip(j - i) =~= v@.subrange(j as int, to as int));
            }
            let ghost before = r@;
            r.push(t);
            proof {
                assert(views(r@) =~= views(before).push(t@));
                assert(views(r@) + tokens(v@.subrange(j as int, to as int)) =~= views(before)
                    + tokens(rest));
            }
            i = j;
        }
    }
    proof {
        assert(v@.subrange(to as int, to as int) =~= Seq::<char>::empty());
        assert(views(r@) + Seq::<Seq<char>>::empty() =~= views(r@));
    }
    r
}

/// `s` without one trailing carriage return.
pub open spec fn strip_cr(s: Seq<char>) -> Seq<char> {
    if s.len() > 0 && s.last() == '\r' {
        s.drop_last()
    } else {
        s
    }
}

/// The lines of `s` (what `str::lines` gives): split after each `\n`, the
/// line ending (`\n` or `\r\n`) removed, no empty line after a final `\n`.
pub open spec fn lines(s: Seq<char>) -> Seq<Seq<char>>
    decreases s.len(),
{
    if s.len() == 0 {
        seq![]
    } else {
        match index_of(s, '\n') {
            Some(i) => {
                proof {
                    lemma_index_of(s, '\n');
                }
                seq![strip_cr(s.take(i))] + lines(s.skip(i + 1))
            },
            None => seq![s],
        }
    }
}

/// The lines of `a`, a newline, then `b` are the lines of `a` followed by
/// those of `b`, where `a` is not empty and ends with neither `\n` nor `\r`.
pub proof fn lemma_lines_append(a: Seq<char>, b: Seq<char>)
    requires
        a.len() > 0,
        a.last() != '\n',
        a.last() != '\r',
    ensures
        lines(a + seq!['\n'] + b) == lines(a) + lines(b),
    decreases a.len(),
{
    let s = a + seq!['\n'] + b;
    lemma_index_of(s, '\n');
    lemma_index_of(a, '\n');
    match index_of(a, '\n') {
        Some(i) => {
            assert(s[i] == '\n');
            assert forall|k: int| 0 <= k < i implies s[k] != '\n' by {
                assert(s[k] == a[k]);
            }
            lemma_index_of_char(s, '\n', i);
            assert(i < a.len() - 1);
            let rest = a.skip(i + 1);
            assert(rest.last() == a.last());
            lemma_lines_append(rest, b);
            assert(s.take(i) =~= a.take(i));
            assert(s.skip(i + 1) =~= rest + seq!['\n'] + b);
            assert(lines(s) =~= seq![strip_cr(a.take(i))] + lines(rest) + lines(b));
        },
        None => {
            assert(s[a.len() as int] == '\n');
            assert forall|k: int| 0 <= k < a.len() implies s[k] != '\n' by {
                assert(s[k] == a[k]);
            }
            lemma_index_of_char(s, '\n', a.len() as int);
            assert(s.take(a.len() as int) =~= a);
            assert(s.skip(a.len() as int + 1) =~= b);
            assert(strip_cr(a) == a);
            assert(lines(s) =~= seq![a] + lines(b));
        },
    }
}

/// The bounds of the first line of `v[pos..]` and where the next one starts.
pub fn next_line(v: &Vec<char>, pos: usize) -> (r: (usize, usize))
    requires
        pos < v@.len(),
    ensures
        pos <= r.0 <= v@.len(),
        pos < r.1 <= v@.len(),
        lines(v@.skip(pos as int)) == seq![v@.subrange(pos as int, r.0 as int)] + lines(
            v@.skip(r.1 as int),
        ),
{
    let ghost s = v@.skip(pos as int);
    match find_char(v, pos, '\n') {
        Some(k) => {
            let end = if k > pos && v[k - 1] == '\r' {
                k - 1
            } else {
                k
            };
            proof {
                assert(s.skip(k - pos + 1) =~= v@.skip(k + 1));
                assert(strip_cr(s.take(k - pos)) =~= v@.subrange(pos as int, end as int));
            }
            (end, k + 1)
        },
        None => {
            proof {
                assert(v@.skip(v@.len() as int) =~= Seq::<char>::empty());
                assert(s =~= v@.subrange(pos as int, v@.len() as int));
                assert(seq![s] + Seq::<Seq<char>>::empty() =~= seq![s]);
            }
            (v.len(), v.len())
        },
    }
}

/// Number of occurrences of `c` in `s`.
pub open spec fn count_char(s: Seq<char>, c: char) -> nat
    decreases s.len(),
{
    if s.len() == 0 {
        0
    } else {
        count_char(s.drop_last(), c) + if s.last() == c {
            1nat
        } else {
            0nat
        }
    }
}

/// Whether `v[from..to]` holds an even number of `c`.
pub fn even_count(v: &Vec<char>, from: usize, to: usize, c: char) -> (b: bool)
    requires
        from <= to <= v@.len(),
    ensures
        b == (count_char(v@.subrange(from as int, to as int), c) % 2 == 0),
{
    let mut even = true;
    let mut i = from;
    while i < to
        invariant
            from <= i <= to <= v@.len(),
            even == (count_char(v@.subrange(from as int, i as int), c) % 2 == 0),
        decreases to - i,
    {
        proof {
            assert(v@.subrange(from as int, i + 1).drop_last() =~= v@.subrange(
                from as int,
                i as int,
            ));
        }
        if v[i] == c {
            even = !even;
        }
        i = i + 1;
    }
    even
}

/// The last index at or below `i` where `p` occurs in `s`.
pub open spec fn rfind_from(s: Seq<char>, p: Seq<char>, i: int) -> Option<int>
    decreases i + 1,
{
    if i < 0 {
        None
    } else if starts_with(s.skip(i), p) {
        Some(i)
    } else {
        rfind_from(s, p, i - 1)
    }
}

/// Index of the last occurrence of `p` in `s` (what `str::rfind` gives).
pub open spec fn rfind(s: Seq<char>, p: Seq<char>) -> Option<int> {
    rfind_from(s, p, s.len() - p.len())
}

pub proof fn lemma_rfind_from(s: Seq<char>, p: Seq<char>, i: int)
    ensures
        rfind_from(s, p, i) matches Some(k) ==> 0 <= k <= i && starts_with(s.skip(k), p),
    decreases i + 1,
{
    if i >= 0 && !starts_with(s.skip(i), p) {
        lemma_rfind_from(s, p, i - 1);
    }
}

pub proof fn lemma_rfind(s: Seq<char>, p: Seq<char>)
    ensures
        rfind(s, p) matches Some(k) ==> 0 <= k && k + p.len() <= s.len(),
{
    lemma_rfind_from(s, p, s.len() - p.len());
}

/// A `String` with the characters of a string slice.
pub fn owned(s: &str) -> (r: String)
    ensures
        r@ == s@,
{
    s.to_owned()
}

/// Index (relative to `from`) of the last occurrence of `p` in `v[from..to]`.
pub fn rfind_in(v: &Vec<char>, from: usize, to: usize, p: &str) -> (r: Option<usize>)
    requires
        from <= to <= v@.len(),
    ensures
        r matches Some(k) ==> rfind(v@.subrange(from as int, to as int), p@) == Some(k as int),
        r is None ==> rfind(v@.subrange(from as int, to as int), p@) is None,
{
    let ghost s = v@.subrange(from as int, to as int);
    let n = p.unicode_len();
    let len = to - from;
    if n > len {
        return None;
    }
    let mut i = len - n;
    loop
        invariant
            n == p@.len(),
            len == s.len(),
            s == v@.subrange(from as int, to as int),
            to == from + len,
            to <= v.len(),
            n <= len,
            i <= len - n,
            rfind(s, p@) == rfind_from(s, p@, i as int),
        decreases i,
    {
        let b = matches_at(v, from + i, p);
        proof {
            assert(v@.skip(from + i).take(n as int) =~= s.skip(i as int).take(n as int));
        }
        if b {
            return Some(i);
        }
        if i == 0 {
            proof {
                assert(rfind_from(s, p@, -1) is None);
            }
            return None;
        }
        i = i - 1;
    }
}

/// The value of a sequence of ASCII digits.
pub open spec fn digits_value(s: Seq<char>) -> nat
    decreases s.len(),
{
    if s.len() == 0 {
        0
    } else {
        digits_value(s.drop_last()) * 10 + ((s.last() as u32) - ('0' as u32)) as nat
    }
}

pub open spec fn is_digit(c: char) -> bool {
    '0' as u32 <= c as u32 <= '9' as u32
}

/// `s` without one leading `+`.
pub open spec fn strip_plus(s: Seq<char>) -> Seq<char> {
    if s.len() > 0 && s[0] == '+' {
        s.drop_first()
    } else {
        s
    }
}

/// What parsing an unsigned integer type with maximum `max` from `s` gives:
/// an optional `+`, then one or more ASCII digits, value at most `max`.
pub open spec fn parse_unsigned(s: Seq<char>, max: nat) -> Option<nat> {
    let d = strip_plus(s);
    if d.len() == 0 || exists|i: int| 0 <= i < d.len() && !is_digit(#[trigger] d[i]) {
        None
    } else if digits_value(d) > max {
        None
    } else {
        Some(digits_value(d))
    }
}

proof fn lemma_digits_value_grows(s: Seq<char>, i: int, j: int)
    requires
        0 <= i <= j <= s.len(),
        forall|k: int| 0 <= k < s.len() ==> is_digit(#[trigger] s[k]),
    ensures
        digits_value(s.take(i)) <= digits_value(s.take(j)),
    decreases j - i,
{
    if i < j {
        lemma_digits_value_grows(s, i, j - 1);
        assert(s.take(j).drop_last() =~= s.take(j - 1));
    }
}

/// Parses `v[from..to]` as an unsigned integer no larger than `max`.
pub fn parse_unsigned_in(v: &Vec<char>, from: usize, to: usize, max: u64) -> (r: Option<u64>)
    requires
        from <= to <= v@.len(),
    ensures
        match r {
            Some(n) => parse_unsigned(v@.subrange(from as int, to as int), max as nat) == Some(
                n as nat,
            ),
            None => parse_unsigned(v@.subrange(from as int, to as int), max as nat) is None,
        },
{
    let ghost s = v@.subrange(from as int, to as int);
    let start = if from < to && v[from] == '+' {
        from + 1
    } else {
        from
    };
    let ghost d = v@.subrange(start as int, to as int);
    proof {
        if from < to && v@[from as int] == '+' {
            assert(s.drop_first() =~= d);
        } else {
            assert(s =~= d);
        }
    }
    if start == to {
        return None;
    }
    let mut i = start;
    while i < to
        invariant
            from <= start <= i <= to <= v@.len(),
            s == v@.subrange(from as int, to as int),
            d == v@.subrange(start as int, to as int),
            d == strip_plus(s),
            forall|k: int| start <= k < i ==> is_digit(#[trigger] v@[k]),
        decreases to - i,
    {
        let u = v[i] as u32;
        if u < '0' as u32 || u > '9' as u32 {
            proof {
                assert(!is_digit(d[i - start]));
                assert(exists|k: int| 0 <= k < d.len() && !is_digit(#[trigger] d[k]));
            }
            return None;
        }
        i = i + 1;
    }
    proof {
        assert forall|k: int| 0 <= k < d.len() implies is_digit(#[trigger] d[k]) by {
            assert(d[k] == v@[start + k]);
        }
    }
    let mut n: u64 = 0;
    let mut i = start;
    while i < to
        invariant
            from <= start <= i <= to <= v@.len(),
            start < to,
            s == v@.subrange(from as int, to as int),
            d == v@.subrange(start as int, to as int),
            d == strip_plus(s),
            forall|k: int| 0 <= k < d.len() ==> is_digit(#[trigger] d[k]),
            n == digits_value(d.take(i - start)),
            n <= max,
        decreases to - i,
    {
        proof {
            assert(d.take(i - start + 1).drop_last() =~= d.take(i - start));
            assert(d[i - start] == v@[i as int]);
        }
        let dv = (v[i] as u32 - '0' as u32) as u64;
        let ghost next = digits_value(d.take(i - start + 1));
        if dv > max || n > (max - dv) / 10 {
            proof {
                assert(n * 10 + dv > max) by (nonlinear_arith)
                    requires
                        dv > max || n > (max - dv) / 10,
                        0 <= dv <= 9,
                        n >= 0;
                assert(next == n * 10 + dv);
                lemma_digits_value_grows(d, i - start + 1, d.len() as int);
                assert(d.take(d.len() as int) =~= d);
                assert(digits_value(d) > max);
                assert(!exists|k: int| 0 <= k < d.len() && !is_digit(#[trigger] d[k]));
            }
            return None;
        }
        proof {
            assert(n * 10 + dv <= max) by (nonlinear_arith)
                requires
                    n <= (max - dv) / 10,
                    dv <= max,
                    0 <= dv <= 9;
        }
        n = n * 10 + dv;
        i = i + 1;
    }
    proof {
        assert(d.take(d.len() as int) =~= d);
    }
    Some(n)
}

/// Every whitespace-separated token is non-empty.
pub proof fn lemma_tokens_nonempty(s: Seq<char>)
    ensures
        forall|i: int| 0 <= i < tokens(s).len() ==> (#[trigger] tokens(s)[i]).len() > 0,
    decreases s.len(),
{
    if s.len() > 0 {
        if is_ws(s[0]) {
            lemma_tokens_nonempty(s.drop_first());
            assert(tokens(s) == tokens(s.drop_first()));
        } else {
            lemma_word_len(s);
            let n = word_len(s);
            lemma_tokens_nonempty(s.skip(n as int));
            assert(tokens(s) == seq![s.take(n as int)] + tokens(s.skip(n as int)));
            assert forall|i: int| 0 <= i < tokens(s).len() implies (#[trigger] tokens(s)[i]).len()
                > 0 by {
                if i > 0 {
                    assert(tokens(s)[i] == tokens(s.skip(n as int))[i - 1]);
                }
            }
        }
    }
}

/// Joining words, the last one stands at the end in full.
pub proof fn lemma_join_len(words: Seq<Seq<char>>, sep: Seq<char>)
    requires
        words.len() > 0,
    ensures
        join(words, sep).len() >= words.last().len(),
    decreases words.len(),
{
}

/// Joins words with a separator.
pub open spec fn join(words: Seq<Seq<char>>, sep: Seq<char>) -> Seq<char>
    decreases words.len(),
{
    if words.len() == 0 {
        seq![]
    } else if words.len() == 1 {
        words[0]
    } else {
        join(words.drop_last(), sep) + sep + words.last()
    }
}

/// `prefix` + value + `'`, as a message.
pub fn quoted_message(prefix: &str, value: &Vec<char>) -> (m: String)
    ensures
        m@ == prefix@ + value@ + "'"@,
{
    let mut m = String::new();
    push_str(&mut m, prefix);
    push_chars(&mut m, value);
    push_str(&mut m, "'");
    proof {
        assert(m@ =~= prefix@ + value@ + "'"@);
    }
    m
}

} // verus!
