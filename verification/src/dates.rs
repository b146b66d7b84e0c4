//! Calendar dates, through jiff.
use vstd::prelude::*;

use crate::text::is_digit;

verus! {

/// What jiff's `Date` parser (`str::parse::<jiff::civil::Date>`) gives for a
/// string: the year, month and day, or the text of its error.
pub uninterp spec fn civil_date_parse(s: Seq<char>) -> Result<(i16, i8, i8), Seq<char>>;

/// Parses a civil date with jiff (`<jiff::civil::Date as FromStr>::from_str`);
/// claims that the result is `civil_date_parse` of the text, the error taken
/// by its `Display` text.
#[verifier::external_body]
pub(crate) fn parse_civil_date(s: &str) -> (r: Result<(i16, i8, i8), String>)
    ensures
        match r {
            Ok(d) => civil_date_parse(s@) == Ok::<_, Seq<char>>(d),
            Err(m) => civil_date_parse(s@) == Err::<(i16, i8, i8), _>(m@),
        },
{
    match s.parse::<jiff::civil::Date>() {
        Ok(d) => Ok((d.year(), d.month(), d.day())),
        Err(e) => Err(e.to_string()),
    }
}

/// A reading of the clock as a civil date and time of day (year, month, day;
/// hour, minute, second and nanosecond) and the zone it was read in: the
/// offset from UTC in seconds, or `None` for the system time zone.
#[derive(Debug, Clone, Copy)]
pub struct Clock {
    pub date: (i16, i8, i8),
    pub time: (i8, i8, i8, i32),
    pub zone: Option<i32>,
}

/// The clock read in the system time zone (`jiff::Zoned::now()`). Of the
/// reading only its zone is claimed (the system's); the date and time depend
/// on the clock and the machine.
#[verifier::external_body]
pub(crate) fn now_local() -> (c: Clock)
    ensures
        c.zone is None,
{
    let z = jiff::Zoned::now();
    Clock {
        date: (z.year(), z.month(), z.day()),
        time: (z.hour(), z.minute(), z.second(), z.subsec_nanosecond()),
        zone: None,
    }
}

/// The clock read at a fixed offset from UTC of `seconds`
/// (`jiff::Timestamp::now()` in `TimeZone::fixed`). Of the reading only its
/// zone is claimed (that offset); the date and time depend on the clock.
/// `Offset::from_seconds` accepts every offset that `requires` admits.
#[verifier::external_body]
pub(crate) fn now_at_offset(seconds: i32) -> (c: Clock)
    requires
        -93599 <= seconds <= 93599,
    ensures
        c.zone == Some(seconds),
{
    let offset = jiff::tz::Offset::from_seconds(seconds).unwrap();
    let z = jiff::Timestamp::now().to_zoned(jiff::tz::TimeZone::fixed(offset));
    Clock {
        date: (z.year(), z.month(), z.day()),
        time: (z.hour(), z.minute(), z.second(), z.subsec_nanosecond()),
        zone: Some(seconds),
    }
}

// ---------------------------------------------------------------------------
// Times of day (RFC 3339)
// ---------------------------------------------------------------------------

/// The value of an ASCII digit.
pub open spec fn digit_val(c: char) -> int {
    (c as u32) as int - ('0' as u32) as int
}

/// The two-digit number at `t[i..i + 2]`, if both are ASCII digits.
pub open spec fn two_digits(t: Seq<char>, i: int) -> Option<int> {
    if 0 <= i && i + 2 <= t.len() && is_digit(t[i]) && is_digit(t[i + 1]) {
        Some(10 * digit_val(t[i]) + digit_val(t[i + 1]))
    } else {
        None
    }
}

/// The number of leading ASCII digits of `s`.
pub open spec fn digit_run(s: Seq<char>) -> nat
    decreases s.len(),
{
    if s.len() > 0 && is_digit(s[0]) {
        1 + digit_run(s.drop_first())
    } else {
        0
    }
}

/// The first `n` digits of the fraction `d`, padded with zeros: with `n`
/// nine, the fraction in nanoseconds (digits past the ninth are dropped).
pub open spec fn frac_nanos(d: Seq<char>, n: nat) -> int
    decreases n,
{
    if n == 0 {
        0
    } else {
        10 * frac_nanos(d, (n - 1) as nat) + if n - 1 < d.len() {
            digit_val(d[n - 1])
        } else {
            0
        }
    }
}

/// A time zone suffix: none (local time), `Z`/`z` (UTC), or `+HH:MM` /
/// `-HH:MM`, as an offset in seconds.
pub open spec fn zone_parse(z: Seq<char>) -> Option<Option<int>> {
    if z.len() == 0 {
        Some(None)
    } else if z.len() == 1 && (z[0] == 'Z' || z[0] == 'z') {
        Some(Some(0))
    } else if z.len() == 6 && (z[0] == '+' || z[0] == '-') && z[3] == ':' {
        match (two_digits(z, 1), two_digits(z, 4)) {
            (Some(h), Some(m)) => if h < 24 && m < 60 {
                let mag = h * 3600 + m * 60;
                Some(Some(if z[0] == '-' { -mag } else { mag }))
            } else {
                None
            },
            _ => None,
        }
    } else {
        None
    }
}

/// The time of an RFC 3339 datetime, the text after its `T`:
/// `HH:MM:SS`, an optional fraction `.d…`, and an optional zone. Its hour,
/// minute, second, nanosecond and zone offset.
pub open spec fn time_parse(t: Seq<char>) -> Option<(int, int, int, int, Option<int>)> {
    if t.len() >= 8 && t[2] == ':' && t[5] == ':' {
        match (two_digits(t, 0), two_digits(t, 3), two_digits(t, 6)) {
            (Some(h), Some(m), Some(s)) => if h < 24 && m < 60 && s <= 60 {
                let r = t.skip(8);
                if r.len() > 0 && r[0] == '.' {
                    let n = digit_run(r.drop_first());
                    if n == 0 {
                        None
                    } else {
                        match zone_parse(r.skip(1 + n as int)) {
                            Some(z) => Some((h, m, s, frac_nanos(r.drop_first().take(n as int), 9), z)),
                            None => None,
                        }
                    }
                } else {
                    match zone_parse(r) {
                        Some(z) => Some((h, m, s, 0, z)),
                        None => None,
                    }
                }
            } else {
                None
            },
            _ => None,
        }
    } else {
        None
    }
}

/// A parsed time of day, as numbers.
pub open spec fn time_view(x: (i8, i8, i8, i32, Option<i32>)) -> (int, int, int, int, Option<int>) {
    (
        x.0 as int,
        x.1 as int,
        x.2 as int,
        x.3 as int,
        match x.4 {
            Some(o) => Some(o as int),
            None => None,
        },
    )
}

fn digit_at(v: &Vec<char>, i: usize) -> (r: Option<i32>)
    ensures
        match r {
            Some(d) => i < v@.len() && is_digit(v@[i as int]) && d == digit_val(v@[i as int]) && 0 <= d
                <= 9,
            None => !(i < v@.len() && is_digit(v@[i as int])),
        },
{
    if i < v.len() {
        let c = v[i] as u32;
        if '0' as u32 <= c && c <= '9' as u32 {
            return Some((c - '0' as u32) as i32);
        }
    }
    None
}

fn two_at(v: &Vec<char>, i: usize) -> (r: Option<i32>)
    ensures
        match r {
            Some(n) => two_digits(v@, i as int) == Some(n as int) && 0 <= n <= 99,
            None => two_digits(v@, i as int) is None,
        },
{
    if i >= v.len() || v.len() - i < 2 {
        return None;
    }
    match (digit_at(v, i), digit_at(v, i + 1)) {
        (Some(a), Some(b)) => Some(10 * a + b),
        _ => None,
    }
}

proof fn lemma_two_skip(s: Seq<char>, from: int, j: int)
    requires
        0 <= from <= s.len(),
        0 <= j,
    ensures
        two_digits(s.skip(from), j) == two_digits(s, from + j),
{
}

fn zone_at(v: &Vec<char>, from: usize) -> (r: Option<Option<i32>>)
    requires
        from <= v@.len(),
    ensures
        match r {
            Some(Some(o)) => zone_parse(v@.skip(from as int)) == Some(Some(o as int)) && -86400 < o
                < 86400,
            Some(None) => zone_parse(v@.skip(from as int)) == Some(None::<int>),
            None => zone_parse(v@.skip(from as int)) is None,
        },
{
    let ghost z = v@.skip(from as int);
    let n = v.len() - from;
    if n == 0 {
        return Some(None);
    }
    let c = v[from];
    if n == 1 && (c == 'Z' || c == 'z') {
        return Some(Some(0));
    }
    if n == 6 && (c == '+' || c == '-') && v[from + 3] == ':' {
        proof {
            lemma_two_skip(v@, from as int, 1);
            lemma_two_skip(v@, from as int, 4);
        }
        match (two_at(v, from + 1), two_at(v, from + 4)) {
            (Some(h), Some(m)) => {
                if h < 24 && m < 60 {
                    let mag = h * 3600 + m * 60;
                    return Some(Some(if c == '-' { -mag } else { mag }));
                }
                return None;
            },
            _ => {
                return None;
            },
        }
    }
    None
}

/// Parses the time of an RFC 3339 datetime from `v[from..]` (see `time_parse`).
pub fn parse_time(v: &Vec<char>, from: usize) -> (r: Option<(i8, i8, i8, i32, Option<i32>)>)
    requires
        from <= v@.len(),
    ensures
        match r {
            Some(x) => time_parse(v@.skip(from as int)) == Some(time_view(x)) && (x.4 matches Some(
                o,
            ) ==> -93599 <= o <= 93599),
            None => time_parse(v@.skip(from as int)) is None,
        },
{
    let ghost t = v@.skip(from as int);
    let n = v.len() - from;
    if n < 8 || v[from + 2] != ':' || v[from + 5] != ':' {
        return None;
    }
    proof {
        lemma_two_skip(v@, from as int, 0);
        lemma_two_skip(v@, from as int, 3);
        lemma_two_skip(v@, from as int, 6);
    }
    let (h, m, s) = match (two_at(v, from), two_at(v, from + 3), two_at(v, from + 6)) {
        (Some(h), Some(m), Some(s)) => (h, m, s),
        _ => {
            return None;
        },
    };
    if !(h < 24 && m < 60 && s <= 60) {
        return None;
    }
    let start = from + 8;
    let ghost r = t.skip(8);
    proof {
        assert(r =~= v@.skip(start as int));
    }
    if start < v.len() && v[start] == '.' {
        // the fraction's digits
        let mut i = start + 1;
        proof {
            assert(v@.skip(i as int) =~= r.drop_first());
        }
        while i < v.len() && '0' as u32 <= v[i] as u32 && v[i] as u32 <= '9' as u32
            invariant
                start + 1 <= i <= v@.len(),
                r == v@.skip(start as int),
                r.len() > 0,
                digit_run(r.drop_first()) == (i - start - 1) + digit_run(v@.skip(i as int)),
                forall|j: int| start + 1 <= j < i ==> is_digit(#[trigger] v@[j]),
            decreases v@.len() - i,
        {
            proof {
                assert(v@.skip(i as int).drop_first() =~= v@.skip(i + 1));
            }
            i = i + 1;
        }
        proof {
            assert(digit_run(v@.skip(i as int)) == 0);
        }
        let nd = i - start - 1;
        if nd == 0 {
            return None;
        }
        let ghost d = r.drop_first().take(nd as int);
        let mut acc: i32 = 0;
        let mut j: usize = 0;
        while j < 9
            invariant
                0 <= j <= 9,
                start + 1 + nd == i,
                i <= v@.len(),
                d == v@.skip(start + 1).take(nd as int),
                nd == digit_run(r.drop_first()),
                r == v@.skip(start as int),
                forall|q: int| start + 1 <= q < i ==> is_digit(#[trigger] v@[q]),
                acc == frac_nanos(d, j as nat),
                0 <= acc < pow10(j as nat),
            decreases 9 - j,
        {
            proof {
                lemma_digit_run_prefix(r.drop_first(), j as int);
            }
            let dv: i32 = if j < nd {
                let c = v[start + 1 + j] as u32;
                proof {
                    assert(d[j as int] == v@[start + 1 + j]);
                    assert(is_digit(v@[start + 1 + j]));
                }
                (c - '0' as u32) as i32
            } else {
                0
            };
            proof {
                assert(pow10((j + 1) as nat) == 10 * pow10(j as nat));
                assert(pow10(j as nat) <= 100000000) by {
                    lemma_pow10_bound(j as nat);
                }
            }
            acc = 10 * acc + dv;
            j = j + 1;
        }
        proof {
            assert(v@.skip(i as int) =~= r.skip(1 + nd));
        }
        match zone_at(v, i) {
            Some(z) => Some((h as i8, m as i8, s as i8, acc, z)),
            None => None,
        }
    } else {
        match zone_at(v, start) {
            Some(z) => Some((h as i8, m as i8, s as i8, 0, z)),
            None => None,
        }
    }
}

pub open spec fn pow10(n: nat) -> int
    decreases n,
{
    if n == 0 {
        1
    } else {
        10 * pow10((n - 1) as nat)
    }
}

proof fn lemma_pow10_bound(n: nat)
    requires
        n <= 8,
    ensures
        1 <= pow10(n) <= 100000000,
{
    reveal_with_fuel(pow10, 9);
    if n == 0 {
    } else if n == 1 {
    } else if n == 2 {
    } else if n == 3 {
    } else if n == 4 {
    } else if n == 5 {
    } else if n == 6 {
    } else if n == 7 {
    } else {
        assert(n == 8);
    }
}

/// Below the digit run, every character is a digit; at it, the next is not.
proof fn lemma_digit_run_prefix(d: Seq<char>, j: int)
    requires
        0 <= j,
    ensures
        j < digit_run(d) ==> j < d.len() && is_digit(d[j]),
        j == digit_run(d) && j < d.len() ==> !is_digit(d[j]),
    decreases d.len(),
{
    if d.len() > 0 && is_digit(d[0]) && j > 0 {
        lemma_digit_run_prefix(d.drop_first(), j - 1);
    }
}

// ---------------------------------------------------------------------------
// Calendar
// ---------------------------------------------------------------------------

/// Whether `y` is a leap year of the Gregorian calendar.
pub open spec fn leap_year(y: int) -> bool {
    (y % 4 == 0 && y % 100 != 0) || y % 400 == 0
}

/// The number of days of month `m` of year `y`.
pub open spec fn days_in_month(y: int, m: int) -> int {
    if m == 2 {
        if leap_year(y) {
            29
        } else {
            28
        }
    } else if m == 4 || m == 6 || m == 9 || m == 11 {
        30
    } else {
        31
    }
}

pub fn month_days(y: u64, m: u64) -> (d: u64)
    ensures
        d == days_in_month(y as int, m as int),
{
    if m == 2 {
        if (y % 4 == 0 && y % 100 != 0) || y % 400 == 0 {
            29
        } else {
            28
        }
    } else if m == 4 || m == 6 || m == 9 || m == 11 {
        30
    } else {
        31
    }
}

/// Whether the clock reading `now` is at or past the civil date `date` and
/// time of day `time` (hour, minute, second, nanosecond).
pub open spec fn reached(now: Clock, date: (i16, i8, i8), time: (int, int, int, int)) -> bool {
    if now.date != date {
        on_or_after(now.date, date)
    } else {
        let t = now.time;
        t.0 > time.0 || (t.0 == time.0 && (t.1 > time.1 || (t.1 == time.1 && (t.2 > time.2 || (
        t.2 == time.2 && t.3 >= time.3)))))
    }
}

pub fn is_reached(now: Clock, date: (i16, i8, i8), time: (i8, i8, i8, i32)) -> (b: bool)
    ensures
        b == reached(now, date, (time.0 as int, time.1 as int, time.2 as int, time.3 as int)),
{
    if !(now.date.0 == date.0 && now.date.1 == date.1 && now.date.2 == date.2) {
        is_on_or_after(now.date, date)
    } else {
        let t = now.time;
        t.0 > time.0 || (t.0 == time.0 && (t.1 > time.1 || (t.1 == time.1 && (t.2 > time.2 || (t.2
            == time.2 && t.3 >= time.3)))))
    }
}

/// Whether date `a` is on or after date `b` (chronological order is the
/// order of year, then month, then day).
pub open spec fn on_or_after(a: (i16, i8, i8), b: (i16, i8, i8)) -> bool {
    a.0 > b.0 || (a.0 == b.0 && (a.1 > b.1 || (a.1 == b.1 && a.2 >= b.2)))
}

pub fn is_on_or_after(a: (i16, i8, i8), b: (i16, i8, i8)) -> (r: bool)
    ensures
        r == on_or_after(a, b),
{
    a.0 > b.0 || (a.0 == b.0 && (a.1 > b.1 || (a.1 == b.1 && a.2 >= b.2)))
}

} // verus!
