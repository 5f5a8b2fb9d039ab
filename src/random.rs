//! Range-bounded random values: each draw is uniform over the values that a
//! range admits, and an empty range gives no value.
use vstd::prelude::*;
use fake::Fake;

verus! {

/// One end of a range.
pub enum Bound {
    Unbounded,
    Inclusive(i64),
    Exclusive(i64),
}

/// A range of integers, each end open, closed or absent.
pub struct IntRange {
    pub lower: Bound,
    pub upper: Bound,
}

/// The earliest timestamp, in microseconds from 2000-01-01.
pub const TIMESTAMP_MIN: i64 = -211813488000000000;

/// The latest timestamp, in microseconds from 2000-01-01.
pub const TIMESTAMP_MAX: i64 = 9223371331199999999;

/// The earliest date, in days from 2000-01-01.
pub const DATE_MIN: i64 = -2451545;

/// The latest date, in days from 2000-01-01.
pub const DATE_MAX: i64 = 2145031948;

/// The microseconds of a day; a time of day runs from 0 to this, both
/// included.
pub const USECS_PER_DAY: i64 = 86400000000;

/// `x` lies within `r`.
pub open spec fn in_range(r: IntRange, x: int) -> bool {
    (match r.lower {
        Bound::Unbounded => true,
        Bound::Inclusive(l) => l <= x,
        Bound::Exclusive(l) => l < x,
    }) && (match r.upper {
        Bound::Unbounded => true,
        Bound::Inclusive(u) => x <= u,
        Bound::Exclusive(u) => x < u,
    })
}

/// No value of the domain `[dmin, dmax]` lies within `r`.
pub open spec fn range_is_empty(r: IntRange, dmin: int, dmax: int) -> bool {
    forall|x: int| dmin <= x <= dmax ==> !#[trigger] in_range(r, x)
}

/// The ASCII letters and digits.
pub open spec fn is_alphanumeric(c: char) -> bool {
    ('0' <= c <= '9') || ('A' <= c <= 'Z') || ('a' <= c <= 'z')
}

/// `r` is the template `format` with each `#` replaced by a digit and each
/// `^` by a digit other than zero.
pub open spec fn fills_format(format: Seq<char>, r: Seq<char>) -> bool {
    r.len() == format.len() && forall|i: int|
        0 <= i < format.len() ==> (if format[i] == '#' {
            '0' <= #[trigger] r[i] <= '9'
        } else if format[i] == '^' {
            '1' <= r[i] <= '9'
        } else {
            r[i] == format[i]
        })
}

/// Relies on fake's `Dummy<RangeInclusive<i64>>` for `i64`: a uniform draw
/// from rand's `Uniform::new_inclusive(lo, hi)`, which panics only when
/// `lo > hi`.
#[verifier::external_body]
fn draw_between(lo: i64, hi: i64) -> (r: i64)
    requires
        lo <= hi,
    ensures
        lo <= r <= hi,
{
    (lo..=hi).fake::<i64>()
}

/// Relies on fake's `NumberWithFormat`, which maps each character of the
/// template: `#` to a random digit, `^` to a random digit from 1 to 9, and
/// any other character to itself.
#[verifier::external_body]
fn fill_number_format(format: &str) -> (r: String)
    ensures
        fills_format(format@, r@),
{
    fake::faker::number::raw::NumberWithFormat(fake::locales::EN, format).fake::<String>()
}

/// Relies on fake's `Dummy<usize>` for `String`: `len` characters drawn
/// from rand's `Alphanumeric`, the ASCII letters and digits.
#[verifier::external_body]
fn alphanumeric_string(len: usize) -> (r: String)
    ensures
        r@.len() == len,
        forall|i: int| 0 <= i < r@.len() ==> is_alphanumeric(#[trigger] r@[i]),
{
    len.fake::<String>()
}

/// A uniform draw from the values of `[dmin, dmax]` within `r`; `None` when
/// there are none.
pub fn sample_in_domain(r: &IntRange, dmin: i64, dmax: i64) -> (v: Option<i64>)
    requires
        dmin <= dmax,
    ensures
        v is None <==> range_is_empty(*r, dmin as int, dmax as int),
        v matches Some(x) ==> dmin <= x <= dmax && in_range(*r, x as int),
{
    let lo: i64 = match r.lower {
        Bound::Unbounded => dmin,
        Bound::Inclusive(l) => if l < dmin {
            dmin
        } else {
            l
        },
        Bound::Exclusive(l) => {
            if l >= dmax {
                assert(range_is_empty(*r, dmin as int, dmax as int));
                return None;
            }
            if l < dmin {
                dmin
            } else {
                l + 1
            }
        },
    };
    let hi: i64 = match r.upper {
        Bound::Unbounded => dmax,
        Bound::Inclusive(u) => if u > dmax {
            dmax
        } else {
            u
        },
        Bound::Exclusive(u) => {
            if u <= dmin {
                assert(range_is_empty(*r, dmin as int, dmax as int));
                return None;
            }
            if u > dmax {
                dmax
            } else {
                u - 1
            }
        },
    };
    if lo > hi {
        assert forall|x: int| dmin <= x <= dmax implies !#[trigger] in_range(*r, x) by {}
        return None;
    }
    assert(in_range(*r, lo as int));
    Some(draw_between(lo, hi))
}

/// A draw from the 64-bit integers within `r`.
pub fn random_in_int8range(r: &IntRange) -> (v: Option<i64>)
    ensures
        v is None <==> range_is_empty(*r, i64::MIN as int, i64::MAX as int),
        v matches Some(x) ==> in_range(*r, x as int),
{
    sample_in_domain(r, i64::MIN, i64::MAX)
}

/// A draw from the 64-bit integers, the largest excluded.
pub fn random_bigint() -> (v: Option<i64>)
    ensures
        v matches Some(x) && x < i64::MAX,
{
    let r = IntRange { lower: Bound::Inclusive(i64::MIN), upper: Bound::Exclusive(i64::MAX) };
    assert(in_range(r, i64::MIN as int));
    sample_in_domain(&r, i64::MIN, i64::MAX)
}

/// A draw between `start` and `stop`, both included; `None` when
/// `start > stop`.
pub fn random_bigint_between(start: i64, stop: i64) -> (v: Option<i64>)
    ensures
        v is None <==> start > stop,
        v matches Some(x) ==> start <= x <= stop,
{
    let r = IntRange { lower: Bound::Inclusive(start), upper: Bound::Inclusive(stop) };
    let v = sample_in_domain(&r, i64::MIN, i64::MAX);
    assert(start <= stop ==> in_range(r, start as int));
    v
}

/// A draw from the 32-bit integers within `r`.
pub fn random_in_int4range(r: &IntRange) -> (v: Option<i32>)
    ensures
        v is None <==> range_is_empty(*r, i32::MIN as int, i32::MAX as int),
        v matches Some(x) ==> in_range(*r, x as int),
{
    match sample_in_domain(r, i32::MIN as i64, i32::MAX as i64) {
        Some(x) => Some(x as i32),
        None => None,
    }
}

/// A draw from the 32-bit integers, the largest excluded.
pub fn random_int() -> (v: Option<i32>)
    ensures
        v matches Some(x) && x < i32::MAX,
{
    let r = IntRange {
        lower: Bound::Inclusive(i32::MIN as i64),
        upper: Bound::Exclusive(i32::MAX as i64),
    };
    assert(in_range(r, i32::MIN as int));
    random_in_int4range(&r)
}

/// A draw between `start` and `stop`, both included; `None` when
/// `start > stop`.
pub fn random_int_between(start: i32, stop: i32) -> (v: Option<i32>)
    ensures
        v is None <==> start > stop,
        v matches Some(x) ==> start <= x <= stop,
{
    let r = IntRange { lower: Bound::Inclusive(start as i64), upper: Bound::Inclusive(stop as i64) };
    let v = random_in_int4range(&r);
    assert(start <= stop ==> in_range(r, start as int));
    v
}

/// The template `format` with each `#` replaced by a random digit and each
/// `^` by a random digit other than zero; every other character is kept.
pub fn random_number_with_format(format: &str) -> (r: String)
    ensures
        fills_format(format@, r@),
{
    fill_number_format(format)
}

/// A phone number from the template `format`, filled as
/// [`random_number_with_format`] fills it.
pub fn random_phone_with_format(format: &str) -> (r: String)
    ensures
        fills_format(format@, r@),
{
    fill_number_format(format)
}

/// A ten-digit phone number that starts with `0`.
pub fn random_phone() -> (r: String)
    ensures
        fills_format(seq!['0', '#', '#', '#', '#', '#', '#', '#', '#', '#'], r@),
{
    proof {
        reveal_strlit("0#########");
    }
    fill_number_format("0#########")
}

/// A five-digit postal code.
pub fn random_zip() -> (r: String)
    ensures
        fills_format(seq!['#', '#', '#', '#', '#'], r@),
{
    proof {
        reveal_strlit("#####");
    }
    fill_number_format("#####")
}

/// A string of ASCII letters and digits whose length is drawn from `r`;
/// `None` when `r` admits no length (no non-negative 32-bit integer).
pub fn random_string(r: &IntRange) -> (v: Option<String>)
    ensures
        v is None <==> range_is_empty(*r, 0, i32::MAX as int),
        v matches Some(s) ==> in_range(*r, s@.len() as int) && forall|i: int|
            0 <= i < s@.len() ==> is_alphanumeric(#[trigger] s@[i]),
{
    match sample_in_domain(r, 0, i32::MAX as i64) {
        Some(n) => Some(alphanumeric_string(n as usize)),
        None => None,
    }
}

/// A date, in days from 2000-01-01, within `r`.
pub fn random_in_daterange(r: &IntRange) -> (v: Option<i64>)
    ensures
        v is None <==> range_is_empty(*r, DATE_MIN as int, DATE_MAX as int),
        v matches Some(x) ==> DATE_MIN <= x <= DATE_MAX && in_range(*r, x as int),
{
    sample_in_domain(r, DATE_MIN, DATE_MAX)
}

/// A timestamp, in microseconds from 2000-01-01, within `r`.
pub fn random_in_tsrange(r: &IntRange) -> (v: Option<i64>)
    ensures
        v is None <==> range_is_empty(*r, TIMESTAMP_MIN as int, TIMESTAMP_MAX as int),
        v matches Some(x) ==> TIMESTAMP_MIN <= x <= TIMESTAMP_MAX && in_range(*r, x as int),
{
    sample_in_domain(r, TIMESTAMP_MIN, TIMESTAMP_MAX)
}

/// A timestamp with time zone, in microseconds from 2000-01-01 UTC, within
/// `r`.
pub fn random_in_tstzrange(r: &IntRange) -> (v: Option<i64>)
    ensures
        v is None <==> range_is_empty(*r, TIMESTAMP_MIN as int, TIMESTAMP_MAX as int),
        v matches Some(x) ==> TIMESTAMP_MIN <= x <= TIMESTAMP_MAX && in_range(*r, x as int),
{
    sample_in_domain(r, TIMESTAMP_MIN, TIMESTAMP_MAX)
}

/// A timestamp between `start` and `end`, both included; `None` when
/// `start > end` or when they leave the timestamps.
pub fn random_date_between(start: i64, end: i64) -> (v: Option<i64>)
    ensures
        v is None <==> (start > end || end < TIMESTAMP_MIN || start > TIMESTAMP_MAX),
        v matches Some(x) ==> start <= x <= end && TIMESTAMP_MIN <= x <= TIMESTAMP_MAX,
{
    let r = IntRange { lower: Bound::Inclusive(start), upper: Bound::Inclusive(end) };
    let v = sample_in_domain(&r, TIMESTAMP_MIN, TIMESTAMP_MAX);
    proof {
        let w = if start < TIMESTAMP_MIN { TIMESTAMP_MIN as int } else { start as int };
        if !(start > end || end < TIMESTAMP_MIN || start > TIMESTAMP_MAX) {
            assert(in_range(r, w));
        }
    }
    v
}

/// A timestamp after `t`; `None` when `t` is the latest timestamp or later.
pub fn random_date_after(t: i64) -> (v: Option<i64>)
    ensures
        v is None <==> t >= TIMESTAMP_MAX,
        v matches Some(x) ==> t < x <= TIMESTAMP_MAX,
{
    let r = IntRange { lower: Bound::Exclusive(t), upper: Bound::Unbounded };
    let v = sample_in_domain(&r, TIMESTAMP_MIN, TIMESTAMP_MAX);
    assert(t < TIMESTAMP_MAX ==> in_range(r, TIMESTAMP_MAX as int));
    v
}

/// A timestamp before `t`; `None` when `t` is the earliest timestamp or
/// earlier.
pub fn random_date_before(t: i64) -> (v: Option<i64>)
    ensures
        v is None <==> t <= TIMESTAMP_MIN,
        v matches Some(x) ==> TIMESTAMP_MIN <= x < t,
{
    let r = IntRange { lower: Bound::Unbounded, upper: Bound::Exclusive(t) };
    let v = sample_in_domain(&r, TIMESTAMP_MIN, TIMESTAMP_MAX);
    assert(t > TIMESTAMP_MIN ==> in_range(r, TIMESTAMP_MIN as int));
    v
}

/// Any timestamp.
pub fn random_date() -> (v: i64)
    ensures
        TIMESTAMP_MIN <= v <= TIMESTAMP_MAX,
{
    draw_between(TIMESTAMP_MIN, TIMESTAMP_MAX)
}

/// Any time of day, in microseconds from midnight.
pub fn random_time() -> (v: i64)
    ensures
        0 <= v <= USECS_PER_DAY,
{
    draw_between(0, USECS_PER_DAY)
}

} // verus!
