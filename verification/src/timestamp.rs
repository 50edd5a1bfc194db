//! Timestamps as the notes database stores them: `YYYY-MM-DD HH:MM:SS`, in
//! the Gregorian calendar, written and read back.

use vstd::prelude::*;
use vstd::arithmetic::div_mod::{
    lemma_add_mod_noop,
    lemma_sub_mod_noop,
    lemma_mul_mod_noop_left,
    lemma_small_mod,
};
use crate::text::{split_by, split_by_chars, padded_decimal, push_padded, push_char, decimal, digit_char, zeros};

verus! {

/// 2^64, the modulus of `u64` arithmetic.
pub open spec fn modulus() -> int {
    0x1_0000_0000_0000_0000
}

/// `x` reduced to a `u64`, as wrapping arithmetic leaves it.
pub open spec fn wrap64(x: int) -> u64 {
    (x % modulus()) as u64
}

/// Whether `c` is an ASCII decimal digit.
pub open spec fn is_digit(c: char) -> bool {
    '0' <= c && c <= '9'
}

/// The value of a string of decimal digits.
pub open spec fn digits_value(s: Seq<char>) -> int
    decreases s.len(),
{
    if s.len() == 0 {
        0
    } else {
        digits_value(s.drop_last()) * 10 + (s.last() as int - 48)
    }
}

/// `str::parse::<i64>`: an optional `+` or `-` sign followed by one or more
/// decimal digits, whose value fits in an `i64`; anything else is refused.
/// A number's text without its sign, if it has one.
pub open spec fn unsigned_part(s: Seq<char>) -> Seq<char> {
    if s.len() > 0 && (s[0] == '-' || s[0] == '+') {
        s.drop_first()
    } else {
        s
    }
}

pub open spec fn spec_parse_i64(s: Seq<char>) -> Option<i64> {
    let neg = s.len() > 0 && s[0] == '-';
    let body = unsigned_part(s);
    let v = if neg {
        -digits_value(body)
    } else {
        digits_value(body)
    };
    if body.len() > 0 && (forall|i: int| 0 <= i < body.len() ==> is_digit(#[trigger] body[i]))
        && i64::MIN <= v <= i64::MAX {
        Some(v as i64)
    } else {
        None
    }
}

/// Appending digits never makes a number smaller.
proof fn lemma_digits_prefix(s: Seq<char>, j: int)
    requires
        0 <= j <= s.len(),
        forall|i: int| 0 <= i < s.len() ==> is_digit(#[trigger] s[i]),
    ensures
        digits_value(s) >= digits_value(s.take(j)),
        digits_value(s) >= 0,
    decreases s.len(),
{
    if s.len() > 0 {
        assert forall|i: int| 0 <= i < s.drop_last().len() implies is_digit(#[trigger] s.drop_last()[i]) by {
            assert(s.drop_last()[i] == s[i]);
        }
        if j == s.len() {
            assert(s.take(j) =~= s);
            lemma_digits_prefix(s.drop_last(), 0);
        } else {
            lemma_digits_prefix(s.drop_last(), j);
            assert(s.drop_last().take(j) =~= s.take(j));
        }
        assert(is_digit(s.last()));
    } else {
        assert(s.take(j) =~= s);
    }
}

/// `str::parse::<i64>`: an optional sign, then one or more decimal digits
/// whose value fits in an `i64`.
pub fn parse_i64(s: &str) -> (r: Option<i64>)
    ensures
        r == spec_parse_i64(s@),
{
    let v = crate::text::chars_of(s);
    let n = v.len();
    let signed = n > 0 && (v[0] == '-' || v[0] == '+');
    let neg = n > 0 && v[0] == '-';
    let start: usize = if signed {
        1
    } else {
        0
    };
    let ghost body = if signed {
        v@.drop_first()
    } else {
        v@
    };
    assert(body =~= v@.subrange(start as int, n as int));
    if start >= n {
        return None;
    }
    let mut acc: u64 = 0;
    let mut i: usize = start;
    assert(v@.subrange(start as int, start as int) =~= Seq::<char>::empty());
    while i < n
        invariant
            start <= i <= n,
            n == v@.len(),
            v@ == s@,
            body == v@.subrange(start as int, n as int),
            body == unsigned_part(s@),
            forall|k: int| start <= k < i ==> is_digit(#[trigger] v@[k]),
            acc as int == digits_value(v@.subrange(start as int, i as int)),
            acc <= 9223372036854775808,
        decreases n - i,
    {
        let c = v[i];
        if !('0' <= c && c <= '9') {
            assert(!is_digit(body[i - start]));
            return None;
        }
        let d: u64 = (c as u32 - 48) as u64;
        assert(v@.subrange(start as int, i + 1).drop_last() =~= v@.subrange(start as int, i as int));
        if acc > 922337203685477580 || (acc == 922337203685477580 && d > 8) {
            proof {
                let pre = v@.subrange(start as int, i + 1);
                assert(digits_value(pre) > 9223372036854775808);
                if forall|k: int| 0 <= k < body.len() ==> is_digit(#[trigger] body[k]) {
                    lemma_digits_prefix(body, i + 1 - start);
                    assert(body.take(i + 1 - start) =~= pre);
                }
            }
            return None;
        }
        acc = acc * 10 + d;
        i = i + 1;
    }
    assert(v@.subrange(start as int, n as int) =~= body);
    assert(forall|k: int| 0 <= k < body.len() ==> is_digit(#[trigger] body[k])) by {
        assert forall|k: int| 0 <= k < body.len() implies is_digit(#[trigger] body[k]) by {
            assert(body[k] == v@[k + start]);
        }
    }
    if neg {
        if acc == 9223372036854775808 {
            Some(i64::MIN)
        } else {
            Some(-(acc as i64))
        }
    } else if acc > 9223372036854775807 {
        None
    } else {
        Some(acc as i64)
    }
}

/// The number of leap years of the Gregorian calendar from year 1 to year
/// `y`.
pub open spec fn leaps_through(y: int) -> int {
    y / 4 - y / 100 + y / 400
}

/// The seconds since the epoch that a date and time stand for in the
/// Gregorian calendar (for a year from 1 and a month from 1 to 12): the
/// days of the whole years since 1970 (negative before it), of the months
/// before the month and of the days before the day, then the hour, minute
/// and second. Fields beyond their usual range carry over.
pub open spec fn epoch_seconds(
    year: int,
    month: int,
    day: int,
    hour: int,
    minute: int,
    second: int,
) -> int {
    (365 * (year - 1970) + leaps_through(year - 1) - leaps_through(1969) + days_before_month(year, month)
        + day - 1) * 86400 + hour * 3600 + minute * 60 + second
}

/// The separators between the fields of a stored timestamp.
pub open spec fn datetime_separators() -> Seq<char> {
    seq!['-', ' ', ':']
}

/// What a stored timestamp reads as: the seconds since the epoch, reduced to
/// a `u64` as wrapping arithmetic does, when its first six fields are
/// integers with a year from 1 and a month from 1 to 12; `None` otherwise
/// (the caller then takes the current time).
pub open spec fn spec_parse_datetime(s: Seq<char>) -> Option<u64> {
    let parts = split_by(s, datetime_separators());
    if parts.len() >= 6 {
        match (
            spec_parse_i64(parts[0]),
            spec_parse_i64(parts[1]),
            spec_parse_i64(parts[2]),
            spec_parse_i64(parts[3]),
            spec_parse_i64(parts[4]),
            spec_parse_i64(parts[5]),
        ) {
            (Some(y), Some(mo), Some(d), Some(h), Some(mi), Some(se)) => if y >= 1 && 1 <= mo <= 12 {
                Some(wrap64(epoch_seconds(y as int, mo as int, d as int, h as int, mi as int, se as int)))
            } else {
                None
            },
            _ => None,
        }
    } else {
        None
    }
}

proof fn lemma_i64_as_u64(x: i64)
    ensures
        (x as u64) as int == (x as int) % modulus(),
{
    assert(x < 0 ==> (x as u64) as int == x + 0x1_0000_0000_0000_0000) by (bit_vector);
    assert(x >= 0 ==> (x as u64) as int == x) by (bit_vector);
    if x < 0 {
        assert((x + modulus()) % modulus() == (x as int) % modulus()) by {
            vstd::arithmetic::div_mod::lemma_mod_add_multiples_vanish(x as int, modulus());
        }
        lemma_small_mod((x + modulus()) as nat, modulus() as nat);
    } else {
        lemma_small_mod(x as nat, modulus() as nat);
    }
}

proof fn lemma_wrapping_add(a: u64, b: u64, x: int, y: int)
    requires
        a as int == x % modulus(),
        b as int == y % modulus(),
    ensures
        vstd::wrapping::u64_specs::wrapping_add(a, b) as int == (x + y) % modulus(),
{
    lemma_add_mod_noop(x, y, modulus());
    if a + b > u64::MAX {
        lemma_small_mod((a + b - modulus()) as nat, modulus() as nat);
        vstd::arithmetic::div_mod::lemma_mod_add_multiples_vanish(a + b - modulus(), modulus());
    } else {
        lemma_small_mod((a + b) as nat, modulus() as nat);
    }
}

proof fn lemma_wrapping_sub(a: u64, b: u64, x: int, y: int)
    requires
        a as int == x % modulus(),
        b as int == y % modulus(),
    ensures
        vstd::wrapping::u64_specs::wrapping_sub(a, b) as int == (x - y) % modulus(),
{
    lemma_sub_mod_noop(x, y, modulus());
    if a - b < 0 {
        lemma_small_mod((a - b + modulus()) as nat, modulus() as nat);
        vstd::arithmetic::div_mod::lemma_mod_add_multiples_vanish(a - b, modulus());
    } else {
        lemma_small_mod((a - b) as nat, modulus() as nat);
    }
}

proof fn lemma_wrapping_mul(a: u64, k: u64, x: int)
    requires
        a as int == x % modulus(),
    ensures
        vstd::wrapping::u64_specs::wrapping_mul(a, k) as int == (x * k) % modulus(),
{
    lemma_mul_mod_noop_left(x, k as int, modulus());
}

/// The seconds since the epoch of a stored `YYYY-MM-DD HH:MM:SS` timestamp,
/// or `None` where it does not hold six integer fields (the caller then takes
/// the current time).
pub fn parse_datetime(s: &str) -> (r: Option<u64>)
    ensures
        r == spec_parse_datetime(s@),
{
    let seps = vec!['-', ' ', ':'];
    assert(seps@ =~= datetime_separators());
    let parts = split_by_chars(s, &seps);
    if parts.len() >= 6 {
        let p0 = parse_i64(parts[0].as_str());
        let p1 = parse_i64(parts[1].as_str());
        let p2 = parse_i64(parts[2].as_str());
        let p3 = parse_i64(parts[3].as_str());
        let p4 = parse_i64(parts[4].as_str());
        let p5 = parse_i64(parts[5].as_str());
        assert(parts@[0]@ == split_by(s@, seps@)[0]);
        assert(parts@[1]@ == split_by(s@, seps@)[1]);
        assert(parts@[2]@ == split_by(s@, seps@)[2]);
        assert(parts@[3]@ == split_by(s@, seps@)[3]);
        assert(parts@[4]@ == split_by(s@, seps@)[4]);
        assert(parts@[5]@ == split_by(s@, seps@)[5]);
        match (p0, p1, p2, p3, p4, p5) {
            (Some(year), Some(month), Some(day), Some(hour), Some(min), Some(sec)) => {
                if year < 1 || month < 1 || month > 12 {
                    return None;
                }
                let y = year as u64;
                let d = day as u64;
                let h = hour as u64;
                let mi = min as u64;
                let se = sec as u64;
                proof {
                    lemma_i64_as_u64(year);
                    lemma_i64_as_u64(day);
                    lemma_i64_as_u64(hour);
                    lemma_i64_as_u64(min);
                    lemma_i64_as_u64(sec);
                    lemma_small_mod(1970, modulus() as nat);
                    lemma_small_mod(477, modulus() as nat);
                    lemma_small_mod(1, modulus() as nat);
                }
                let t1 = y.wrapping_sub(1970);
                proof { lemma_wrapping_sub(y, 1970, year as int, 1970); }
                let t2 = t1.wrapping_mul(365);
                proof { lemma_wrapping_mul(t1, 365, year - 1970); }
                let ym1 = y - 1;
                assert(ym1 / 100 <= ym1 / 4);
                let lp: u64 = ym1 / 4 - ym1 / 100 + ym1 / 400;
                assert(lp as int == leaps_through(year - 1));
                proof {
                    lemma_small_mod(lp as nat, modulus() as nat);
                }
                let t3 = lp.wrapping_sub(477);
                proof { lemma_wrapping_sub(lp, 477, leaps_through(year - 1), 477); }
                let t4 = t2.wrapping_add(t3);
                proof {
                    lemma_wrapping_add(t2, t3, (year - 1970) * 365, leaps_through(year - 1) - 477);
                }
                let ms = month_start(y, month as u64);
                proof {
                    lemma_small_mod(ms as nat, modulus() as nat);
                }
                let t5 = t4.wrapping_add(ms);
                proof {
                    lemma_wrapping_add(
                        t4,
                        ms,
                        (year - 1970) * 365 + leaps_through(year - 1) - 477,
                        days_before_month(year as int, month as int),
                    );
                }
                let t6 = t5.wrapping_add(d);
                proof {
                    lemma_wrapping_add(
                        t5,
                        d,
                        (year - 1970) * 365 + leaps_through(year - 1) - 477 + days_before_month(year as int, month as int),
                        day as int,
                    );
                }
                let days = t6.wrapping_sub(1);
                proof {
                    lemma_wrapping_sub(
                        t6,
                        1,
                        (year - 1970) * 365 + leaps_through(year - 1) - 477 + days_before_month(year as int, month as int)
                            + day,
                        1,
                    );
                }
                let ghost days_int: int = 365 * (year - 1970) + leaps_through(year - 1) - leaps_through(1969)
                    + days_before_month(year as int, month as int) + day - 1;
                assert(leaps_through(1969) == 477);
                let u1 = days.wrapping_mul(86400);
                proof { lemma_wrapping_mul(days, 86400, days_int); }
                let u2 = h.wrapping_mul(3600);
                proof { lemma_wrapping_mul(h, 3600, hour as int); }
                let u3 = mi.wrapping_mul(60);
                proof { lemma_wrapping_mul(mi, 60, min as int); }
                let u4 = u1.wrapping_add(u2);
                proof { lemma_wrapping_add(u1, u2, days_int * 86400, hour * 3600); }
                let u5 = u4.wrapping_add(u3);
                proof {
                    lemma_wrapping_add(u4, u3, days_int * 86400 + hour * 3600, min * 60);
                }
                let secs = u5.wrapping_add(se);
                proof {
                    lemma_wrapping_add(
                        u5,
                        se,
                        days_int * 86400 + hour * 3600 + min * 60,
                        sec as int,
                    );
                    assert(secs as int == epoch_seconds(
                        year as int,
                        month as int,
                        day as int,
                        hour as int,
                        min as int,
                        sec as int,
                    ) % modulus());
                }
                Some(secs)
            },
            _ => None,
        }
    } else {
        None
    }
}

/// Whether `y` is a leap year of the Gregorian calendar.
pub open spec fn is_leap(y: int) -> bool {
    (y % 4 == 0 && y % 100 != 0) || y % 400 == 0
}

/// The number of days of the year `y`.
pub open spec fn year_len(y: int) -> int {
    if is_leap(y) {
        366
    } else {
        365
    }
}

/// The number of days of the month `m` (1 to 12) of the year `y`.
pub open spec fn month_len(y: int, m: int) -> int {
    if m == 2 {
        if is_leap(y) {
            29
        } else {
            28
        }
    } else if m == 4 || m == 6 || m == 9 || m == 11 {
        30
    } else {
        31
    }
}

/// The year and the day within it (from 0) that lie `rem` days after the
/// first day of the year `y`: whole years are counted off.
pub open spec fn civil_year(y: int, rem: int) -> (int, int)
    decreases rem,
{
    if rem < year_len(y) || rem < 0 {
        (y, rem)
    } else {
        civil_year(y + 1, rem - year_len(y))
    }
}

/// The month from `m` on, and the day within it (from 0), that day `rem`
/// of the year `y` falls in: whole months are counted off, up to December.
pub open spec fn civil_month(y: int, m: int, rem: int) -> (int, int)
    decreases 12 - m,
{
    if m >= 12 || rem < month_len(y, m) {
        (m, rem)
    } else {
        civil_month(y, m + 1, rem - month_len(y, m))
    }
}

/// The number of days in the `n` years from the year `start` on.
pub open spec fn days_in_years(start: int, n: nat) -> int
    decreases n,
{
    if n == 0 {
        0
    } else {
        days_in_years(start, (n - 1) as nat) + year_len(start + n - 1)
    }
}

/// The number of days of the year `y` before its month `m`.
pub open spec fn days_before_month(y: int, m: int) -> int
    decreases m,
{
    if m <= 1 {
        0
    } else {
        days_before_month(y, m - 1) + month_len(y, m - 1)
    }
}

/// What a stored time that may be NULL reads as: `None` for NULL (the
/// caller then takes the current time), as `spec_parse_datetime` otherwise.
pub open spec fn spec_parse_stored_time(t: Option<String>) -> Option<u64> {
    match t {
        Some(s) => spec_parse_datetime(s@),
        None => None,
    }
}

/// Reads a stored time that may be NULL.
pub fn parse_stored_time(t: &Option<String>) -> (r: Option<u64>)
    ensures
        r == spec_parse_stored_time(*t),
{
    match t {
        Some(s) => parse_datetime(s.as_str()),
        None => None,
    }
}

/// The six fields written for `secs` seconds since the epoch: the
/// Gregorian date that many seconds after 1970-01-01 (year, month from 1,
/// day from 1), then hour, minute and second.
pub open spec fn timestamp_fields(secs: nat) -> Seq<nat> {
    let days = secs / 86400;
    let rem = secs % 86400;
    let (y, doy) = civil_year(1970, days as int);
    let (m, dom) = civil_month(y, 1, doy);
    seq![y as nat, m as nat, (dom + 1) as nat, rem / 3600, (rem % 3600) / 60, rem % 60]
}

/// The text `YYYY-MM-DD HH:MM:SS` of six fields.
pub open spec fn fields_text(f: Seq<nat>) -> Seq<char> {
    padded_decimal(f[0], 4) + seq!['-'] + padded_decimal(f[1], 2) + seq!['-'] + padded_decimal(
        f[2],
        2,
    ) + seq![' '] + padded_decimal(f[3], 2) + seq![':'] + padded_decimal(f[4], 2) + seq![':']
        + padded_decimal(f[5], 2)
}

/// The text that the server writes for `secs` seconds since the epoch.
pub open spec fn timestamp_text(secs: nat) -> Seq<char> {
    fields_text(timestamp_fields(secs))
}

/// The number of days of the year `y`.
fn year_days(y: u64) -> (r: u64)
    ensures
        r == year_len(y as int),
{
    if (y % 4 == 0 && y % 100 != 0) || y % 400 == 0 {
        366
    } else {
        365
    }
}

/// The number of days of the year `y` before its month `m` (1 to 12).
fn month_start(y: u64, m: u64) -> (r: u64)
    requires
        1 <= m <= 12,
    ensures
        r == days_before_month(y as int, m as int),
{
    reveal_with_fuel(days_before_month, 12);
    let leap: u64 = if (y % 4 == 0 && y % 100 != 0) || y % 400 == 0 {
        1
    } else {
        0
    };
    assert(leap == 1 <==> is_leap(y as int));
    if m == 1 {
        0
    } else if m == 2 {
        31
    } else if m == 3 {
        59 + leap
    } else if m == 4 {
        90 + leap
    } else if m == 5 {
        120 + leap
    } else if m == 6 {
        151 + leap
    } else if m == 7 {
        181 + leap
    } else if m == 8 {
        212 + leap
    } else if m == 9 {
        243 + leap
    } else if m == 10 {
        273 + leap
    } else if m == 11 {
        304 + leap
    } else {
        334 + leap
    }
}

/// The number of days of the month `m` of the year `y`.
fn month_days(y: u64, m: u64) -> (r: u64)
    ensures
        r == month_len(y as int, m as int),
{
    if m == 2 {
        if (y % 4 == 0 && y % 100 != 0) || y % 400 == 0 {
            29
        } else {
            28
        }
    } else if m == 4 || m == 6 || m == 9 || m == 11 {
        30
    } else {
        31
    }
}

/// A year lasts as long as the same year four centuries later.
proof fn lemma_year_len_period(y: int)
    ensures
        year_len(y + 400) == year_len(y),
{
    assert((y + 400) % 4 == y % 4);
    assert((y + 400) % 100 == y % 100);
    assert((y + 400) % 400 == y % 400);
}

/// Counting years in two stretches.
proof fn lemma_days_in_years_split(start: int, a: nat, b: nat)
    ensures
        days_in_years(start, a + b) == days_in_years(start, a) + days_in_years(start + a, b),
    decreases b,
{
    if b > 0 {
        lemma_days_in_years_split(start, a, (b - 1) as nat);
        assert(days_in_years(start, a + b) == days_in_years(start, (a + b - 1) as nat) + year_len(
            start + a + b - 1,
        ));
    }
}

/// Years four centuries apart have the same lengths.
proof fn lemma_days_in_years_period(start: int, n: nat)
    ensures
        days_in_years(start + 400, n) == days_in_years(start, n),
    decreases n,
{
    if n > 0 {
        lemma_days_in_years_period(start, (n - 1) as nat);
        lemma_year_len_period(start + n - 1);
    }
}

proof fn lemma_leap_step(y: int)
    requires
        y >= 1,
    ensures
        leaps_through(y) - leaps_through(y - 1) == (if is_leap(y) {
            1int
        } else {
            0int
        }),
{
    assert(y / 4 - (y - 1) / 4 == (if y % 4 == 0 { 1int } else { 0int }));
    assert(y / 100 - (y - 1) / 100 == (if y % 100 == 0 { 1int } else { 0int }));
    assert(y / 400 - (y - 1) / 400 == (if y % 400 == 0 { 1int } else { 0int }));
    assert(y % 400 == 0 ==> y % 100 == 0 && y % 4 == 0);
    assert(y % 100 == 0 ==> y % 4 == 0);
}

/// The days of `n` years from `start` on, counted by the leap years among
/// them.
proof fn lemma_days_in_years_closed(start: int, n: nat)
    requires
        start >= 1,
    ensures
        days_in_years(start, n) == 365 * n + leaps_through(start + n - 1) - leaps_through(start - 1),
    decreases n,
{
    if n > 0 {
        lemma_days_in_years_closed(start, (n - 1) as nat);
        lemma_leap_step(start + n - 1);
    }
}

/// Every four centuries from 1970 on last 146097 days.
proof fn lemma_four_centuries(k: nat)
    ensures
        days_in_years(1970 + 400 * k as int, 400) == 146097,
        days_in_years(1970, 400 * k) == 146097 * k,
    decreases k,
{
    if k == 0 {
        lemma_days_in_years_closed(1970, 400);
    } else {
        lemma_four_centuries((k - 1) as nat);
        lemma_days_in_years_period(1970 + 400 * (k - 1), 400);
        assert(1970 + 400 * (k - 1) + 400 == 1970 + 400 * k);
        lemma_days_in_years_split(1970, (400 * (k - 1)) as nat, 400);
        assert(400 * (k - 1) + 400 == 400 * k);
    }
}

/// A year has at least one day, so the years counted are never fewer.
proof fn lemma_days_in_years_nonneg(start: int, n: nat)
    ensures
        days_in_years(start, n) >= 0,
    decreases n,
{
    if n > 0 {
        lemma_days_in_years_nonneg(start, (n - 1) as nat);
    }
}

/// Counting off `n` whole years first gives the same date.
proof fn lemma_civil_year_skip(y: int, rem: int, n: nat)
    requires
        rem >= days_in_years(y, n),
    ensures
        civil_year(y, rem) == civil_year(y + n, rem - days_in_years(y, n)),
    decreases n,
{
    if n > 0 {
        lemma_days_in_years_nonneg(y, (n - 1) as nat);
        lemma_civil_year_skip(y, rem, (n - 1) as nat);
        let r1 = rem - days_in_years(y, (n - 1) as nat);
        assert(r1 >= year_len(y + n - 1));
        assert(civil_year(y + n - 1, r1) == civil_year(y + n, r1 - year_len(y + n - 1)));
    }
}

/// The year found lies no further from `y` than the days counted.
proof fn lemma_civil_year_bounds(y: int, rem: int)
    requires
        rem >= 0,
    ensures
        civil_year(y, rem).0 >= y,
        civil_year(y, rem).0 <= y + rem,
        0 <= civil_year(y, rem).1 < year_len(civil_year(y, rem).0),
        days_in_years(y, (civil_year(y, rem).0 - y) as nat) + civil_year(y, rem).1 == rem,
    decreases rem,
{
    if rem >= year_len(y) {
        lemma_civil_year_bounds(y + 1, rem - year_len(y));
        let z = civil_year(y + 1, rem - year_len(y)).0;
        lemma_days_in_years_split(y, 1, (z - y - 1) as nat);
        assert(days_in_years(y, 0) == 0);
        assert(days_in_years(y, 1) == year_len(y));
        assert(1 + (z - y - 1) == z - y);
    }
}

/// The months of a year add up to the year.
proof fn lemma_months_fill_year(y: int)
    ensures
        days_before_month(y, 12) + month_len(y, 12) == year_len(y),
{
    reveal_with_fuel(days_before_month, 13);
}

/// Counting off months stays within December and within the month found.
proof fn lemma_civil_month_bounds(y: int, m: int, rem: int)
    requires
        1 <= m <= 12,
        rem >= 0,
        days_before_month(y, m) + rem < year_len(y),
    ensures
        m <= civil_month(y, m, rem).0 <= 12,
        0 <= civil_month(y, m, rem).1 < month_len(y, civil_month(y, m, rem).0),
        days_before_month(y, civil_month(y, m, rem).0) + civil_month(y, m, rem).1 == days_before_month(y, m)
            + rem,
    decreases 12 - m,
{
    lemma_months_fill_year(y);
    if m < 12 && rem >= month_len(y, m) {
        lemma_civil_month_bounds(y, m + 1, rem - month_len(y, m));
    } else if m == 12 {
        assert(rem < month_len(y, 12));
    }
}

/// What the server writes is a real date and time: a month from 1 to 12, a
/// day within that month, an hour below 24, a minute and a second below
/// 60, and the date is the one lying `secs / 86400` whole days after
/// 1970-01-01 in the Gregorian calendar.
pub proof fn law_timestamp_is_a_real_date(secs: nat)
    ensures
        ({
            let f = timestamp_fields(secs);
            &&& 1970 <= f[0] <= 1970 + secs / 86400
            &&& 1 <= f[1] <= 12
            &&& 1 <= f[2] <= month_len(f[0] as int, f[1] as int)
            &&& f[3] < 24 && f[4] < 60 && f[5] < 60
            &&& days_in_years(1970, (f[0] - 1970) as nat) + days_before_month(f[0] as int, f[1] as int)
                + f[2] - 1 == secs / 86400
        }),
{
    let days = (secs / 86400) as int;
    lemma_civil_year_bounds(1970, days);
    let (y, doy) = civil_year(1970, days);
    assert(days_before_month(y, 1) == 0);
    lemma_civil_month_bounds(y, 1, doy);
}

/// Whether the fields `a` come no later than the fields `b`, compared
/// from the year down to the second.
pub open spec fn fields_le(a: Seq<nat>, b: Seq<nat>) -> bool
    decreases a.len(),
{
    if a.len() == 0 || b.len() == 0 {
        true
    } else if a[0] != b[0] {
        a[0] < b[0]
    } else {
        fields_le(a.drop_first(), b.drop_first())
    }
}

/// The days from 1970-01-01 to a date.
pub open spec fn day_number(y: int, m: int, d: int) -> int {
    days_in_years(1970, (y - 1970) as nat) + days_before_month(y, m) + d - 1
}

proof fn lemma_days_before_month_grows(y: int, a: int, b: int)
    requires
        1 <= a <= b <= 12,
    ensures
        days_before_month(y, b) >= days_before_month(y, a) + (if a < b { month_len(y, a) } else { 0 }),
    decreases b - a,
{
    if a < b {
        lemma_days_before_month_grows(y, a, b - 1);
    }
}

/// A later date has a larger day number.
proof fn lemma_day_number_orders(y1: int, m1: int, d1: int, y2: int, m2: int, d2: int)
    requires
        y1 >= 1970 && 1 <= m1 <= 12 && 1 <= d1 <= month_len(y1, m1),
        y2 >= 1970 && 1 <= m2 <= 12 && 1 <= d2 <= month_len(y2, m2),
        y1 < y2 || (y1 == y2 && (m1 < m2 || (m1 == m2 && d1 < d2))),
    ensures
        day_number(y1, m1, d1) < day_number(y2, m2, d2),
{
    lemma_months_fill_year(y1);
    lemma_days_before_month_grows(y1, m1, 12);
    if y1 < y2 {
        lemma_days_in_years_split(1970, (y1 - 1970) as nat, (y2 - y1) as nat);
        lemma_days_in_years_nonneg(y1 + 1, (y2 - y1 - 1) as nat);
        lemma_days_in_years_split(y1, 1, (y2 - y1 - 1) as nat);
        assert(days_in_years(y1, 0) == 0);
        assert(days_in_years(y1, 1) == year_len(y1));
        assert(days_before_month(y2, m2) >= 0) by {
            lemma_days_before_month_grows(y2, 1, m2);
        }
    } else if m1 < m2 {
        lemma_days_before_month_grows(y1, m1, m2);
    }
}

/// Timestamps are written in the order of the clock: a later second never
/// gets earlier fields, and two readings get the same fields exactly when
/// they fall in the same second.
pub proof fn law_timestamp_fields_follow_the_clock(s1: nat, s2: nat)
    requires
        s1 <= s2,
    ensures
        fields_le(timestamp_fields(s1), timestamp_fields(s2)),
        lex6(timestamp_fields(s1), timestamp_fields(s2)),
        timestamp_fields(s1) == timestamp_fields(s2) <==> s1 == s2,
{
    let f1 = timestamp_fields(s1);
    let f2 = timestamp_fields(s2);
    law_timestamp_is_a_real_date(s1);
    law_timestamp_is_a_real_date(s2);
    let dn1 = s1 / 86400;
    let dn2 = s2 / 86400;
    let r1 = s1 % 86400;
    let r2 = s2 % 86400;
    assert(r1 == f1[3] * 3600 + f1[4] * 60 + f1[5]);
    assert(r2 == f2[3] * 3600 + f2[4] * 60 + f2[5]);
    assert(day_number(f1[0] as int, f1[1] as int, f1[2] as int) == dn1);
    assert(day_number(f2[0] as int, f2[1] as int, f2[2] as int) == dn2);
    if dn1 < dn2 {
        if !(f1[0] < f2[0] || (f1[0] == f2[0] && (f1[1] < f2[1] || (f1[1] == f2[1] && f1[2] < f2[2])))) {
            if f1[0] == f2[0] && f1[1] == f2[1] && f1[2] == f2[2] {
            } else {
                lemma_day_number_orders(
                    f2[0] as int,
                    f2[1] as int,
                    f2[2] as int,
                    f1[0] as int,
                    f1[1] as int,
                    f1[2] as int,
                );
            }
        }
        assert(f1 != f2);
    } else {
        assert(dn1 == dn2);
        assert(f1[0] == f2[0] && f1[1] == f2[1] && f1[2] == f2[2]);
        assert(r1 <= r2);
        assert(f1[3] < f2[3] || (f1[3] == f2[3] && (f1[4] < f2[4] || (f1[4] == f2[4] && f1[5] <= f2[5]))));
        if f1 == f2 {
            assert(r1 == r2);
        }
        if s1 == s2 {
            assert(f1 =~= f2);
        }
    }
    reveal_with_fuel(fields_le, 7);
    assert(f1.drop_first()[0] == f1[1]);
    assert(f1.drop_first().drop_first()[0] == f1[2]);
    assert(f2.drop_first()[0] == f2[1]);
    assert(f2.drop_first().drop_first()[0] == f2[2]);
    assert(f1.drop_first().drop_first().drop_first()[0] == f1[3]);
    assert(f2.drop_first().drop_first().drop_first()[0] == f2[3]);
    assert(f1.drop_first().drop_first().drop_first().drop_first()[0] == f1[4]);
    assert(f2.drop_first().drop_first().drop_first().drop_first()[0] == f2[4]);
    assert(f1.drop_first().drop_first().drop_first().drop_first().drop_first()[0] == f1[5]);
    assert(f2.drop_first().drop_first().drop_first().drop_first().drop_first()[0] == f2[5]);
}

/// Whether the text `a` comes no later than `b` character by character: the
/// first character that differs decides, and a text comes after its own
/// beginning.
pub open spec fn text_le(a: Seq<char>, b: Seq<char>) -> bool
    decreases a.len(),
{
    if a.len() == 0 {
        true
    } else if b.len() == 0 {
        false
    } else if a[0] != b[0] {
        (a[0] as int) < (b[0] as int)
    } else {
        text_le(a.drop_first(), b.drop_first())
    }
}

/// A common beginning does not change the order; a smaller beginning of the
/// same length decides it.
proof fn lemma_text_le_concat(a: Seq<char>, b: Seq<char>, r1: Seq<char>, r2: Seq<char>)
    requires
        a.len() == b.len(),
    ensures
        a == b ==> text_le(a + r1, b + r2) == text_le(r1, r2),
        a != b && text_le(a, b) ==> text_le(a + r1, b + r2),
    decreases a.len(),
{
    if a.len() > 0 {
        assert((a + r1)[0] == a[0] && (b + r2)[0] == b[0]);
        assert((a + r1).drop_first() =~= a.drop_first() + r1);
        assert((b + r2).drop_first() =~= b.drop_first() + r2);
        lemma_text_le_concat(a.drop_first(), b.drop_first(), r1, r2);
        if a[0] == b[0] && a.drop_first() == b.drop_first() {
            assert(a =~= b) by {
                assert forall|i: int| 0 <= i < a.len() implies a[i] == b[i] by {
                    if i > 0 {
                        assert(a[i] == a.drop_first()[i - 1]);
                        assert(b[i] == b.drop_first()[i - 1]);
                    }
                }
            }
        }
    } else {
        assert(a + r1 =~= r1);
        assert(b + r2 =~= r2);
        assert(a =~= b);
    }
}

/// Texts of the same length that agree before position `k` and have a
/// smaller character there: the first comes first, and they differ.
proof fn lemma_text_first_difference(a: Seq<char>, b: Seq<char>, k: int)
    requires
        a.len() == b.len(),
        0 <= k < a.len(),
        forall|i: int| 0 <= i < k ==> a[i] == b[i],
        (a[k] as int) < (b[k] as int),
    ensures
        text_le(a, b),
        a != b,
    decreases k,
{
    if k > 0 {
        assert forall|i: int| 0 <= i < k - 1 implies a.drop_first()[i] == b.drop_first()[i] by {
            assert(a[i + 1] == b[i + 1]);
        }
        lemma_text_first_difference(a.drop_first(), b.drop_first(), k - 1);
        assert(a[0] == b[0]);
    }
    assert(a[k] != b[k]);
}

proof fn lemma_padded_two(n: nat)
    requires
        n < 100,
    ensures
        padded_decimal(n, 2) == seq![digit_char(n / 10), digit_char(n % 10)],
{
    if n < 10 {
        assert(digit_char(0) == '0') by {
            lemma_digit_char(0);
        }
        assert(padded_decimal(n, 2) =~= seq![digit_char(n / 10), digit_char(n % 10)]);
    } else {
        assert(decimal(n) == decimal(n / 10).push(digit_char(n % 10)));
        assert(decimal(n / 10) == seq![digit_char(n / 10)]);
        assert(padded_decimal(n, 2) =~= seq![digit_char(n / 10), digit_char(n % 10)]);
    }
}

#[verifier::rlimit(40)]
proof fn lemma_padded_four(n: nat)
    requires
        n < 10000,
    ensures
        padded_decimal(n, 4) == seq![
            digit_char(n / 1000),
            digit_char((n / 100) % 10),
            digit_char((n / 10) % 10),
            digit_char(n % 10),
        ],
{
    assert(digit_char(0) == '0') by {
        lemma_digit_char(0);
    }
    let e = seq![digit_char(n / 1000), digit_char((n / 100) % 10), digit_char((n / 10) % 10), digit_char(n % 10)];
    if n < 10 {
        assert(padded_decimal(n, 4) =~= e);
    } else if n < 100 {
        assert(decimal(n) == decimal(n / 10).push(digit_char(n % 10)));
        assert(decimal(n / 10) == seq![digit_char(n / 10)]);
        assert((n / 10) % 10 == n / 10);
        assert(padded_decimal(n, 4) =~= e);
    } else if n < 1000 {
        assert(decimal(n) == decimal(n / 10).push(digit_char(n % 10)));
        assert(decimal(n / 10) == decimal(n / 100).push(digit_char((n / 10) % 10)));
        assert(decimal(n / 100) == seq![digit_char(n / 100)]);
        assert(n / 10 / 10 == n / 100);
        assert((n / 100) % 10 == n / 100);
        assert(padded_decimal(n, 4) =~= e);
    } else {
        assert(decimal(n) == decimal(n / 10).push(digit_char(n % 10)));
        assert(decimal(n / 10) == decimal(n / 100).push(digit_char((n / 10) % 10)));
        assert(decimal(n / 100) == decimal(n / 1000).push(digit_char((n / 100) % 10)));
        assert(decimal(n / 1000) == seq![digit_char(n / 1000)]);
        assert(n / 10 / 10 == n / 100);
        assert(n / 100 / 10 == n / 1000);
        assert(padded_decimal(n, 4) =~= e);
    }
}

/// Two-digit texts compare like their numbers.
proof fn lemma_two_digits_order(n1: nat, n2: nat)
    requires
        n1 < n2 < 100,
    ensures
        text_le(padded_decimal(n1, 2), padded_decimal(n2, 2)),
        padded_decimal(n1, 2) != padded_decimal(n2, 2),
{
    lemma_padded_two(n1);
    lemma_padded_two(n2);
    let a = padded_decimal(n1, 2);
    let b = padded_decimal(n2, 2);
    lemma_digit_char(n1 / 10);
    lemma_digit_char(n2 / 10);
    lemma_digit_char(n1 % 10);
    lemma_digit_char(n2 % 10);
    if n1 / 10 < n2 / 10 {
        lemma_text_first_difference(a, b, 0);
    } else {
        assert(n1 / 10 == n2 / 10);
        lemma_text_first_difference(a, b, 1);
    }
}

proof fn lemma_four_digit_lex(n1: nat, n2: nat)
    requires
        n1 < n2 < 10000,
    ensures
        ({
            let (x0, x1, x2, x3) = (n1 / 1000, (n1 / 100) % 10, (n1 / 10) % 10, n1 % 10);
            let (y0, y1, y2, y3) = (n2 / 1000, (n2 / 100) % 10, (n2 / 10) % 10, n2 % 10);
            &&& x0 < 10 && x1 < 10 && x2 < 10 && x3 < 10 && y0 < 10 && y1 < 10 && y2 < 10 && y3 < 10
            &&& (x0 < y0 || (x0 == y0 && (x1 < y1 || (x1 == y1 && (x2 < y2 || (x2 == y2 && x3 < y3))))))
        }),
{
    let (x0, x1, x2, x3) = (n1 / 1000, (n1 / 100) % 10, (n1 / 10) % 10, n1 % 10);
    let (y0, y1, y2, y3) = (n2 / 1000, (n2 / 100) % 10, (n2 / 10) % 10, n2 % 10);
    assert(n1 / 100 == 10 * x0 + x1);
    assert(n1 / 10 == 10 * (n1 / 100) + x2);
    assert(n1 == 10 * (n1 / 10) + x3);
    assert(n2 / 100 == 10 * y0 + y1);
    assert(n2 / 10 == 10 * (n2 / 100) + y2);
    assert(n2 == 10 * (n2 / 10) + y3);
}

/// Four-digit texts compare like their numbers.
proof fn lemma_four_digits_order(n1: nat, n2: nat)
    requires
        n1 < n2 < 10000,
    ensures
        text_le(padded_decimal(n1, 4), padded_decimal(n2, 4)),
        padded_decimal(n1, 4) != padded_decimal(n2, 4),
{
    lemma_padded_four(n1);
    lemma_padded_four(n2);
    lemma_four_digit_lex(n1, n2);
    let (x0, x1, x2, x3) = (n1 / 1000, (n1 / 100) % 10, (n1 / 10) % 10, n1 % 10);
    let (y0, y1, y2, y3) = (n2 / 1000, (n2 / 100) % 10, (n2 / 10) % 10, n2 % 10);
    let a = seq![digit_char(x0), digit_char(x1), digit_char(x2), digit_char(x3)];
    let b = seq![digit_char(y0), digit_char(y1), digit_char(y2), digit_char(y3)];
    lemma_digits_lex(x0, x1, x2, x3, y0, y1, y2, y3);
}

proof fn lemma_digits_lex(x0: nat, x1: nat, x2: nat, x3: nat, y0: nat, y1: nat, y2: nat, y3: nat)
    requires
        x0 < 10 && x1 < 10 && x2 < 10 && x3 < 10 && y0 < 10 && y1 < 10 && y2 < 10 && y3 < 10,
        x0 < y0 || (x0 == y0 && (x1 < y1 || (x1 == y1 && (x2 < y2 || (x2 == y2 && x3 < y3))))),
    ensures
        ({
            let a = seq![digit_char(x0), digit_char(x1), digit_char(x2), digit_char(x3)];
            let b = seq![digit_char(y0), digit_char(y1), digit_char(y2), digit_char(y3)];
            text_le(a, b) && a != b
        }),
{
    let a = seq![digit_char(x0), digit_char(x1), digit_char(x2), digit_char(x3)];
    let b = seq![digit_char(y0), digit_char(y1), digit_char(y2), digit_char(y3)];
    lemma_digit_char(x0);
    lemma_digit_char(x1);
    lemma_digit_char(x2);
    lemma_digit_char(x3);
    lemma_digit_char(y0);
    lemma_digit_char(y1);
    lemma_digit_char(y2);
    lemma_digit_char(y3);
    if x0 != y0 {
        lemma_text_first_difference(a, b, 0);
    } else if x1 != y1 {
        lemma_text_first_difference(a, b, 1);
    } else if x2 != y2 {
        lemma_text_first_difference(a, b, 2);
    } else {
        lemma_text_first_difference(a, b, 3);
    }
}

proof fn lemma_block(n1: nat, n2: nat, w: nat, r1: Seq<char>, r2: Seq<char>)
    requires
        n1 <= n2,
        (w == 2 && n2 < 100) || (w == 4 && n2 < 10000),
    ensures
        n1 == n2 ==> text_le(padded_decimal(n1, w) + r1, padded_decimal(n2, w) + r2) == text_le(r1, r2),
        n1 < n2 ==> text_le(padded_decimal(n1, w) + r1, padded_decimal(n2, w) + r2),
{
    if w == 2 {
        lemma_padded_two(n1);
        lemma_padded_two(n2);
        if n1 < n2 {
            lemma_two_digits_order(n1, n2);
        }
    } else {
        lemma_padded_four(n1);
        lemma_padded_four(n2);
        if n1 < n2 {
            lemma_four_digits_order(n1, n2);
        }
    }
    lemma_text_le_concat(padded_decimal(n1, w), padded_decimal(n2, w), r1, r2);
}

proof fn lemma_separator(c: char, r1: Seq<char>, r2: Seq<char>)
    ensures
        text_le(seq![c] + r1, seq![c] + r2) == text_le(r1, r2),
{
    lemma_text_le_concat(seq![c], seq![c], r1, r2);
}

/// Whether the fields `a` come no later than `b`, written out for six
/// fields.
pub open spec fn lex6(a: Seq<nat>, b: Seq<nat>) -> bool {
    ||| a[0] < b[0]
    ||| a[0] == b[0] && a[1] < b[1]
    ||| a[0] == b[0] && a[1] == b[1] && a[2] < b[2]
    ||| a[0] == b[0] && a[1] == b[1] && a[2] == b[2] && a[3] < b[3]
    ||| a[0] == b[0] && a[1] == b[1] && a[2] == b[2] && a[3] == b[3] && a[4] < b[4]
    ||| a[0] == b[0] && a[1] == b[1] && a[2] == b[2] && a[3] == b[3] && a[4] == b[4] && a[5] <= b[5]
}

/// The text of fields nested to the right, one field and separator at a
/// time.
spec fn nested_text(f: Seq<nat>) -> Seq<char> {
    padded_decimal(f[0], 4) + (seq!['-'] + (padded_decimal(f[1], 2) + (seq!['-'] + (padded_decimal(f[2], 2) + (
    seq![' '] + (padded_decimal(f[3], 2) + (seq![':'] + (padded_decimal(f[4], 2) + (seq![':']
        + padded_decimal(f[5], 2))))))))))
}

#[verifier::rlimit(60)]
proof fn lemma_fields_text_order(f1: Seq<nat>, f2: Seq<nat>)
    requires
        f1.len() == 6 && f2.len() == 6,
        lex6(f1, f2),
        f2[0] < 10000,
        f1[1] < 100 && f1[2] < 100 && f1[3] < 100 && f1[4] < 100 && f1[5] < 100,
        f2[1] < 100 && f2[2] < 100 && f2[3] < 100 && f2[4] < 100 && f2[5] < 100,
    ensures
        text_le(nested_text(f1), nested_text(f2)),
{
    let t5_1 = padded_decimal(f1[5], 2);
    let t5_2 = padded_decimal(f2[5], 2);
    let t4_1 = padded_decimal(f1[4], 2) + (seq![':'] + t5_1);
    let t4_2 = padded_decimal(f2[4], 2) + (seq![':'] + t5_2);
    let t3_1 = padded_decimal(f1[3], 2) + (seq![':'] + t4_1);
    let t3_2 = padded_decimal(f2[3], 2) + (seq![':'] + t4_2);
    let t2_1 = padded_decimal(f1[2], 2) + (seq![' '] + t3_1);
    let t2_2 = padded_decimal(f2[2], 2) + (seq![' '] + t3_2);
    let t1_1 = padded_decimal(f1[1], 2) + (seq!['-'] + t2_1);
    let t1_2 = padded_decimal(f2[1], 2) + (seq!['-'] + t2_2);
    lemma_separator(':', t5_1, t5_2);
    lemma_separator(':', t4_1, t4_2);
    lemma_separator(' ', t3_1, t3_2);
    lemma_separator('-', t2_1, t2_2);
    lemma_separator('-', t1_1, t1_2);
    lemma_block(f1[0], f2[0], 4, seq!['-'] + t1_1, seq!['-'] + t1_2);
    if f1[0] == f2[0] {
        lemma_block(f1[1], f2[1], 2, seq!['-'] + t2_1, seq!['-'] + t2_2);
        if f1[1] == f2[1] {
            lemma_block(f1[2], f2[2], 2, seq![' '] + t3_1, seq![' '] + t3_2);
            if f1[2] == f2[2] {
                lemma_block(f1[3], f2[3], 2, seq![':'] + t4_1, seq![':'] + t4_2);
                if f1[3] == f2[3] {
                    lemma_block(f1[4], f2[4], 2, seq![':'] + t5_1, seq![':'] + t5_2);
                    if f1[4] == f2[4] {
                        lemma_block(f1[5], f2[5], 2, Seq::<char>::empty(), Seq::<char>::empty());
                        assert(t5_1 + Seq::<char>::empty() =~= t5_1);
                        assert(t5_2 + Seq::<char>::empty() =~= t5_2);
                        assert(text_le(Seq::<char>::empty(), Seq::<char>::empty()));
                    }
                }
            }
        }
    }
}

/// Timestamp texts are ordered like the clock: for readings in years
/// before 10000, a later second never gets a text that sorts earlier,
/// character by character (and so byte by byte, the text being ASCII), and
/// two readings get the same text exactly when they are the same second.
pub proof fn law_timestamp_texts_follow_the_clock(s1: u64, s2: u64)
    requires
        s1 <= s2,
        timestamp_fields(s2 as nat)[0] < 10000,
    ensures
        text_le(timestamp_text(s1 as nat), timestamp_text(s2 as nat)),
        timestamp_text(s1 as nat) == timestamp_text(s2 as nat) <==> s1 == s2,
{
    law_timestamp_reads_back(s1);
    law_timestamp_reads_back(s2);
    law_timestamp_fields_follow_the_clock(s1 as nat, s2 as nat);
    law_timestamp_is_a_real_date(s1 as nat);
    law_timestamp_is_a_real_date(s2 as nat);
    let f1 = timestamp_fields(s1 as nat);
    let f2 = timestamp_fields(s2 as nat);
    lemma_nested_text(f1);
    lemma_nested_text(f2);
    lemma_fields_text_order(f1, f2);
}

proof fn lemma_nested_text(f: Seq<nat>)
    ensures
        fields_text(f) == nested_text(f),
{
    assert(fields_text(f) =~= nested_text(f));
}

/// The timestamp text for `secs` seconds since the epoch.
pub fn format_timestamp(secs: u64) -> (r: String)
    ensures
        r@ == timestamp_text(secs as nat),
{
    let days = secs / 86400;
    let remaining = secs % 86400;
    let hours = remaining / 3600;
    let remaining2 = remaining % 3600;
    let minutes = remaining2 / 60;
    let seconds = remaining2 % 60;
    // Whole four-century cycles first, then the remaining years and months.
    let cycles = days / 146097;
    let mut rem = days % 146097;
    assert(days <= 213503982334601);
    assert(days == cycles * 146097 + days % 146097);
    assert(cycles <= 1461385123);
    let mut year: u64 = 1970 + 400 * cycles;
    proof {
        lemma_four_centuries(cycles as nat);
        assert(days == cycles * 146097 + rem);
        lemma_civil_year_skip(1970, days as int, (400 * cycles) as nat);
    }
    while rem >= year_days(year)
        invariant
            rem < 146097,
            year + rem <= 1970 + 400 * cycles + 146097,
            cycles <= 1461385123,
            civil_year(year as int, rem as int) == civil_year(1970, days as int),
        decreases rem,
    {
        let yl = year_days(year);
        rem = rem - yl;
        year = year + 1;
    }
    let ghost y = year as int;
    assert(civil_year(y, rem as int) == (y, rem as int));
    let mut month: u64 = 1;
    while month < 12 && rem >= month_days(year, month)
        invariant
            1 <= month <= 12,
            year as int == y,
            rem < 146097,
            civil_month(y, month as int, rem as int) == civil_month(y, 1, civil_year(1970, days as int).1),
        decreases 12 - month,
    {
        let ml = month_days(year, month);
        rem = rem - ml;
        month = month + 1;
    }
    let day = rem + 1;
    let ghost f = seq![
        year as nat,
        month as nat,
        day as nat,
        hours as nat,
        minutes as nat,
        seconds as nat,
    ];
    assert(f =~= timestamp_fields(secs as nat));
    let mut s = String::new();
    push_padded(&mut s, year, 4);
    push_char(&mut s, '-');
    push_padded(&mut s, month, 2);
    push_char(&mut s, '-');
    push_padded(&mut s, day, 2);
    push_char(&mut s, ' ');
    push_padded(&mut s, hours, 2);
    push_char(&mut s, ':');
    push_padded(&mut s, minutes, 2);
    push_char(&mut s, ':');
    push_padded(&mut s, seconds, 2);
    assert(s@ =~= fields_text(f));
    s
}

#[verifier::external_type_specification]
#[verifier::external_body]
pub struct ExSystemTime(std::time::SystemTime);

/// `SystemTime::now`: what the system clock reads. It depends on the clock:
/// nothing is stated.
#[verifier::external_body]
fn system_now() -> (r: std::time::SystemTime) {
    std::time::SystemTime::now()
}

/// `SystemTime::duration_since(UNIX_EPOCH)`, in whole seconds: `None` for a
/// time before the epoch. Nothing is stated of the value: the time is
/// opaque here.
#[verifier::external_body]
fn secs_since_epoch(t: std::time::SystemTime) -> (r: Option<u64>) {
    match t.duration_since(std::time::UNIX_EPOCH) {
        Ok(d) => Some(d.as_secs()),
        Err(_) => None,
    }
}

/// The current time as timestamp text, or `None` when the system clock reads
/// a time before the epoch.
pub fn current_timestamp() -> (r: Option<String>)
    ensures
        r matches Some(t) ==> exists|secs: u64| t@ == timestamp_text(secs as nat),
{
    match secs_since_epoch(system_now()) {
        Some(secs) => {
            let t = format_timestamp(secs);
            assert(t@ == timestamp_text(secs as nat));
            Some(t)
        },
        None => None,
    }
}

proof fn lemma_digit_char(d: nat)
    requires
        d < 10,
    ensures
        is_digit(digit_char(d)),
        digit_char(d) as int - 48 == d,
{
    let b: u8 = (d + 48) as u8;
    assert(b as int == d + 48);
    assert((b as char) as int == b as int);
}

proof fn lemma_decimal_digits(n: nat)
    ensures
        decimal(n).len() >= 1,
        forall|i: int| 0 <= i < decimal(n).len() ==> is_digit(#[trigger] decimal(n)[i]),
        digits_value(decimal(n)) == n,
    decreases n,
{
    if n < 10 {
        lemma_digit_char(n);
        assert(decimal(n).drop_last() =~= Seq::<char>::empty());
        assert(decimal(n).last() == digit_char(n));
        assert(digits_value(Seq::<char>::empty()) == 0);
        assert(digits_value(decimal(n)) == digits_value(decimal(n).drop_last()) * 10 + (
        decimal(n).last() as int - 48));
    } else {
        lemma_decimal_digits(n / 10);
        lemma_digit_char(n % 10);
        assert(decimal(n).drop_last() =~= decimal(n / 10));
        assert(decimal(n).last() == digit_char(n % 10));
        assert(digits_value(decimal(n)) == digits_value(decimal(n / 10)) * 10 + (n % 10));
        assert((n / 10) * 10 + n % 10 == n);
    }
}

proof fn lemma_leading_zeros(k: nat, s: Seq<char>)
    ensures
        digits_value(zeros(k) + s) == digits_value(s),
    decreases s.len(), k,
{
    if s.len() == 0 {
        assert(zeros(k) + s =~= zeros(k));
        if k > 0 {
            assert(zeros(k).drop_last() =~= zeros((k - 1) as nat));
            lemma_leading_zeros((k - 1) as nat, s);
            assert(zeros((k - 1) as nat) + s =~= zeros((k - 1) as nat));
        }
    } else {
        assert((zeros(k) + s).drop_last() =~= zeros(k) + s.drop_last());
        lemma_leading_zeros(k, s.drop_last());
    }
}

/// A zero-padded decimal reads back as the number it shows.
proof fn lemma_parse_padded(n: nat, w: nat)
    requires
        n <= i64::MAX,
    ensures
        spec_parse_i64(padded_decimal(n, w)) == Some(n as i64),
{
    let d = decimal(n);
    lemma_decimal_digits(n);
    let s = padded_decimal(n, w);
    if d.len() < w {
        lemma_leading_zeros((w - d.len()) as nat, d);
        assert forall|i: int| 0 <= i < s.len() implies is_digit(#[trigger] s[i]) by {
            if i >= w - d.len() {
                assert(s[i] == d[i - (w - d.len())]);
            }
        }
    }
    assert(is_digit(s[0]));
}

proof fn lemma_split_without_separator(a: Seq<char>, seps: Seq<char>)
    requires
        forall|i: int| 0 <= i < a.len() ==> !seps.contains(#[trigger] a[i]),
    ensures
        split_by(a, seps) == seq![a],
    decreases a.len(),
{
    if a.len() > 0 {
        lemma_split_without_separator(a.drop_last(), seps);
        assert(a[a.len() - 1] == a.last());
        assert(!seps.contains(a.last()));
        assert(a.drop_last().push(a.last()) =~= a);
        assert(seq![a.drop_last()].update(0, a.drop_last().push(a.last())) =~= seq![a]);
    } else {
        assert(a =~= Seq::<char>::empty());
    }
}

proof fn lemma_split_after(a: Seq<char>, c: char, b: Seq<char>, seps: Seq<char>)
    requires
        forall|i: int| 0 <= i < a.len() ==> !seps.contains(#[trigger] a[i]),
        seps.contains(c),
    ensures
        split_by(a + seq![c] + b, seps) == seq![a] + split_by(b, seps),
    decreases b.len(),
{
    if b.len() == 0 {
        lemma_split_without_separator(a, seps);
        assert(a + seq![c] + b =~= a.push(c));
        assert((a + seq![c] + b).drop_last() =~= a);
        assert(seq![a].push(Seq::<char>::empty()) =~= seq![a] + split_by(b, seps));
    } else {
        lemma_split_after(a, c, b.drop_last(), seps);
        assert((a + seq![c] + b).drop_last() =~= a + seq![c] + b.drop_last());
        crate::paths::lemma_split_by_nonempty(b.drop_last(), seps);
        let p = split_by(b.drop_last(), seps);
        if seps.contains(b.last()) {
            assert((seq![a] + p).push(Seq::<char>::empty()) =~= seq![a] + p.push(Seq::<char>::empty()));
        } else {
            let q = seq![a] + p;
            assert(q.update(q.len() - 1, q.last().push(b.last())) =~= seq![a] + p.update(
                p.len() - 1,
                p.last().push(b.last()),
            ));
        }
    }
}

proof fn lemma_padded_has_no_separator(n: nat, w: nat)
    ensures
        forall|i: int|
            0 <= i < padded_decimal(n, w).len() ==> !datetime_separators().contains(
                #[trigger] padded_decimal(n, w)[i],
            ),
{
    let s = padded_decimal(n, w);
    let d = decimal(n);
    lemma_decimal_digits(n);
    assert forall|i: int| 0 <= i < s.len() implies !datetime_separators().contains(#[trigger] s[i]) by {
        if d.len() < w && i >= w - d.len() {
            assert(s[i] == d[i - (w - d.len())]);
        }
        assert(is_digit(s[i]));
        if datetime_separators().contains(s[i]) {
            let k = choose|k: int| 0 <= k < 3 && datetime_separators()[k] == s[i];
        }
    }
}

#[verifier::rlimit(80)]
proof fn lemma_timestamp_split(secs: nat)
    ensures
        ({
            let f = timestamp_fields(secs);
            split_by(timestamp_text(secs), datetime_separators()) == seq![
                padded_decimal(f[0], 4),
                padded_decimal(f[1], 2),
                padded_decimal(f[2], 2),
                padded_decimal(f[3], 2),
                padded_decimal(f[4], 2),
                padded_decimal(f[5], 2),
            ]
        }),
{
    let f = timestamp_fields(secs);
    let p0 = padded_decimal(f[0], 4);
    let p1 = padded_decimal(f[1], 2);
    let p2 = padded_decimal(f[2], 2);
    let p3 = padded_decimal(f[3], 2);
    let p4 = padded_decimal(f[4], 2);
    let p5 = padded_decimal(f[5], 2);
    let seps = datetime_separators();
    let t = timestamp_text(secs);
    assert(t =~= p0 + seq!['-'] + (p1 + seq!['-'] + (p2 + seq![' '] + (p3 + seq![':'] + (p4
        + seq![':'] + p5)))));
    lemma_padded_has_no_separator(f[0], 4);
    lemma_padded_has_no_separator(f[1], 2);
    lemma_padded_has_no_separator(f[2], 2);
    lemma_padded_has_no_separator(f[3], 2);
    lemma_padded_has_no_separator(f[4], 2);
    lemma_padded_has_no_separator(f[5], 2);
    assert(seps[0] == '-' && seps[1] == ' ' && seps[2] == ':');
    assert(seps.contains('-') && seps.contains(' ') && seps.contains(':'));
    lemma_split_without_separator(p5, seps);
    lemma_split_after(p4, ':', p5, seps);
    lemma_split_after(p3, ':', p4 + seq![':'] + p5, seps);
    lemma_split_after(p2, ' ', p3 + seq![':'] + (p4 + seq![':'] + p5), seps);
    lemma_split_after(p1, '-', p2 + seq![' '] + (p3 + seq![':'] + (p4 + seq![':'] + p5)), seps);
    lemma_split_after(
        p0,
        '-',
        p1 + seq!['-'] + (p2 + seq![' '] + (p3 + seq![':'] + (p4 + seq![':'] + p5))),
        seps,
    );
    assert(split_by(t, seps) =~= seq![p0, p1, p2, p3, p4, p5]);
}

/// The fields written are small enough to read back as `i64`s.
proof fn lemma_timestamp_fields_fit(secs: nat)
    requires
        secs <= u64::MAX,
    ensures
        ({
            let f = timestamp_fields(secs);
            &&& f[0] <= i64::MAX && f[1] <= i64::MAX && f[2] <= i64::MAX
            &&& f[3] <= i64::MAX && f[4] <= i64::MAX && f[5] <= i64::MAX
        }),
{
    law_timestamp_is_a_real_date(secs);
    assert(secs / 86400 <= 213503982334601);
}

/// What the server writes reads back as the second it was written for:
/// the text written for `secs` seconds since the epoch reads as `secs`.
pub proof fn law_timestamp_reads_back(secs: u64)
    ensures
        spec_parse_datetime(timestamp_text(secs as nat)) == Some(secs),
{
    let f = timestamp_fields(secs as nat);
    lemma_timestamp_split(secs as nat);
    lemma_timestamp_fields_fit(secs as nat);
    lemma_parse_padded(f[0], 4);
    lemma_parse_padded(f[1], 2);
    lemma_parse_padded(f[2], 2);
    lemma_parse_padded(f[3], 2);
    lemma_parse_padded(f[4], 2);
    lemma_parse_padded(f[5], 2);
    law_timestamp_is_a_real_date(secs as nat);
    let y = f[0] as int;
    lemma_days_in_years_closed(1970, (y - 1970) as nat);
    assert(1970 + (y - 1970) - 1 == y - 1);
    let days = secs / 86400;
    let rem = secs % 86400;
    assert(rem == f[3] * 3600 + f[4] * 60 + f[5]);
    assert(epoch_seconds(y, f[1] as int, f[2] as int, f[3] as int, f[4] as int, f[5] as int) == days * 86400 + rem);
    assert(days * 86400 + rem == secs);
    lemma_small_mod(secs as nat, modulus() as nat);
}

} // verus!
