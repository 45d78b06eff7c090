//! Dates and times of day for the standard library's `সময়` module, in UTC
//! and the proleptic Gregorian calendar.

use vstd::prelude::*;
use crate::lexer::decimal;
use crate::text::{push_char, string_from};

verus! {

pub open spec fn is_leap(y: int) -> bool {
    y % 4 == 0 && (y % 100 != 0 || y % 400 == 0)
}

pub open spec fn month_length(y: int, m: int) -> int {
    if m == 2 {
        if is_leap(y) {
            29
        } else {
            28
        }
    } else if m == 4 || m == 6 || m == 9 || m == 11 {
        30
    } else {
        31
    }
}

pub open spec fn valid_date(y: int, m: int, d: int) -> bool {
    1 <= m <= 12 && 1 <= d <= month_length(y, m)
}

/// The number of leap years from year 0 up to (not including) `y`; for a
/// negative `y`, minus those from `y` up to year 0.
pub open spec fn leap_years_before(y: int) -> int {
    (y + 3) / 4 - (y + 99) / 100 + (y + 399) / 400
}

/// The days of year `y` before the first of month `m`.
pub open spec fn days_before_month(y: int, m: int) -> int {
    let base: int = if m == 1 {
        0
    } else if m == 2 {
        31
    } else if m == 3 {
        59
    } else if m == 4 {
        90
    } else if m == 5 {
        120
    } else if m == 6 {
        151
    } else if m == 7 {
        181
    } else if m == 8 {
        212
    } else if m == 9 {
        243
    } else if m == 10 {
        273
    } else if m == 11 {
        304
    } else {
        334
    };
    base + if m > 2 && is_leap(y) {
        1int
    } else {
        0int
    }
}

/// The number of days from 1970-01-01 to the date `y-m-d`.
pub open spec fn day_number(y: int, m: int, d: int) -> int {
    365 * y + leap_years_before(y) + days_before_month(y, m) + d - 1 - 719528
}

/// A 400-year cycle starting on March 1st of a year divisible by 400:
/// where the day `doe` of the cycle falls.
#[verifier::spinoff_prover]
#[verifier::rlimit(40)]
proof fn lemma_era(doe: int)
    requires
        0 <= doe <= 146096,
    ensures
        ({
            let yoe = (doe - doe / 1460 + doe / 36524 - doe / 146096) / 365;
            let doy = doe - (365 * yoe + yoe / 4 - yoe / 100);
            let mp = (5 * doy + 2) / 153;
            let d = doy - (153 * mp + 2) / 5 + 1;
            let m = if mp < 10 {
                mp + 3
            } else {
                mp - 9
            };
            let y: int = yoe + if m <= 2 {
                1int
            } else {
                0int
            };
            &&& 0 <= yoe <= 399
            &&& valid_date(y, m, d)
            &&& day_number(y, m, d) == doe - 719468
        }),
{
}

/// Moving a date by 400 years moves its day number by 146097 days, the
/// length of every 400-year cycle.
proof fn lemma_cycle(y: int, m: int, d: int, e: int)
    ensures
        valid_date(y + 400 * e, m, d) == valid_date(y, m, d),
        day_number(y + 400 * e, m, d) == day_number(y, m, d) + 146097 * e,
{
    let y2 = y + 400 * e;
    assert((y2 + 3) / 4 == (y + 3) / 4 + 100 * e) by (nonlinear_arith)
        requires
            y2 == y + 400 * e,
    ;
    assert((y2 + 99) / 100 == (y + 99) / 100 + 4 * e) by (nonlinear_arith)
        requires
            y2 == y + 400 * e,
    ;
    assert((y2 + 399) / 400 == (y + 399) / 400 + e) by (nonlinear_arith)
        requires
            y2 == y + 400 * e,
    ;
    assert(y2 % 4 == y % 4) by (nonlinear_arith)
        requires
            y2 == y + 400 * e,
    ;
    assert(y2 % 100 == y % 100) by (nonlinear_arith)
        requires
            y2 == y + 400 * e,
    ;
    assert(y2 % 400 == y % 400) by (nonlinear_arith)
        requires
            y2 == y + 400 * e,
    ;
    assert(is_leap(y2) == is_leap(y));
}

/// The date `z` days after 1970-01-01, by Howard Hinnant's
/// `civil_from_days`: shifted to years that start on March 1st, split into
/// 400-year cycles, then year, day of year and month within the cycle.
pub fn civil_from_days(z: i64) -> (r: (i64, u32, u32))
    requires
        z <= i64::MAX - 719468,
    ensures
        valid_date(r.0 as int, r.1 as int, r.2 as int),
        day_number(r.0 as int, r.1 as int, r.2 as int) == z as int,
        i64::MIN / 2 < r.0 < i64::MAX / 2,
{
    let zz = z + 719468;
    let era: i64 = if zz >= 0 {
        zz / 146097
    } else {
        -((146096 - zz) / 146097)
    };
    assert(era == zz as int / 146097 && 0 <= zz - era * 146097 <= 146096) by (nonlinear_arith)
        requires
            zz >= 0 ==> era == zz / 146097,
            zz < 0 ==> era == -((146096 - zz) / 146097),
    ;
    assert(-0x10_0000_0000_0000 <= era <= 0x10_0000_0000_0000) by (nonlinear_arith)
        requires
            era == zz as int / 146097,
            i64::MIN <= zz <= i64::MAX,
    ;
    let doe = (zz - era * 146097) as u64;
    let yoe = (doe - doe / 1460 + doe / 36524 - doe / 146096) / 365;
    let doy = doe - (365 * yoe + yoe / 4 - yoe / 100);
    let mp = (5 * doy + 2) / 153;
    let d = (doy - (153 * mp + 2) / 5 + 1) as u32;
    let m = if mp < 10 {
        mp + 3
    } else {
        mp - 9
    } as u32;
    proof {
        lemma_era(doe as int);
    }
    let y0: i64 = yoe as i64 + era * 400;
    let y = if m <= 2 {
        y0 + 1
    } else {
        y0
    };
    proof {
        let ly = yoe as int + if m <= 2 {
            1int
        } else {
            0int
        };
        lemma_cycle(ly, m as int, d as int, era as int);
        assert(ly + 400 * era == y);
        assert(0 <= yoe <= 399);
        assert(i64::MIN / 2 < y < i64::MAX / 2);
    }
    (y, m, d)
}

/// Whole seconds since the epoch for a millisecond count, rounded down.
pub open spec fn seconds_of(ms: int) -> int {
    ms / 1000
}

/// The day (counted from 1970-01-01) that the moment `ms` falls on.
pub open spec fn day_of(ms: int) -> int {
    seconds_of(ms) / 86400
}

/// The seconds since midnight at the moment `ms`.
pub open spec fn second_of_day(ms: int) -> int {
    seconds_of(ms) % 86400
}

/// Splits a millisecond count into whole days and the second of the day,
/// both rounding toward the past.
fn split_ms(ms: i64) -> (r: (i64, u32))
    ensures
        r.0 as int == day_of(ms as int),
        r.1 as int == second_of_day(ms as int),
        r.1 < 86400,
        -0x10_0000_0000_0000 <= r.0 <= 0x10_0000_0000_0000,
{
    let m = ms as i128;
    let secs: i128 = if m >= 0 {
        m / 1000
    } else {
        -((999 - m) / 1000)
    };
    assert(secs == m / 1000) by (nonlinear_arith)
        requires
            m >= 0 ==> secs == m / 1000,
            m < 0 ==> secs == -((999 - m) / 1000),
    ;
    let days: i128 = if secs >= 0 {
        secs / 86400
    } else {
        -((86399 - secs) / 86400)
    };
    assert(days == secs / 86400 && 0 <= secs - days * 86400 < 86400) by (nonlinear_arith)
        requires
            secs >= 0 ==> days == secs / 86400,
            secs < 0 ==> days == -((86399 - secs) / 86400),
    ;
    assert(-0x10_0000_0000_0000 <= days <= 0x10_0000_0000_0000) by (nonlinear_arith)
        requires
            days == secs / 86400,
            secs == m / 1000,
            i64::MIN <= m <= i64::MAX,
    ;
    let rem = secs - days * 86400;
    assert(rem == secs % 86400) by (nonlinear_arith)
        requires
            days == secs / 86400,
            rem == secs - days * 86400,
    ;
    (days as i64, rem as u32)
}

/// The date (UTC) at the moment `ms` milliseconds after the epoch.
pub fn civil_of_ms(ms: i64) -> (r: (i64, u32, u32))
    ensures
        valid_date(r.0 as int, r.1 as int, r.2 as int),
        day_number(r.0 as int, r.1 as int, r.2 as int) == day_of(ms as int),
        i64::MIN / 2 < r.0 < i64::MAX / 2,
{
    let (days, _) = split_ms(ms);
    civil_from_days(days)
}

/// The hour, minute and second (UTC) at the moment `ms` milliseconds after
/// the epoch.
pub fn time_of_day(ms: i64) -> (r: (u32, u32, u32))
    ensures
        r.0 < 24 && r.1 < 60 && r.2 < 60,
        r.0 * 3600 + r.1 * 60 + r.2 == second_of_day(ms as int),
{
    let (_, secs) = split_ms(ms);
    (secs / 3600, (secs % 3600) / 60, secs % 60)
}

/// `ds` preceded by zeros up to width `w`.
pub open spec fn zero_pad(ds: Seq<char>, w: int) -> Seq<char> {
    Seq::new(if w > ds.len() { (w - ds.len()) as nat } else { 0 }, |i: int| '0') + ds
}

/// `n` in decimal, at least `w` characters wide, zero-padded after its
/// sign: what `format!("{:0w$}", n)` writes.
pub open spec fn padded(n: int, w: int) -> Seq<char> {
    if n < 0 {
        seq!['-'] + zero_pad(decimal((-n) as nat), w - 1)
    } else {
        zero_pad(decimal(n as nat), w)
    }
}

/// `YYYY-MM-DD HH:MM:SS`.
pub open spec fn stamp(y: int, mo: int, d: int, h: int, mi: int, s: int) -> Seq<char> {
    padded(y, 4) + seq!['-'] + padded(mo, 2) + seq!['-'] + padded(d, 2) + seq![' '] + padded(h, 2) + seq![':']
        + padded(mi, 2) + seq![':'] + padded(s, 2)
}

pub(crate) fn digits_u64(n: u64) -> (v: Vec<char>)
    ensures
        v@ == decimal(n as nat),
    decreases n,
{
    if n < 10 {
        let mut v: Vec<char> = Vec::new();
        v.push(((n as u8) + 0x30u8) as char);
        v
    } else {
        let mut v = digits_u64(n / 10);
        v.push((((n % 10) as u8) + 0x30u8) as char);
        v
    }
}

pub(crate) fn push_padded(out: &mut String, n: i64, w: usize)
    requires
        1 <= w <= 8,
    ensures
        final(out)@ == old(out)@ + padded(n as int, w as int),
{
    let mut width = w;
    let mag: u64 = if n < 0 {
        push_char(out, '-');
        width = w - 1;
        if n == i64::MIN {
            9223372036854775808
        } else {
            (-n) as u64
        }
    } else {
        n as u64
    };
    let ds = digits_u64(mag);
    let ghost before = out@;
    let mut k: usize = ds.len();
    while k < width
        invariant
            ds.len() <= k <= width || (width <= ds.len() && k == ds.len()),
            out@ == before + Seq::new((k - ds.len()) as nat, |i: int| '0'),
        decreases width - k,
    {
        push_char(out, '0');
        assert(Seq::new((k + 1 - ds.len()) as nat, |i: int| '0') =~= Seq::new((k - ds.len()) as nat, |i: int| '0').push('0'));
        k += 1;
    }
    let mut i: usize = 0;
    let ghost zeros = out@;
    while i < ds.len()
        invariant
            i <= ds.len(),
            out@ == zeros + ds@.take(i as int),
        decreases ds.len() - i,
    {
        push_char(out, ds[i]);
        assert(ds@.take(i as int + 1) =~= ds@.take(i as int).push(ds@[i as int]));
        i += 1;
    }
    assert(ds@.take(ds.len() as int) =~= ds@);
    proof {
        let z = Seq::new(if width > ds.len() { (width - ds.len()) as nat } else { 0 }, |i: int| '0');
        assert(z =~= Seq::new((k - ds.len()) as nat, |i: int| '0'));
        if n < 0 {
            assert(out@ =~= old(out)@ + (seq!['-'] + (z + ds@)));
        } else {
            assert(out@ =~= old(out)@ + (z + ds@));
        }
    }
}

/// `বর্তমান_তারিখ_লেখা` for the moment `ms` milliseconds after the epoch:
/// `YYYY-MM-DD HH:MM:SS` in UTC.
pub fn date_time_text(ms: i64) -> (r: String)
    ensures
        exists|y: int, mo: int, d: int, h: int, mi: int, s: int|
            {
                &&& valid_date(y, mo, d)
                &&& day_number(y, mo, d) == day_of(ms as int)
                &&& 0 <= h < 24 && 0 <= mi < 60 && 0 <= s < 60
                &&& h * 3600 + mi * 60 + s == second_of_day(ms as int)
                &&& r@ == #[trigger] stamp(y, mo, d, h, mi, s)
            },
{
    let (y, mo, d) = civil_of_ms(ms);
    let (h, mi, s) = time_of_day(ms);
    let mut out = String::new();
    push_padded(&mut out, y, 4);
    push_char(&mut out, '-');
    push_padded(&mut out, mo as i64, 2);
    push_char(&mut out, '-');
    push_padded(&mut out, d as i64, 2);
    push_char(&mut out, ' ');
    push_padded(&mut out, h as i64, 2);
    push_char(&mut out, ':');
    push_padded(&mut out, mi as i64, 2);
    push_char(&mut out, ':');
    push_padded(&mut out, s as i64, 2);
    assert(out@ =~= stamp(y as int, mo as int, d as int, h as int, mi as int, s as int));
    out
}

// ---------------------------------------------------------------------------
// Laws
// ---------------------------------------------------------------------------

pub open spec fn year_start(y: int) -> int {
    365 * y + leap_years_before(y)
}

pub open spec fn year_length(y: int) -> int {
    if is_leap(y) {
        366
    } else {
        365
    }
}

proof fn lemma_next_year(y: int)
    ensures
        year_start(y + 1) == year_start(y) + year_length(y),
{
    assert((y + 4) / 4 - (y + 3) / 4 == (if y % 4 == 0 { 1int } else { 0int })) by (nonlinear_arith);
    assert((y + 100) / 100 - (y + 99) / 100 == (if y % 100 == 0 { 1int } else { 0int })) by (nonlinear_arith);
    assert((y + 400) / 400 - (y + 399) / 400 == (if y % 400 == 0 { 1int } else { 0int })) by (nonlinear_arith);
    assert(y % 400 == 0 ==> y % 100 == 0 && y % 4 == 0) by (nonlinear_arith);
    assert(y % 100 == 0 ==> y % 4 == 0) by (nonlinear_arith);
}

proof fn lemma_years_grow(y1: int, y2: int)
    requires
        y1 < y2,
    ensures
        year_start(y1) + year_length(y1) <= year_start(y2),
    decreases y2 - y1,
{
    lemma_next_year(y1);
    if y1 + 1 < y2 {
        lemma_years_grow(y1 + 1, y2);
        lemma_next_year(y1 + 1);
    }
}

proof fn lemma_day_of_year(y: int, m: int, d: int)
    requires
        valid_date(y, m, d),
    ensures
        0 <= days_before_month(y, m) + d - 1 < year_length(y),
{
}

proof fn lemma_months_apart(y: int, m1: int, m2: int)
    requires
        1 <= m1 < m2 <= 12,
    ensures
        days_before_month(y, m1) + month_length(y, m1) <= days_before_month(y, m2),
{
}

/// Different dates have different day numbers: day numbers count the days
/// of the calendar one by one, so [`civil_from_days`] of a date's day
/// number is that date again.
pub proof fn law_day_number_injective(y1: int, m1: int, d1: int, y2: int, m2: int, d2: int)
    requires
        valid_date(y1, m1, d1),
        valid_date(y2, m2, d2),
        day_number(y1, m1, d1) == day_number(y2, m2, d2),
    ensures
        y1 == y2 && m1 == m2 && d1 == d2,
{
    lemma_day_of_year(y1, m1, d1);
    lemma_day_of_year(y2, m2, d2);
    if y1 < y2 {
        lemma_years_grow(y1, y2);
    } else if y2 < y1 {
        lemma_years_grow(y2, y1);
    } else if m1 < m2 {
        lemma_months_apart(y1, m1, m2);
    } else if m2 < m1 {
        lemma_months_apart(y1, m2, m1);
    }
}

/// The day after a date has the next day number.
pub proof fn law_next_day(y: int, m: int, d: int)
    requires
        valid_date(y, m, d),
    ensures
        d < month_length(y, m) ==> day_number(y, m, d + 1) == day_number(y, m, d) + 1,
        d == month_length(y, m) && m < 12 ==> day_number(y, m + 1, 1) == day_number(y, m, d) + 1,
        d == 31 && m == 12 ==> day_number(y + 1, 1, 1) == day_number(y, m, d) + 1,
{
    lemma_next_year(y);
}

} // verus!
