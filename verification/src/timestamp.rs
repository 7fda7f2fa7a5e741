//! Pure ISO-8601 UTC timestamp formatting from seconds since the Unix
//! epoch, via an integer proleptic-Gregorian calendar decomposition.

use vstd::prelude::*;
use crate::strings::{dec2, dec3, dec4, push_dec2, push_dec3, push_dec4};

verus! {

/// Whether `y` is a leap year in the proleptic Gregorian calendar.
pub open spec fn is_leap_year(y: int) -> bool {
    y % 4 == 0 && (y % 100 != 0 || y % 400 == 0)
}

/// Number of days in year `y`.
pub open spec fn year_length(y: int) -> int {
    if is_leap_year(y) {
        366
    } else {
        365
    }
}

/// Number of days in month `m` (1-based) of year `y`.
pub open spec fn month_length(y: int, m: int) -> int {
    if m == 2 {
        if is_leap_year(y) {
            29
        } else {
            28
        }
    } else if m == 4 || m == 6 || m == 9 || m == 11 {
        30
    } else {
        31
    }
}

/// Starting at year `y`, consumes whole years out of the day count
/// `days`, returning the year reached and the remaining day-of-year.
pub open spec fn split_years(days: int, y: int) -> (int, int)
    decreases days,
{
    if days < year_length(y) {
        (y, days)
    } else {
        split_years(days - year_length(y), y + 1)
    }
}

/// Starting at month `m` of year `y`, consumes whole months out of the
/// day count `doy`, returning the month reached and the remaining
/// zero-based day-of-month.
pub open spec fn split_months(doy: int, y: int, m: int) -> (int, int)
    decreases 12 - m,
{
    if m >= 12 || doy < month_length(y, m) {
        (m, doy)
    } else {
        split_months(doy - month_length(y, m), y, m + 1)
    }
}

/// Total length of months `m ..= 12` of year `y`.
pub open spec fn months_span(y: int, m: int) -> int
    decreases 13 - m,
{
    if m < 1 || m > 12 {
        0
    } else {
        month_length(y, m) + months_span(y, m + 1)
    }
}

/// The twelve months of a year together hold exactly the year's days.
pub proof fn lemma_months_span_full(y: int)
    ensures
        months_span(y, 1) == year_length(y),
{
    assert(months_span(y, 13) == 0);
    assert(months_span(y, 12) == 31);
    assert(months_span(y, 11) == 61);
    assert(months_span(y, 10) == 92);
    assert(months_span(y, 9) == 122);
    assert(months_span(y, 8) == 153);
    assert(months_span(y, 7) == 184);
    assert(months_span(y, 6) == 214);
    assert(months_span(y, 5) == 245);
    assert(months_span(y, 4) == 275);
    assert(months_span(y, 3) == 306);
    assert(months_span(y, 2) == 306 + month_length(y, 2));
    assert(months_span(y, 1) == 337 + month_length(y, 2));
}

/// Total length of the `k` consecutive years starting at `y`.
pub open spec fn year_span(y: int, k: nat) -> int
    decreases k,
{
    if k == 0 {
        0
    } else {
        year_length(y) + year_span(y + 1, (k - 1) as nat)
    }
}

proof fn lemma_year_span_lower_bound(y: int, k: nat)
    ensures
        year_span(y, k) >= 365 * k,
    decreases k,
{
    if k > 0 {
        lemma_year_span_lower_bound(y + 1, (k - 1) as nat);
    }
}

proof fn lemma_year_span_tail(y: int, k: nat)
    ensures
        year_span(y, k + 1) == year_span(y, k) + year_length(y + k),
    decreases k,
{
    reveal_with_fuel(year_span, 2);
    if k > 0 {
        lemma_year_span_tail(y + 1, (k - 1) as nat);
    }
}

proof fn lemma_year_span_concat(y: int, a: nat, b: nat)
    ensures
        year_span(y, a + b) == year_span(y, a) + year_span(y + a, b),
    decreases a,
{
    reveal_with_fuel(year_span, 2);
    if a > 0 {
        lemma_year_span_concat(y + 1, (a - 1) as nat, b);
    }
}

/// Leap years repeat with period 400.
proof fn lemma_leap_periodic(y: int)
    ensures
        is_leap_year(y + 400) == is_leap_year(y),
{
    vstd::arithmetic::div_mod::lemma_mod_multiples_vanish(100, y, 4);
    vstd::arithmetic::div_mod::lemma_mod_multiples_vanish(4, y, 100);
    vstd::arithmetic::div_mod::lemma_mod_multiples_vanish(1, y, 400);
}

#[verifier::rlimit(100)]
proof fn lemma_span_chunk_1970()
    ensures
        year_span(1970, 50) == 18262,
{
    reveal_with_fuel(year_span, 51);
}

#[verifier::rlimit(100)]
proof fn lemma_span_chunk_2020()
    ensures
        year_span(2020, 50) == 18263,
{
    reveal_with_fuel(year_span, 51);
}

#[verifier::rlimit(100)]
proof fn lemma_span_chunk_2070()
    ensures
        year_span(2070, 50) == 18261,
{
    reveal_with_fuel(year_span, 51);
}

#[verifier::rlimit(100)]
proof fn lemma_span_chunk_2120()
    ensures
        year_span(2120, 50) == 18263,
{
    reveal_with_fuel(year_span, 51);
}

#[verifier::rlimit(100)]
proof fn lemma_span_chunk_2170()
    ensures
        year_span(2170, 50) == 18261,
{
    reveal_with_fuel(year_span, 51);
}

#[verifier::rlimit(100)]
proof fn lemma_span_chunk_2220()
    ensures
        year_span(2220, 50) == 18263,
{
    reveal_with_fuel(year_span, 51);
}

#[verifier::rlimit(100)]
proof fn lemma_span_chunk_2270()
    ensures
        year_span(2270, 50) == 18261,
{
    reveal_with_fuel(year_span, 51);
}

#[verifier::rlimit(100)]
proof fn lemma_span_chunk_2320()
    ensures
        year_span(2320, 50) == 18263,
{
    reveal_with_fuel(year_span, 51);
}

/// Any 400 consecutive years hold exactly 146097 days.
#[verifier::rlimit(100)]
proof fn lemma_era_span(y: int)
    requires
        y >= 1970,
    ensures
        year_span(y, 400) == 146097,
    decreases y - 1970,
{
    if y == 1970 {
        lemma_year_span_concat(1970, 50, 350);
        lemma_year_span_concat(2020, 50, 300);
        lemma_year_span_concat(2070, 50, 250);
        lemma_year_span_concat(2120, 50, 200);
        lemma_year_span_concat(2170, 50, 150);
        lemma_year_span_concat(2220, 50, 100);
        lemma_year_span_concat(2270, 50, 50);
        lemma_span_chunk_1970();
        lemma_span_chunk_2020();
        lemma_span_chunk_2070();
        lemma_span_chunk_2120();
        lemma_span_chunk_2170();
        lemma_span_chunk_2220();
        lemma_span_chunk_2270();
        lemma_span_chunk_2320();
    } else {
        lemma_era_span(y - 1);
        lemma_year_span_tail(y - 1, 400);
        lemma_leap_periodic(y - 1);
        assert(year_span(y - 1, 401) == year_length(y - 1) + year_span(y, 400));
    }
}

proof fn lemma_split_years_skip(days: int, y: int, k: nat)
    requires
        days >= year_span(y, k),
    ensures
        split_years(days, y) == split_years(days - year_span(y, k), y + k),
    decreases k,
{
    if k > 0 {
        lemma_year_span_lower_bound(y + 1, (k - 1) as nat);
        assert(split_years(days, y) == split_years(days - year_length(y), y + 1));
        lemma_split_years_skip(days - year_length(y), y + 1, (k - 1) as nat);
    }
}

/// Splitting years out of a day count may start by discarding whole
/// 400-year eras, 146097 days apiece.
proof fn lemma_split_years_eras(days: int, e: nat)
    requires
        days >= 146097 * e,
    ensures
        split_years(days, 1970) == split_years(days - 146097 * e, 1970 + 400 * (e as int)),
    decreases e,
{
    if e > 0 {
        lemma_split_years_eras(days, (e - 1) as nat);
        lemma_era_span(1970 + 400 * (e - 1));
        lemma_split_years_skip(days - 146097 * (e - 1), 1970 + 400 * (e - 1), 400);
    }
}

/// The ISO-8601 UTC rendering `YYYY-MM-DDTHH:MM:SS.mmmZ` of an instant
/// given as whole seconds and milliseconds since 1970-01-01T00:00:00Z.
pub open spec fn iso_utc(secs: int, millis: int) -> Seq<char> {
    let days = secs / 86400;
    let tod = secs % 86400;
    let (y, doy) = split_years(days, 1970);
    let (mo, dom0) = split_months(doy, y, 1);
    dec4(y) + seq!['-'] + dec2(mo) + seq!['-'] + dec2(dom0 + 1) + seq!['T'] + dec2(tod / 3600)
        + seq![':'] + dec2(tod % 3600 / 60) + seq![':'] + dec2(tod % 60) + seq!['.'] + dec3(millis)
        + seq!['Z']
}

fn year_length_u64(y: u64) -> (r: u64)
    ensures
        r == year_length(y as int),
{
    if y % 4 == 0 && (y % 100 != 0 || y % 400 == 0) {
        366
    } else {
        365
    }
}

fn month_length_u64(y: u64, m: u64) -> (r: u64)
    ensures
        r == month_length(y as int, m as int),
{
    if m == 2 {
        if y % 4 == 0 && (y % 100 != 0 || y % 400 == 0) {
            29
        } else {
            28
        }
    } else if m == 4 || m == 6 || m == 9 || m == 11 {
        30
    } else {
        31
    }
}

/// Decomposes a count of days since 1970-01-01 into the civil date
/// (year, month, day-of-month) it falls on.
pub fn days_to_date(days: u64) -> (r: (u64, u64, u64))
    ensures
        ({
            let (y, doy) = split_years(days as int, 1970);
            let (mo, dom0) = split_months(doy, y, 1);
            r.0 == y && r.1 == mo && r.2 == dom0 + 1
        }),
        1970 <= r.0,
        1 <= r.1 <= 12,
        1 <= r.2 <= 31,
{
    let eras: u64 = days / 146097;
    let mut year: u64 = 1970 + 400 * eras;
    let mut rem: u64 = days % 146097;
    proof {
        lemma_split_years_eras(days as int, eras as nat);
    }
    let mut yl: u64 = year_length_u64(year);
    while rem >= yl
        invariant
            1970 <= year,
            365 * (year as int - 1970) <= days as int - rem as int,
            rem <= days,
            yl == year_length(year as int),
            split_years(days as int, 1970) == split_years(rem as int, year as int),
        decreases rem,
    {
        rem = rem - yl;
        year = year + 1;
        yl = year_length_u64(year);
    }
    assert(split_years(rem as int, year as int) == (year as int, rem as int));
    proof {
        lemma_months_span_full(year as int);
    }
    let ghost doy: int = rem as int;
    let mut mo: u64 = 1;
    let mut ml: u64 = month_length_u64(year, mo);
    while mo < 12 && rem >= ml
        invariant
            1 <= mo <= 12,
            ml == month_length(year as int, mo as int),
            rem < months_span(year as int, mo as int),
            split_months(doy, year as int, 1) == split_months(rem as int, year as int, mo as int),
        decreases 12 - mo,
    {
        rem = rem - ml;
        mo = mo + 1;
        ml = month_length_u64(year, mo);
    }
    assert(split_months(rem as int, year as int, mo as int) == (mo as int, rem as int));
    assert(rem < 31) by {
        if mo == 12 {
            assert(months_span(year as int, 13) == 0);
            assert(months_span(year as int, 12) == 31);
        }
    }
    (year, mo, rem + 1)
}

/// Renders the given instant (seconds and milliseconds since the Unix
/// epoch) as `YYYY-MM-DDTHH:MM:SS.mmmZ`.
pub fn format_utc_timestamp(secs: u64, millis: u32) -> (r: String)
    requires
        millis < 1000,
    ensures
        r@ == iso_utc(secs as int, millis as int),
{
    proof {
        reveal_strlit("-");
        reveal_strlit("T");
        reveal_strlit(":");
        reveal_strlit(".");
        reveal_strlit("Z");
    }
    let days = secs / 86400;
    let tod = secs % 86400;
    let (y, mo, d) = days_to_date(days);
    let mut out = String::new();
    push_dec4(&mut out, y);
    out.append("-");
    push_dec2(&mut out, mo);
    out.append("-");
    push_dec2(&mut out, d);
    out.append("T");
    push_dec2(&mut out, tod / 3600);
    out.append(":");
    push_dec2(&mut out, tod % 3600 / 60);
    out.append(":");
    push_dec2(&mut out, tod % 60);
    out.append(".");
    push_dec3(&mut out, millis as u64);
    out.append("Z");
    assert(out@ =~= iso_utc(secs as int, millis as int));
    out
}

/// Relies on `std::time::SystemTime::now` and
/// `Duration::duration_since(UNIX_EPOCH)` for the current instant:
/// seconds since the epoch, and sub-second milliseconds, which
/// `Duration::subsec_millis` documents to be below 1000.
#[verifier::external_body]
fn unix_now_parts() -> (r: (u64, u32))
    ensures
        r.1 < 1000,
{
    match std::time::SystemTime::now().duration_since(std::time::UNIX_EPOCH) {
        Ok(d) => (d.as_secs(), d.subsec_millis()),
        Err(_) => (0, 0),
    }
}

/// The current instant rendered as an ISO-8601 UTC timestamp with
/// millisecond precision.
pub fn iso_now() -> (r: String)
    ensures
        exists|secs: int, millis: int|
            0 <= secs && 0 <= millis < 1000 && r@ == iso_utc(secs, millis),
{
    let (secs, millis) = unix_now_parts();
    let out = format_utc_timestamp(secs, millis);
    proof {
        assert(out@ == iso_utc(secs as int, millis as int));
    }
    out
}

} // verus!
