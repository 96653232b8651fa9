//! Civil dates of Unix days and ISO 8601 UTC timestamps.
use vstd::prelude::*;
use crate::num::{decimal, i64_decimal, int_decimal, u64_decimal, zero_pad, zero_pad_exec};
use crate::text::{push_all, string_of};

verus! {

/// Days since 1970-01-01 of a proleptic Gregorian date (month 1–12).
pub open spec fn days_from_civil(y: int, m: int, d: int) -> int {
    let yy = if m <= 2 {
        y - 1
    } else {
        y
    };
    let era = yy / 400;
    let yoe = yy - era * 400;
    let mp = if m > 2 {
        m - 3
    } else {
        m + 9
    };
    let doy = (153 * mp + 2) / 5 + d - 1;
    let doe = yoe * 365 + yoe / 4 - yoe / 100 + doy;
    era * 146097 + doe - 719468
}

/// Leap years of the proleptic Gregorian calendar.
pub open spec fn is_leap(y: int) -> bool {
    y % 4 == 0 && (y % 100 != 0 || y % 400 == 0)
}

/// The number of days of a month (1–12) of a year.
pub open spec fn days_in_month(y: int, m: int) -> int {
    if m == 2 {
        if is_leap(y) {
            29
        } else {
            28
        }
    } else if m == 4 || m == 6 || m == 9 || m == 11 {
        30
    } else {
        31
    }
}

/// Civil date of a day count: a month in 1..=12, a day that exists in that month of
/// that year, and counting the days of that date gives the day count back.
pub open spec fn is_civil_of(z: int, y: int, m: int, d: int) -> bool {
    1 <= m <= 12 && 1 <= d <= days_in_month(y, m) && days_from_civil(y, m, d) == z
}

/// Length of the month `mp` months after March, in a year whose February has 29 days
/// when `leap` holds.
pub open spec fn march_month_len(mp: int, leap: bool) -> int {
    if mp == 11 {
        if leap {
            29
        } else {
            28
        }
    } else if mp == 1 || mp == 3 || mp == 6 || mp == 8 {
        30
    } else {
        31
    }
}

proof fn lemma_year_of_era(doe: u32, yoe: u32)
    requires
        doe <= 146096,
        yoe == (doe - doe / 1460 + doe / 36524 - doe / 146096) / 365,
    ensures
        yoe <= 399,
        365 * yoe + yoe / 4 - yoe / 100 <= doe,
        doe - (365 * yoe + yoe / 4 - yoe / 100) <= 365,
        doe - (365 * yoe + yoe / 4 - yoe / 100) == 365 ==> (yoe + 1) % 4 == 0 && ((yoe + 1) % 100 != 0 || yoe == 399),
{
}

proof fn lemma_day_of_year(doy: u32, mp: u32, d: u32, leap: bool)
    requires
        doy <= 365,
        doy == 365 ==> leap,
        mp == (5 * doy + 2) / 153,
        d == doy - (153 * mp + 2) / 5 + 1,
    ensures
        mp <= 11,
        (153 * mp + 2) / 5 <= doy,
        1 <= d <= march_month_len(mp as int, leap),
{
}

proof fn lemma_leap_of_era(era: int, yoe: int)
    requires
        0 <= yoe <= 399,
    ensures
        is_leap(era * 400 + yoe + 1) == ((yoe + 1) % 4 == 0 && ((yoe + 1) % 100 != 0 || yoe == 399)),
{
    let y = era * 400 + yoe + 1;
    assert(y % 4 == (yoe + 1) % 4) by (nonlinear_arith)
        requires y == era * 400 + yoe + 1;
    assert(y % 100 == (yoe + 1) % 100) by (nonlinear_arith)
        requires y == era * 400 + yoe + 1;
    assert(y % 400 == (yoe + 1) % 400) by (nonlinear_arith)
        requires y == era * 400 + yoe + 1;
}

/// The civil date (year, month, day) of a count of days since 1970-01-01.
pub fn civil_from_days(z: i64) -> (r: (i64, u32, u32))
    requires
        i64::MIN + 146097 <= z <= i64::MAX - 719468,
    ensures
        is_civil_of(z as int, r.0 as int, r.1 as int, r.2 as int),
{
    let zz: i64 = z + 719468;
    let era: i64;
    let doe: u32;
    if zz >= 0 {
        let n: u64 = zz as u64;
        era = (n / 146097) as i64;
        doe = (n % 146097) as u32;
    } else {
        let n: u64 = (-zz) as u64;
        let q: u64 = (n + 146096) / 146097;
        era = -(q as i64);
        doe = (q * 146097 - n) as u32;
    }
    assert(zz as int == era as int * 146097 + doe as int && doe < 146097);
    let yoe: u32 = (doe - doe / 1460 + doe / 36524 - doe / 146096) / 365;
    proof {
        lemma_year_of_era(doe, yoe);
    }
    let doy: u32 = doe - (365 * yoe + yoe / 4 - yoe / 100);
    let mp: u32 = (5 * doy + 2) / 153;
    let d: u32 = doy - (153 * mp + 2) / 5 + 1;
    let ghost leap: bool = (yoe + 1) % 4 == 0 && ((yoe + 1) % 100 != 0 || yoe == 399);
    proof {
        lemma_day_of_year(doy, mp, d, leap);
    }
    let m: u32 = if mp < 10 {
        mp + 3
    } else {
        mp - 9
    };
    let y: i64 = yoe as i64 + era * 400;
    let year: i64 = if m <= 2 {
        y + 1
    } else {
        y
    };
    proof {
        let yy: int = if m <= 2 {
            year - 1
        } else {
            year as int
        };
        assert(yy == yoe + era * 400);
        assert(yy / 400 == era as int);
        assert(yy - (yy / 400) * 400 == yoe as int);
        let mp2: int = if m > 2 {
            m - 3
        } else {
            m + 9
        };
        assert(mp2 == mp);
        if m == 2 {
            lemma_leap_of_era(era as int, yoe as int);
            assert(year == era * 400 + yoe + 1);
        }
    }
    (year, m, d)
}

// ---------------------------------------------------------------------------
// A day count has one civil date
// ---------------------------------------------------------------------------

/// The year counted from March (January and February belong to the year before).
pub open spec fn march_year(y: int, m: int) -> int {
    if m <= 2 {
        y - 1
    } else {
        y
    }
}

/// The month counted from March (March is 0, February 11).
pub open spec fn march_month(m: int) -> int {
    if m > 2 {
        m - 3
    } else {
        m + 9
    }
}

/// Days since 1970-01-01 of March 1 of a March-based year.
pub open spec fn year_start(yy: int) -> int {
    let era = yy / 400;
    let yoe = yy - era * 400;
    era * 146097 + yoe * 365 + yoe / 4 - yoe / 100 - 719468
}

proof fn lemma_days_split(y: int, m: int, d: int)
    ensures
        days_from_civil(y, m, d) == year_start(march_year(y, m)) + (153 * march_month(m) + 2) / 5 + d - 1,
{
}

proof fn lemma_year_len(yy: int)
    ensures
        year_start(yy + 1) - year_start(yy) == 365 + if is_leap(yy + 1) {
            1int
        } else {
            0int
        },
{
    let era = yy / 400;
    let yoe = yy - era * 400;
    assert(0 <= yoe < 400);
    lemma_leap_of_era(era, yoe);
    if yoe < 399 {
        assert((yy + 1) / 400 == era);
        assert(yy + 1 - era * 400 == yoe + 1);
    } else {
        assert((yy + 1) / 400 == era + 1);
        assert(yy + 1 - (era + 1) * 400 == 0);
    }
}

proof fn lemma_year_start_order(a: int, b: int)
    requires
        a < b,
    ensures
        year_start(a + 1) <= year_start(b),
    decreases b - a,
{
    if a + 1 < b {
        lemma_year_start_order(a + 1, b);
        lemma_year_len(a + 1);
    }
}

proof fn lemma_offset_in_year(y: int, m: int, d: int)
    requires
        1 <= m <= 12,
        1 <= d <= days_in_month(y, m),
    ensures
        0 <= (153 * march_month(m) + 2) / 5 + d - 1,
        (153 * march_month(m) + 2) / 5 + d - 1 < year_start(march_year(y, m) + 1) - year_start(march_year(y, m)),
        march_month(m) < 11 ==> (153 * march_month(m) + 2) / 5 + d - 1 < (153 * (march_month(m) + 1) + 2) / 5,
{
    lemma_year_len(march_year(y, m));
    if m <= 2 {
        assert(march_year(y, m) + 1 == y);
    }
}

/// A day count has exactly one civil date.
pub proof fn lemma_civil_unique(z: int, y1: int, m1: int, d1: int, y2: int, m2: int, d2: int)
    requires
        is_civil_of(z, y1, m1, d1),
        is_civil_of(z, y2, m2, d2),
    ensures
        y1 == y2 && m1 == m2 && d1 == d2,
{
    let (a, b) = (march_year(y1, m1), march_year(y2, m2));
    let (p, q) = (march_month(m1), march_month(m2));
    lemma_days_split(y1, m1, d1);
    lemma_days_split(y2, m2, d2);
    lemma_offset_in_year(y1, m1, d1);
    lemma_offset_in_year(y2, m2, d2);
    if a < b {
        lemma_year_start_order(a, b);
    } else if b < a {
        lemma_year_start_order(b, a);
    }
    assert(a == b);
    assert(p == q);
}

/// `{:04}-{:02}-{:02}T{:02}:{:02}:{:02}` of a moment, followed by `+00:00` or `Z`.
pub open spec fn iso8601_text(y: int, mo: int, d: int, h: int, mi: int, s: int, zulu: bool) -> Seq<char> {
    let year = if y < 0 {
        seq!['-'] + zero_pad(decimal((-y) as nat), 3)
    } else {
        zero_pad(decimal(y as nat), 4)
    };
    year + seq!['-'] + zero_pad(decimal(mo as nat), 2) + seq!['-'] + zero_pad(decimal(d as nat), 2)
        + seq!['T'] + zero_pad(decimal(h as nat), 2) + seq![':'] + zero_pad(decimal(mi as nat), 2)
        + seq![':'] + zero_pad(decimal(s as nat), 2) + if zulu {
        seq!['Z']
    } else {
        seq!['+', '0', '0', ':', '0', '0']
    }
}

/// The UTC timestamp text of a Unix time: the civil date of its day, then hours,
/// minutes and seconds of the day.
pub open spec fn utc_timestamp(secs: int, y: int, mo: int, d: int, zulu: bool) -> Seq<char> {
    let tod = secs % 86400;
    iso8601_text(y, mo, d, tod / 3600, (tod % 3600) / 60, tod % 60, zulu)
}

fn pad2(n: u64) -> (r: Vec<char>)
    ensures
        r@ == zero_pad(decimal(n as nat), 2),
{
    zero_pad_exec(u64_decimal(n).as_slice(), 2)
}

fn year_chars(y: i64) -> (r: Vec<char>)
    ensures
        r@ == (if y < 0 {
            seq!['-'] + zero_pad(decimal((-y) as nat), 3)
        } else {
            zero_pad(decimal(y as nat), 4)
        }),
{
    if y < 0 {
        let yabs: u64 = if y == i64::MIN {
            9223372036854775808u64
        } else {
            (-y) as u64
        };
        let mut out: Vec<char> = Vec::new();
        out.push('-');
        push_all(&mut out, zero_pad_exec(u64_decimal(yabs).as_slice(), 3).as_slice());
        out
    } else {
        zero_pad_exec(u64_decimal(y as u64).as_slice(), 4)
    }
}

fn iso8601_chars(y: i64, mo: u64, d: u64, h: u64, mi: u64, s: u64, zulu: bool) -> (r: Vec<char>)
    ensures
        r@ == iso8601_text(y as int, mo as int, d as int, h as int, mi as int, s as int, zulu),
{
    let mut out = year_chars(y);
    out.push('-');
    push_all(&mut out, pad2(mo).as_slice());
    out.push('-');
    push_all(&mut out, pad2(d).as_slice());
    out.push('T');
    push_all(&mut out, pad2(h).as_slice());
    out.push(':');
    push_all(&mut out, pad2(mi).as_slice());
    out.push(':');
    push_all(&mut out, pad2(s).as_slice());
    let ghost body = out@;
    if zulu {
        out.push('Z');
    } else {
        out.push('+');
        out.push('0');
        out.push('0');
        out.push(':');
        out.push('0');
        out.push('0');
    }
    proof {
        if zulu {
            assert(out@ =~= body + seq!['Z']);
        } else {
            assert(out@ =~= body + seq!['+', '0', '0', ':', '0', '0']);
        }
    }
    out
}

/// The UTC timestamp of a Unix time in seconds, `yyyy-MM-ddTHH:mm:ss` followed by
/// `+00:00` (`zulu` false) or `Z` (`zulu` true).
pub fn unix_secs_to_iso8601_utc(secs: i64, zulu: bool) -> (r: String)
    ensures
        exists|y: int, mo: int, d: int|
            is_civil_of(secs as int / 86400, y, mo, d) && r@ == utc_timestamp(
                secs as int,
                y,
                mo,
                d,
                zulu,
            ),
{
    let days: i64;
    let tod: u64;
    if secs >= 0 {
        days = secs / 86400;
        tod = (secs % 86400) as u64;
    } else {
        let n: u64 = (-(secs as i128)) as u64;
        let q: u64 = (n + 86399) / 86400;
        days = -(q as i64);
        tod = q * 86400 - n;
    }
    assert(days as int == secs as int / 86400 && tod as int == secs as int % 86400);
    let (y, mo, d) = civil_from_days(days);
    let out = iso8601_chars(y, mo as u64, d as u64, tod / 3600, (tod % 3600) / 60, tod % 60, zulu);
    proof {
        assert(out@ == utc_timestamp(secs as int, y as int, mo as int, d as int, zulu));
    }
    string_of(out.as_slice())
}

/// The UTC timestamp of a non-negative Unix time in seconds, `yyyy-MM-ddTHH:mm:ss+00:00`.
pub fn unsigned_secs_to_iso8601_utc(secs: u64) -> (r: String)
    ensures
        exists|y: int, mo: int, d: int|
            is_civil_of(secs as int / 86400, y, mo, d) && r@ == utc_timestamp(secs as int, y, mo, d, false),
{
    let days: i64 = (secs / 86400) as i64;
    let tod: u64 = secs % 86400;
    let (y, mo, d) = civil_from_days(days);
    let out = iso8601_chars(y, mo as u64, d as u64, tod / 3600, (tod % 3600) / 60, tod % 60, false);
    proof {
        assert(out@ == utc_timestamp(secs as int, y as int, mo as int, d as int, false));
    }
    string_of(out.as_slice())
}

} // verus!
