//! Capture timestamps. The metadata containers write them as
//! `YYYY:MM:DD HH:MM:SS`; this module validates that shape by literal
//! slicing and turns it into seconds relative to 1970-01-01 00:00:00
//! in the proleptic Gregorian calendar, the form the burst clusterer
//! sorts and subtracts.

use vstd::prelude::*;
use crate::text::{char_digit, is_digit_char, str_to_chars};

verus! {

pub open spec fn is_leap_year(y: int) -> bool {
    y % 4 == 0 && (y % 100 != 0 || y % 400 == 0)
}

pub open spec fn days_in_month(y: int, m: int) -> int {
    if m == 2 {
        if is_leap_year(y) {
            29
        } else {
            28
        }
    } else if m == 4 || m == 6 || m == 9 || m == 11 {
        30
    } else {
        31
    }
}

/// Days between 1970-01-01 and the given civil date, negative for
/// earlier dates. The year is shifted by 400 (one full leap cycle,
/// 146097 days) so every intermediate value stays non-negative for
/// the years this library accepts (0 through 9999).
pub open spec fn days_from_civil(y: int, m: int, d: int) -> int {
    let yy = if m <= 2 {
        y + 399
    } else {
        y + 400
    };
    let era = yy / 400;
    let yoe = yy - era * 400;
    let mp = if m > 2 {
        m - 3
    } else {
        m + 9
    };
    let doy = (153 * mp + 2) / 5 + d - 1;
    let doe = yoe * 365 + yoe / 4 - yoe / 100 + doy;
    era * 146097 + doe - 719468 - 146097
}

pub open spec fn civil_to_epoch_seconds(y: int, m: int, d: int, h: int, mi: int, s: int) -> int {
    days_from_civil(y, m, d) * 86400 + h * 3600 + mi * 60 + s
}

pub open spec fn digit_val(c: char) -> int {
    c as int - 48
}

pub open spec fn num2(s: Seq<char>, i: int) -> int {
    10 * digit_val(s[i]) + digit_val(s[i + 1])
}

pub open spec fn num4(s: Seq<char>, i: int) -> int {
    1000 * digit_val(s[i]) + 100 * digit_val(s[i + 1]) + 10 * digit_val(s[i + 2]) + digit_val(
        s[i + 3],
    )
}

/// The shape a timestamp must have: at least nineteen characters,
/// `YYYY:MM:DD HH:MM:SS` with digits in every numeric position (the
/// date may also be written with hyphens; the character between date
/// and time is not inspected), and every field within its calendar
/// range.
pub open spec fn datetime_shape_ok(s: Seq<char>) -> bool {
    &&& s.len() >= 19
    &&& is_digit_char(s[0]) && is_digit_char(s[1]) && is_digit_char(s[2]) && is_digit_char(s[3])
    &&& (s[4] == ':' || s[4] == '-')
    &&& is_digit_char(s[5]) && is_digit_char(s[6])
    &&& (s[7] == ':' || s[7] == '-')
    &&& is_digit_char(s[8]) && is_digit_char(s[9])
    &&& is_digit_char(s[11]) && is_digit_char(s[12])
    &&& s[13] == ':'
    &&& is_digit_char(s[14]) && is_digit_char(s[15])
    &&& s[16] == ':'
    &&& is_digit_char(s[17]) && is_digit_char(s[18])
    &&& 1 <= num2(s, 5) <= 12
    &&& 1 <= num2(s, 8) <= days_in_month(num4(s, 0), num2(s, 5))
    &&& num2(s, 11) <= 23
    &&& num2(s, 14) <= 59
    &&& num2(s, 17) <= 59
}

/// What parsing a timestamp yields: its epoch seconds when the shape
/// is valid, nothing otherwise.
pub open spec fn spec_parse_exif_datetime(s: Seq<char>) -> Option<i64> {
    if datetime_shape_ok(s) {
        Some(
            civil_to_epoch_seconds(
                num4(s, 0),
                num2(s, 5),
                num2(s, 8),
                num2(s, 11),
                num2(s, 14),
                num2(s, 17),
            ) as i64,
        )
    } else {
        None
    }
}

fn digit_at(v: &Vec<char>, i: usize) -> (r: Option<u64>)
    requires
        i < v@.len(),
    ensures
        match r {
            Some(d) => is_digit_char(v@[i as int]) && d == digit_val(v@[i as int]) && d <= 9,
            None => !is_digit_char(v@[i as int]),
        },
{
    let c = v[i];
    match char_digit(c) {
        Some(d) => Some(d as u64),
        None => None,
    }
}

fn num2_at(v: &Vec<char>, i: usize) -> (r: Option<u64>)
    requires
        i + 1 < v@.len(),
    ensures
        match r {
            Some(d) => is_digit_char(v@[i as int]) && is_digit_char(v@[i as int + 1]) && d == num2(
                v@,
                i as int,
            ) && d <= 99,
            None => !(is_digit_char(v@[i as int]) && is_digit_char(v@[i as int + 1])),
        },
{
    let n = v.len();
    proof {
        assert(i + 1 < n);
    }
    match (digit_at(v, i), digit_at(v, i + 1)) {
        (Some(a), Some(b)) => Some(10 * a + b),
        _ => None,
    }
}

fn days_in_month_exec(y: u64, m: u64) -> (r: u64)
    ensures
        r == days_in_month(y as int, m as int),
        28 <= r <= 31,
{
    if m == 2 {
        if y % 4 == 0 && (y % 100 != 0 || y % 400 == 0) {
            29
        } else {
            28
        }
    } else if m == 4 || m == 6 || m == 9 || m == 11 {
        30
    } else {
        31
    }
}

/// Epoch seconds of a civil date and time within the accepted ranges.
pub fn epoch_seconds(y: u64, m: u64, d: u64, h: u64, mi: u64, s: u64) -> (r: i64)
    requires
        y <= 9999,
        1 <= m <= 12,
        1 <= d <= 31,
        h <= 23,
        mi <= 59,
        s <= 59,
    ensures
        r == civil_to_epoch_seconds(y as int, m as int, d as int, h as int, mi as int, s as int),
{
    let yy: u64 = if m <= 2 {
        y + 399
    } else {
        y + 400
    };
    let era: u64 = yy / 400;
    let yoe: u64 = yy - era * 400;
    proof {
        assert(era * 400 <= yy && yy - era * 400 < 400 && era <= 25) by (nonlinear_arith)
            requires
                era == yy / 400,
                399 <= yy <= 10399,
        ;
    }
    let mp: u64 = if m > 2 {
        m - 3
    } else {
        m + 9
    };
    let doy: u64 = (153 * mp + 2) / 5 + d - 1;
    proof {
        assert((153 * mp + 2) / 5 <= 337) by (nonlinear_arith)
            requires
                mp <= 11,
        ;
    }
    let doe: u64 = yoe * 365 + yoe / 4 - yoe / 100 + doy;
    proof {
        assert(yoe * 365 + yoe / 4 >= yoe / 100) by (nonlinear_arith)
            requires
                yoe < 400,
        ;
        assert(yoe * 365 <= 146000) by (nonlinear_arith)
            requires
                yoe < 400,
        ;
        assert(yoe / 4 <= 100 && yoe / 100 <= 4) by (nonlinear_arith)
            requires
                yoe < 400,
        ;
    }
    let shifted_days: u64 = era * 146097 + doe;
    proof {
        assert(era * 146097 <= 25 * 146097) by (nonlinear_arith)
            requires
                era <= 25,
        ;
    }
    let shifted_secs: u64 = shifted_days * 86400 + h * 3600 + mi * 60 + s;
    proof {
        assert(shifted_days * 86400 <= 3799000 * 86400) by (nonlinear_arith)
            requires
                shifted_days <= 3799000,
        ;
    }
    // 865565 days of shift: 719468 to move the anchor to 1970-01-01,
    // plus the 146097 days of the 400-year shift above.
    let r: i64 = (shifted_secs as i64) - 74784816000i64;
    proof {
        assert(865565int * 86400 == 74784816000int);
        assert(r == civil_to_epoch_seconds(
            y as int,
            m as int,
            d as int,
            h as int,
            mi as int,
            s as int,
        ));
    }
    r
}

/// Parse a metadata timestamp by literal slicing: the first nineteen
/// characters must read `YYYY:MM:DD HH:MM:SS` (date separators may be
/// hyphens) and name a real calendar date and time; anything longer
/// is ignored, anything else yields nothing.
pub fn parse_exif_datetime(s: &str) -> (r: Option<i64>)
    ensures
        r == spec_parse_exif_datetime(s@),
{
    let v = str_to_chars(s);
    if v.len() < 19 {
        return None;
    }
    if !(v[4] == ':' || v[4] == '-') || !(v[7] == ':' || v[7] == '-') || v[13] != ':' || v[16]
        != ':' {
        return None;
    }
    let (y, mo) = match (num2_at(&v, 0), num2_at(&v, 2), num2_at(&v, 5)) {
        (Some(hi), Some(lo), Some(mo)) => (100 * hi + lo, mo),
        _ => {
            return None;
        },
    };
    proof {
        assert(y == num4(v@, 0));
    }
    let (d, h) = match (num2_at(&v, 8), num2_at(&v, 11)) {
        (Some(d), Some(h)) => (d, h),
        _ => {
            return None;
        },
    };
    let (mi, sec) = match (num2_at(&v, 14), num2_at(&v, 17)) {
        (Some(mi), Some(sec)) => (mi, sec),
        _ => {
            return None;
        },
    };
    if !(1 <= mo && mo <= 12) {
        return None;
    }
    if !(1 <= d && d <= days_in_month_exec(y, mo)) {
        return None;
    }
    if h > 23 || mi > 59 || sec > 59 {
        return None;
    }
    proof {
        assert(datetime_shape_ok(s@));
    }
    Some(epoch_seconds(y, mo, d, h, mi, sec))
}

} // verus!
