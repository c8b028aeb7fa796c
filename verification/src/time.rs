//! Timestamps.
//!
//! The API stores instants as signed milliseconds since the Unix epoch and
//! accepts them on the wire as ISO-8601 strings with an explicit UTC offset:
//! `YYYY-MM-DDTHH:MM:SS`, an optional fraction of one to nine digits (read to
//! millisecond precision), and `Z` or `+HH:MM` / `-HH:MM`. Years from 1970 to
//! 9999 are accepted.

use vstd::prelude::*;

verus! {

pub open spec fn is_digit(c: char) -> bool {
    48 <= c as u32 && c as u32 <= 57
}

/// Numeric value of a decimal digit character.
pub open spec fn dval(c: char) -> int {
    c as u32 - 48
}

pub open spec fn is_leap_year(y: int) -> bool {
    y % 4 == 0 && (y % 100 != 0 || y % 400 == 0)
}

pub open spec fn days_in_month(y: int, m: int) -> int {
    if m == 2 {
        if is_leap_year(y) {
            29
        } else {
            28
        }
    } else if m == 4 || m == 6 || m == 9 || m == 11 {
        30
    } else {
        31
    }
}

/// Days in year `y` before the first of month `m`.
pub open spec fn days_before_month(y: int, m: int) -> int {
    (if m == 1 {
        0int
    } else if m == 2 {
        31
    } else if m == 3 {
        59
    } else if m == 4 {
        90
    } else if m == 5 {
        120
    } else if m == 6 {
        151
    } else if m == 7 {
        181
    } else if m == 8 {
        212
    } else if m == 9 {
        243
    } else if m == 10 {
        273
    } else if m == 11 {
        304
    } else {
        334
    }) + if m > 2 && is_leap_year(y) {
        1int
    } else {
        0int
    }
}

/// Number of leap years in `[1, y]`.
pub open spec fn leap_years_upto(y: int) -> int {
    y / 4 - y / 100 + y / 400
}

/// Days from 1970-01-01 to the civil date `y-m-d`.
pub open spec fn days_from_epoch(y: int, m: int, d: int) -> int {
    365 * (y - 1970) + leap_years_upto(y - 1) - leap_years_upto(1969) + days_before_month(y, m) + (
    d - 1)
}

pub open spec fn year_of(s: Seq<char>) -> int {
    1000 * dval(s[0]) + 100 * dval(s[1]) + 10 * dval(s[2]) + dval(s[3])
}

pub open spec fn month_of(s: Seq<char>) -> int {
    10 * dval(s[5]) + dval(s[6])
}

pub open spec fn day_of(s: Seq<char>) -> int {
    10 * dval(s[8]) + dval(s[9])
}

pub open spec fn hour_of(s: Seq<char>) -> int {
    10 * dval(s[11]) + dval(s[12])
}

pub open spec fn minute_of(s: Seq<char>) -> int {
    10 * dval(s[14]) + dval(s[15])
}

pub open spec fn second_of(s: Seq<char>) -> int {
    10 * dval(s[17]) + dval(s[18])
}

/// The fixed-width date-time part `YYYY-MM-DDTHH:MM:SS` is well formed and its
/// fields are in range.
pub open spec fn header_ok(s: Seq<char>) -> bool {
    &&& s.len() >= 20
    &&& is_digit(s[0]) && is_digit(s[1]) && is_digit(s[2]) && is_digit(s[3])
    &&& s[4] == '-' && is_digit(s[5]) && is_digit(s[6])
    &&& s[7] == '-' && is_digit(s[8]) && is_digit(s[9])
    &&& s[10] == 'T' && is_digit(s[11]) && is_digit(s[12])
    &&& s[13] == ':' && is_digit(s[14]) && is_digit(s[15])
    &&& s[16] == ':' && is_digit(s[17]) && is_digit(s[18])
    &&& 1970 <= year_of(s) <= 9999
    &&& 1 <= month_of(s) <= 12
    &&& 1 <= day_of(s) <= days_in_month(year_of(s), month_of(s))
    &&& hour_of(s) <= 23
    &&& minute_of(s) <= 59
    &&& second_of(s) <= 59
}

/// Length of the run of decimal digits starting at position `i`.
pub open spec fn digit_run(s: Seq<char>, i: int) -> int
    decreases s.len() - i when 0 <= i <= s.len()
{
    if i < s.len() && is_digit(s[i]) {
        1 + digit_run(s, i + 1)
    } else {
        0
    }
}

/// An offset designator stands at position `j` and ends the string: either
/// `Z` or a sign with `HH:MM` in range.
pub open spec fn suffix_ok(s: Seq<char>, j: int) -> bool {
    ||| (s.len() == j + 1 && s[j] == 'Z')
    ||| (s.len() == j + 6 && (s[j] == '+' || s[j] == '-') && is_digit(s[j + 1]) && is_digit(
        s[j + 2],
    ) && s[j + 3] == ':' && is_digit(s[j + 4]) && is_digit(s[j + 5]) && 10 * dval(s[j + 1]) + dval(
        s[j + 2],
    ) <= 23 && 10 * dval(s[j + 4]) + dval(s[j + 5]) <= 59)
}

/// Position of the offset designator: right after the seconds, or after the
/// fraction when one is present.
pub open spec fn offset_pos(s: Seq<char>) -> int {
    if s[19] == '.' {
        20 + digit_run(s, 20)
    } else {
        19
    }
}

/// The tail after the seconds is well formed: an optional fraction of one to
/// nine digits, then an offset designator ending the string.
pub open spec fn tail_ok(s: Seq<char>) -> bool {
    if s[19] == '.' {
        1 <= digit_run(s, 20) <= 9 && suffix_ok(s, offset_pos(s))
    } else {
        suffix_ok(s, 19)
    }
}

/// Milliseconds read from the fraction: the first three fractional digits,
/// right-padded with zeros.
pub open spec fn frac_millis(s: Seq<char>) -> int {
    if s[19] == '.' {
        let n = digit_run(s, 20);
        if n == 1 {
            100 * dval(s[20])
        } else if n == 2 {
            100 * dval(s[20]) + 10 * dval(s[21])
        } else {
            100 * dval(s[20]) + 10 * dval(s[21]) + dval(s[22])
        }
    } else {
        0
    }
}

/// Signed UTC offset in minutes.
pub open spec fn utc_offset_minutes(s: Seq<char>) -> int {
    let j = offset_pos(s);
    if s[j] == 'Z' {
        0
    } else {
        let m = (10 * dval(s[j + 1]) + dval(s[j + 2])) * 60 + 10 * dval(s[j + 4]) + dval(s[j + 5]);
        if s[j] == '-' {
            -m
        } else {
            m
        }
    }
}

/// The instant a well-formed ISO-8601 string denotes, in milliseconds since
/// the Unix epoch, or `None` when the string is not well formed.
pub open spec fn ts_millis(s: Seq<char>) -> Option<int> {
    if header_ok(s) && tail_ok(s) {
        let days = days_from_epoch(year_of(s), month_of(s), day_of(s));
        let secs = days * 86400 + hour_of(s) * 3600 + minute_of(s) * 60 + second_of(s)
            - utc_offset_minutes(s) * 60;
        Some(secs * 1000 + frac_millis(s))
    } else {
        None
    }
}

fn is_digit_e(c: char) -> (r: bool)
    ensures
        r == is_digit(c),
{
    let n = c as u32;
    48 <= n && n <= 57
}

fn dv_e(c: char) -> (r: i64)
    requires
        is_digit(c),
    ensures
        r == dval(c),
{
    (c as u32 - 48) as i64
}

fn two_digits(s: &str, i: usize) -> (r: Option<i64>)
    requires
        i + 1 < s@.len(),
        s@.len() <= usize::MAX,
    ensures
        match r {
            Some(v) => is_digit(s@[i as int]) && is_digit(s@[i as int + 1]) && v == 10 * dval(
                s@[i as int],
            ) + dval(s@[i as int + 1]) && 0 <= v <= 99,
            None => !(is_digit(s@[i as int]) && is_digit(s@[i as int + 1])),
        },
{
    let c0 = s.get_char(i);
    let c1 = s.get_char(i + 1);
    if is_digit_e(c0) && is_digit_e(c1) {
        Some(10 * dv_e(c0) + dv_e(c1))
    } else {
        None
    }
}

fn days_in_month_e(y: i64, m: i64) -> (r: i64)
    requires
        1970 <= y <= 9999,
        1 <= m <= 12,
    ensures
        r == days_in_month(y as int, m as int),
{
    if m == 2 {
        if (y % 4 == 0 && y % 100 != 0) || y % 400 == 0 {
            29
        } else {
            28
        }
    } else if m == 4 || m == 6 || m == 9 || m == 11 {
        30
    } else {
        31
    }
}

fn days_before_month_e(y: i64, m: i64) -> (r: i64)
    requires
        1970 <= y <= 9999,
        1 <= m <= 12,
    ensures
        r == days_before_month(y as int, m as int),
        0 <= r <= 335,
{
    let base: i64 = if m == 1 {
        0
    } else if m == 2 {
        31
    } else if m == 3 {
        59
    } else if m == 4 {
        90
    } else if m == 5 {
        120
    } else if m == 6 {
        151
    } else if m == 7 {
        181
    } else if m == 8 {
        212
    } else if m == 9 {
        243
    } else if m == 10 {
        273
    } else if m == 11 {
        304
    } else {
        334
    };
    let leap: i64 = if m > 2 && ((y % 4 == 0 && y % 100 != 0) || y % 400 == 0) {
        1
    } else {
        0
    };
    base + leap
}

fn days_from_epoch_e(y: i64, m: i64, d: i64) -> (r: i64)
    requires
        1970 <= y <= 9999,
        1 <= m <= 12,
        1 <= d <= 31,
    ensures
        r == days_from_epoch(y as int, m as int, d as int),
        -600 <= r < 3000000,
{
    let yy = y - 1;
    let leaps = yy / 4 - yy / 100 + yy / 400;
    assert(0 <= yy / 4 <= 2499);
    assert(0 <= yy / 100 <= 99);
    assert(0 <= yy / 400 <= 24);
    let dbm = days_before_month_e(y, m);
    365 * (y - 1970) + leaps - 477 + dbm + (d - 1)
}

proof fn lemma_digit_run(s: Seq<char>, i: int, n: int)
    requires
        0 <= i,
        0 <= n,
        i + n <= s.len(),
        forall|k: int| i <= k < i + n ==> is_digit(#[trigger] s[k]),
        i + n == s.len() || !is_digit(s[i + n]),
    ensures
        digit_run(s, i) == n,
    decreases n,
{
    if n > 0 {
        assert(is_digit(s[i]));
        lemma_digit_run(s, i + 1, n - 1);
    } else {
        assert(i == s.len() || !is_digit(s[i + 0]));
    }
}

/// Parse an ISO-8601 timestamp, returning the instant it denotes in
/// milliseconds since the Unix epoch, and `None` exactly on strings the
/// grammar rejects.
#[verifier::rlimit(100)]
pub fn parse_timestamp(s: &str) -> (r: Option<i64>)
    ensures
        match r {
            Some(t) => ts_millis(s@) == Some(t as int),
            None => ts_millis(s@) is None,
        },
{
    let n = s.unicode_len();
    if n < 20 {
        return None;
    }
    if s.get_char(4) != '-' || s.get_char(7) != '-' || s.get_char(10) != 'T' || s.get_char(13)
        != ':' || s.get_char(16) != ':' {
        return None;
    }
    let y_hi = match two_digits(s, 0) {
        Some(v) => v,
        None => {
            return None;
        },
    };
    let y_lo = match two_digits(s, 2) {
        Some(v) => v,
        None => {
            return None;
        },
    };
    let y = 100 * y_hi + y_lo;
    let mo = match two_digits(s, 5) {
        Some(v) => v,
        None => {
            return None;
        },
    };
    let d = match two_digits(s, 8) {
        Some(v) => v,
        None => {
            return None;
        },
    };
    let h = match two_digits(s, 11) {
        Some(v) => v,
        None => {
            return None;
        },
    };
    let mi = match two_digits(s, 14) {
        Some(v) => v,
        None => {
            return None;
        },
    };
    let sec = match two_digits(s, 17) {
        Some(v) => v,
        None => {
            return None;
        },
    };
    if !(1970 <= y && y <= 9999) {
        return None;
    }
    if !(1 <= mo && mo <= 12) {
        return None;
    }
    let dim = days_in_month_e(y, mo);
    if !(1 <= d && d <= dim) {
        return None;
    }
    if h > 23 || mi > 59 || sec > 59 {
        return None;
    }
    let c19 = s.get_char(19);
    let mut frac: i64 = 0;
    let mut j: usize = 19;
    if c19 == '.' {
        let mut i: usize = 20;
        while i < n && is_digit_e(s.get_char(i))
            invariant
                20 <= i <= n,
                n as nat == s@.len(),
                s@.len() <= usize::MAX,
                forall|k: int| 20 <= k < i ==> is_digit(#[trigger] s@[k]),
            decreases n - i,
        {
            i = i + 1;
        }
        let run = i - 20;
        proof {
            lemma_digit_run(s@, 20, run as int);
        }
        if run < 1 || run > 9 {
            return None;
        }
        frac = 100 * dv_e(s.get_char(20));
        if run >= 2 {
            frac = frac + 10 * dv_e(s.get_char(21));
        }
        if run >= 3 {
            frac = frac + dv_e(s.get_char(22));
        }
        j = i;
    }
    if j >= n {
        return None;
    }
    let cj = s.get_char(j);
    let mut off: i64 = 0;
    if cj == 'Z' {
        if n != j + 1 {
            return None;
        }
    } else if cj == '+' || cj == '-' {
        if n != j + 6 {
            return None;
        }
        if s.get_char(j + 3) != ':' {
            return None;
        }
        let oh = match two_digits(s, j + 1) {
            Some(v) => v,
            None => {
                return None;
            },
        };
        let om = match two_digits(s, j + 4) {
            Some(v) => v,
            None => {
                return None;
            },
        };
        if oh > 23 || om > 59 {
            return None;
        }
        off = oh * 60 + om;
        if cj == '-' {
            off = -off;
        }
    } else {
        return None;
    }
    let days = days_from_epoch_e(y, mo, d);
    let secs = days * 86400 + h * 3600 + mi * 60 + sec - off * 60;
    Some(secs * 1000 + frac)
}

} // verus!
