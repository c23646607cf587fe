//! HTTP dates and the conditional request headers, with whole-second
//! resolution: `Last-Modified`, `If-Modified-Since`, `If-Unmodified-Since`.
//!
//! A point in time is a count of seconds since the Unix epoch. Formatting
//! yields the IMF-fixdate form, `Wed, 01 Jan 2020 00:00:00 GMT`; parsing
//! accepts that same form.

use vstd::prelude::*;
use vstd::string::StringExecFns;

use crate::content_encoding::{digit_val, is_digit};
use crate::strutil::digit;

verus! {

/// One second past the last formattable moment: the first second of the
/// year 10000.
pub const MAX_HTTP_DATE_SECS: u64 = 253402300800;

/// Whether `y` is a leap year.
pub open spec fn is_leap_year(y: int) -> bool {
    y % 4 == 0 && (y % 100 != 0 || y % 400 == 0)
}

/// Days in year `y`.
pub open spec fn days_in_year(y: int) -> int {
    if is_leap_year(y) {
        366
    } else {
        365
    }
}

/// Days between 1970-01-01 and the first day of year `y`.
pub open spec fn days_before_year(y: int) -> int
    decreases y,
{
    if y <= 1970 {
        0
    } else {
        days_before_year(y - 1) + days_in_year(y - 1)
    }
}

/// Days in month `m` (1-based) of year `y`.
pub open spec fn days_in_month(y: int, m: int) -> int {
    if m == 1 {
        31
    } else if m == 2 {
        if is_leap_year(y) {
            29
        } else {
            28
        }
    } else if m == 3 {
        31
    } else if m == 4 {
        30
    } else if m == 5 {
        31
    } else if m == 6 {
        30
    } else if m == 7 {
        31
    } else if m == 8 {
        31
    } else if m == 9 {
        30
    } else if m == 10 {
        31
    } else if m == 11 {
        30
    } else {
        31
    }
}

/// Days between the first day of year `y` and the first day of its month `m`.
pub open spec fn days_before_month(y: int, m: int) -> int
    decreases m,
{
    if m <= 1 {
        0
    } else {
        days_before_month(y, m - 1) + days_in_month(y, m - 1)
    }
}

/// The day count of the civil date `y-m-d`, counted from 1970-01-01.
pub open spec fn civil_to_days(y: int, m: int, d: int) -> int {
    days_before_year(y) + days_before_month(y, m) + (d - 1)
}

/// The second count of the civil moment `y-m-d h:mi:s` UTC.
pub open spec fn civil_to_secs(y: int, m: int, d: int, h: int, mi: int, s: int) -> int {
    civil_to_days(y, m, d) * 86400 + h * 3600 + mi * 60 + s
}

/// Whether `y-m-d h:mi:s` is a real calendar moment this module covers.
pub open spec fn valid_civil(y: int, m: int, d: int, h: int, mi: int, s: int) -> bool {
    &&& 1970 <= y <= 9999
    &&& 1 <= m <= 12
    &&& 1 <= d <= days_in_month(y, m)
    &&& 0 <= h < 24
    &&& 0 <= mi < 60
    &&& 0 <= s < 60
}

/// Strip whole years off a day count: the year `days` falls in when counting
/// from the first day of `y`, and the remaining day-of-year.
pub open spec fn year_split(y: int, days: int) -> (int, int)
    decreases days,
{
    if days < days_in_year(y) || days < 0 {
        (y, days)
    } else {
        year_split(y + 1, days - days_in_year(y))
    }
}

/// Strip whole months off a day-of-year: the month a day index falls in, and
/// the remaining zero-based day-of-month.
pub open spec fn month_split(y: int, m: int, days: int) -> (int, int)
    decreases 12 - m,
{
    if m >= 12 || days < days_in_month(y, m) || days < 0 {
        (m, days)
    } else {
        month_split(y, m + 1, days - days_in_month(y, m))
    }
}

/// The civil date of day number `days`.
pub open spec fn civil_of_days(days: int) -> (int, int, int) {
    let (y, rem) = year_split(1970, days);
    let (m, d0) = month_split(y, 1, rem);
    (y, m, d0 + 1)
}

/// The three-letter name of month `m` (1-based).
pub open spec fn month_name(m: int) -> Seq<char> {
    if m == 1 {
        seq!['J', 'a', 'n']
    } else if m == 2 {
        seq!['F', 'e', 'b']
    } else if m == 3 {
        seq!['M', 'a', 'r']
    } else if m == 4 {
        seq!['A', 'p', 'r']
    } else if m == 5 {
        seq!['M', 'a', 'y']
    } else if m == 6 {
        seq!['J', 'u', 'n']
    } else if m == 7 {
        seq!['J', 'u', 'l']
    } else if m == 8 {
        seq!['A', 'u', 'g']
    } else if m == 9 {
        seq!['S', 'e', 'p']
    } else if m == 10 {
        seq!['O', 'c', 't']
    } else if m == 11 {
        seq!['N', 'o', 'v']
    } else {
        seq!['D', 'e', 'c']
    }
}

/// The three-letter name of weekday `w`, `0` being Sunday.
pub open spec fn weekday_name(w: int) -> Seq<char> {
    if w == 0 {
        seq!['S', 'u', 'n']
    } else if w == 1 {
        seq!['M', 'o', 'n']
    } else if w == 2 {
        seq!['T', 'u', 'e']
    } else if w == 3 {
        seq!['W', 'e', 'd']
    } else if w == 4 {
        seq!['T', 'h', 'u']
    } else if w == 5 {
        seq!['F', 'r', 'i']
    } else {
        seq!['S', 'a', 't']
    }
}

/// The month a three-letter name denotes.
pub open spec fn month_of_name(s: Seq<char>) -> Option<int> {
    if s == month_name(1) {
        Some(1int)
    } else if s == month_name(2) {
        Some(2int)
    } else if s == month_name(3) {
        Some(3int)
    } else if s == month_name(4) {
        Some(4int)
    } else if s == month_name(5) {
        Some(5int)
    } else if s == month_name(6) {
        Some(6int)
    } else if s == month_name(7) {
        Some(7int)
    } else if s == month_name(8) {
        Some(8int)
    } else if s == month_name(9) {
        Some(9int)
    } else if s == month_name(10) {
        Some(10int)
    } else if s == month_name(11) {
        Some(11int)
    } else if s == month_name(12) {
        Some(12int)
    } else {
        None
    }
}

/// Whether a three-letter sequence names a weekday.
pub open spec fn is_weekday_name(s: Seq<char>) -> bool {
    exists|w: int| 0 <= w < 7 && s == weekday_name(w)
}

/// The IMF-fixdate characters of the moment `t` seconds after the epoch.
pub open spec fn http_date_chars(t: int) -> Seq<char> {
    let days = t / 86400;
    let secs = t % 86400;
    let h = secs / 3600;
    let mi = (secs / 60) % 60;
    let s = secs % 60;
    let ymd = civil_of_days(days);
    let y = ymd.0;
    let m = ymd.1;
    let d = ymd.2;
    let wd = weekday_name((days + 4) % 7);
    let mn = month_name(m);
    seq![
        wd[0],
        wd[1],
        wd[2],
        ',',
        ' ',
        digit(d / 10),
        digit(d % 10),
        ' ',
        mn[0],
        mn[1],
        mn[2],
        ' ',
        digit(y / 1000),
        digit((y / 100) % 10),
        digit((y / 10) % 10),
        digit(y % 10),
        ' ',
        digit(h / 10),
        digit(h % 10),
        ':',
        digit(mi / 10),
        digit(mi % 10),
        ':',
        digit(s / 10),
        digit(s % 10),
        ' ',
        'G',
        'M',
        'T',
    ]
}

/// The moment an IMF-fixdate names, in seconds after the epoch; `None` when
/// the characters are not such a date, name one before 1970, or carry an
/// out-of-range field.
pub open spec fn http_date_of_chars(c: Seq<char>) -> Option<int> {
    if c.len() != 29 {
        None
    } else if !is_weekday_name(c.subrange(0, 3)) {
        None
    } else if c[3] != ',' || c[4] != ' ' || c[7] != ' ' || c[11] != ' ' || c[16] != ' ' || c[19]
        != ':' || c[22] != ':' || c[25] != ' ' || c[26] != 'G' || c[27] != 'M' || c[28] != 'T' {
        None
    } else if !is_digit(c[5]) || !is_digit(c[6]) || !is_digit(c[12]) || !is_digit(c[13])
        || !is_digit(c[14]) || !is_digit(c[15]) || !is_digit(c[17]) || !is_digit(c[18])
        || !is_digit(c[20]) || !is_digit(c[21]) || !is_digit(c[23]) || !is_digit(c[24]) {
        None
    } else {
        match month_of_name(c.subrange(8, 11)) {
            Option::None => None,
            Option::Some(m) => {
                let d = digit_val(c[5]) * 10 + digit_val(c[6]);
                let y = digit_val(c[12]) * 1000 + digit_val(c[13]) * 100 + digit_val(c[14]) * 10
                    + digit_val(c[15]);
                let h = digit_val(c[17]) * 10 + digit_val(c[18]);
                let mi = digit_val(c[20]) * 10 + digit_val(c[21]);
                let s = digit_val(c[23]) * 10 + digit_val(c[24]);
                if valid_civil(y, m, d, h, mi, s) {
                    Some(civil_to_secs(y, m, d, h, mi, s))
                } else {
                    None
                }
            },
        }
    }
}

/// A later year never has a smaller day count, and each year adds at least
/// 365 days.
pub proof fn lemma_days_before_year_mono(a: int, b: int)
    requires
        1970 <= a <= b,
    ensures
        days_before_year(a) <= days_before_year(b),
        days_before_year(a) + 365 * (b - a) <= days_before_year(b),
    decreases b - a,
{
    if a < b {
        lemma_days_before_year_mono(a, b - 1);
    }
}

/// The months of a year sum to its day count.
pub proof fn lemma_days_before_month_full(y: int)
    ensures
        days_before_month(y, 13) == days_in_year(y),
{
    reveal_with_fuel(days_before_month, 14);
}

/// Months never shrink the day count.
pub proof fn lemma_days_before_month_mono(y: int, a: int, b: int)
    requires
        a <= b,
    ensures
        days_before_month(y, a) <= days_before_month(y, b),
    decreases b - a,
{
    if a < b {
        lemma_days_before_month_mono(y, a, b - 1);
    }
}

/// What stripping whole years yields: a year at or after the start, a day
/// index inside that year, and a day count that adds back up.
pub proof fn lemma_year_split(y: int, days: int)
    requires
        0 <= days,
    ensures
        ({
            let (yy, rem) = year_split(y, days);
            &&& yy >= y
            &&& 0 <= rem < days_in_year(yy)
            &&& 1970 <= y ==> days_before_year(yy) == days_before_year(y) + days - rem
        }),
    decreases days,
{
    if days >= days_in_year(y) {
        lemma_year_split(y + 1, days - days_in_year(y));
    }
}

/// What stripping whole months yields: a month of the year, a day index
/// inside it, and a day count that adds back up.
pub proof fn lemma_month_split(y: int, m: int, days: int)
    requires
        1 <= m <= 12,
        0 <= days,
        days_before_month(y, m) + days < days_in_year(y),
    ensures
        ({
            let (mm, dd) = month_split(y, m, days);
            &&& m <= mm <= 12
            &&& 0 <= dd < days_in_month(y, mm)
            &&& days_before_month(y, mm) + dd == days_before_month(y, m) + days
        }),
    decreases 12 - m,
{
    lemma_days_before_month_full(y);
    if m >= 12 || days < days_in_month(y, m) {
        if m >= 12 {
            assert(days_before_month(y, 13) == days_before_month(y, 12) + days_in_month(y, 12));
        }
    } else {
        lemma_month_split(y, m + 1, days - days_in_month(y, m));
    }
}

/// The civil date of a day count inside the covered range is a real date,
/// and turning it back into days is the identity.
pub proof fn lemma_civil_of_days(days: int)
    requires
        0 <= days < days_before_year(10000),
    ensures
        ({
            let (y, m, d) = civil_of_days(days);
            &&& 1970 <= y <= 9999
            &&& 1 <= m <= 12
            &&& 1 <= d <= days_in_month(y, m)
            &&& civil_to_days(y, m, d) == days
        }),
{
    lemma_year_split(1970, days);
    let (yy, rem) = year_split(1970, days);
    if yy >= 10000 {
        lemma_days_before_year_mono(10000, yy);
        assert(days_before_year(10000) <= days_before_year(yy));
        assert(days_before_year(yy) == days - rem);
        assert(false);
    }
    lemma_month_split(yy, 1, rem);
}

/// Day counts through year 9999 stay below the day count of year 10000.
pub proof fn lemma_civil_to_days_bound(y: int, m: int, d: int)
    requires
        1970 <= y <= 9999,
        1 <= m <= 12,
        1 <= d <= days_in_month(y, m),
    ensures
        0 <= civil_to_days(y, m, d) < days_before_year(10000),
{
    lemma_days_before_year_mono(1970, y);
    lemma_days_before_month_mono(y, 1, m);
    lemma_days_before_month_mono(y, m + 1, 13);
    lemma_days_before_month_full(y);
    assert(days_before_month(y, m + 1) == days_before_month(y, m) + days_in_month(y, m));
    assert(days_before_month(y, m) + d - 1 < days_before_month(y, m + 1));
    assert(days_before_month(y, m + 1) <= days_in_year(y));
    assert(days_before_year(y + 1) == days_before_year(y) + days_in_year(y));
    assert(civil_to_days(y, m, d) < days_before_year(y + 1));
    lemma_days_before_year_mono(y + 1, 10000);
}

/// Stepping a floor division by one: the quotient grows exactly at the
/// multiples of the divisor.
proof fn lemma_div_step(x: int, d: int)
    requires
        d > 0,
    ensures
        x / d == if x % d == 0 {
            (x - 1) / d + 1
        } else {
            (x - 1) / d
        },
{
    vstd::arithmetic::div_mod::lemma_fundamental_div_mod(x, d);
    if x % d == 0 {
        assert(x - 1 == (x / d - 1) * d + (d - 1)) by (nonlinear_arith)
            requires
                x == d * (x / d) + x % d,
                x % d == 0,
        ;
        vstd::arithmetic::div_mod::lemma_fundamental_div_mod_converse(x - 1, d, x / d - 1, d - 1);
    } else {
        assert(x - 1 == (x / d) * d + (x % d - 1)) by (nonlinear_arith)
            requires
                x == d * (x / d) + x % d,
        ;
        vstd::arithmetic::div_mod::lemma_fundamental_div_mod_converse(x - 1, d, x / d, x % d - 1);
    }
}

/// A multiple of 400 is a multiple of 100, and one of 100 a multiple of 4.
proof fn lemma_mod_coarsen(x: int)
    ensures
        x % 400 == 0 ==> x % 100 == 0,
        x % 100 == 0 ==> x % 4 == 0,
{
    vstd::arithmetic::div_mod::lemma_fundamental_div_mod(x, 400);
    vstd::arithmetic::div_mod::lemma_fundamental_div_mod(x, 100);
    if x % 400 == 0 {
        assert(x == (4 * (x / 400)) * 100 + 0) by (nonlinear_arith)
            requires
                x == 400 * (x / 400) + x % 400,
                x % 400 == 0,
        ;
        vstd::arithmetic::div_mod::lemma_fundamental_div_mod_converse(x, 100, 4 * (x / 400), 0);
    }
    if x % 100 == 0 {
        assert(x == (25 * (x / 100)) * 4 + 0) by (nonlinear_arith)
            requires
                x == 100 * (x / 100) + x % 100,
                x % 100 == 0,
        ;
        vstd::arithmetic::div_mod::lemma_fundamental_div_mod_converse(x, 4, 25 * (x / 100), 0);
    }
}

/// The closed form of the day count before year `y`: 365 days a year plus
/// one for each leap year since 1970.
pub proof fn lemma_days_before_year_value(y: int)
    requires
        1970 <= y,
    ensures
        days_before_year(y) == 365 * (y - 1970) + ((y - 1) / 4 - 492) - ((y - 1) / 100 - 19) + (
        (y - 1) / 400 - 4),
    decreases y,
{
    if y == 1970 {
    } else {
        lemma_days_before_year_value(y - 1);
        lemma_div_step(y - 1, 4);
        lemma_div_step(y - 1, 100);
        lemma_div_step(y - 1, 400);
        lemma_mod_coarsen(y - 1);
    }
}

/// The day count before year 10000, as a number.
pub proof fn lemma_days_before_year_10000()
    ensures
        days_before_year(10000) == 2932897,
{
    lemma_days_before_year_value(10000);
}

/// Days in a year, executable.
fn days_in_year_x(y: u64) -> (r: u64)
    ensures
        r == days_in_year(y as int),
{
    if (y % 4 == 0 && (y % 100 != 0 || y % 400 == 0)) {
        366
    } else {
        365
    }
}

/// Days in a month, executable.
fn days_in_month_x(y: u64, m: u64) -> (r: u64)
    requires
        1 <= m <= 12,
    ensures
        r == days_in_month(y as int, m as int),
{
    if m == 1 {
        31
    } else if m == 2 {
        if y % 4 == 0 && (y % 100 != 0 || y % 400 == 0) {
            29
        } else {
            28
        }
    } else if m == 3 {
        31
    } else if m == 4 {
        30
    } else if m == 5 {
        31
    } else if m == 6 {
        30
    } else if m == 7 {
        31
    } else if m == 8 {
        31
    } else if m == 9 {
        30
    } else if m == 10 {
        31
    } else if m == 11 {
        30
    } else {
        31
    }
}

/// The civil date of day number `days`, executable.
fn days_to_civil(days: u64) -> (r: (u64, u64, u64))
    requires
        days < 2932897,
    ensures
        (r.0 as int, r.1 as int, r.2 as int) == civil_of_days(days as int),
        1970 <= r.0 <= 9999,
        1 <= r.1 <= 12,
        1 <= r.2 <= 31,
        civil_to_days(r.0 as int, r.1 as int, r.2 as int) == days,
{
    proof {
        lemma_days_before_year_10000();
        lemma_civil_of_days(days as int);
    }
    let mut y: u64 = 1970;
    let mut rem: u64 = days;
    while rem >= days_in_year_x(y)
        invariant
            days < 2932897,
            rem <= days,
            1970 <= y,
            y - 1970 <= days - rem,
            year_split(1970, days as int) == year_split(y as int, rem as int),
        decreases rem,
    {
        rem = rem - days_in_year_x(y);
        y = y + 1;
    }
    let mut m: u64 = 1;
    let mut d: u64 = rem;
    while m < 12 && d >= days_in_month_x(y, m)
        invariant
            1 <= m <= 12,
            d <= rem,
            month_split(y as int, 1, rem as int) == month_split(y as int, m as int, d as int),
        decreases 12 - m,
    {
        d = d - days_in_month_x(y, m);
        m = m + 1;
    }
    (y, m, d + 1)
}

/// One decimal digit as a string.
fn digit_str(k: u64) -> (r: &'static str)
    requires
        k < 10,
    ensures
        r@ =~= seq![digit(k as int)],
{
    if k == 0 {
        let s = "0";
        proof {
            reveal_strlit("0");
        }
        s
    } else if k == 1 {
        let s = "1";
        proof {
            reveal_strlit("1");
        }
        s
    } else if k == 2 {
        let s = "2";
        proof {
            reveal_strlit("2");
        }
        s
    } else if k == 3 {
        let s = "3";
        proof {
            reveal_strlit("3");
        }
        s
    } else if k == 4 {
        let s = "4";
        proof {
            reveal_strlit("4");
        }
        s
    } else if k == 5 {
        let s = "5";
        proof {
            reveal_strlit("5");
        }
        s
    } else if k == 6 {
        let s = "6";
        proof {
            reveal_strlit("6");
        }
        s
    } else if k == 7 {
        let s = "7";
        proof {
            reveal_strlit("7");
        }
        s
    } else if k == 8 {
        let s = "8";
        proof {
            reveal_strlit("8");
        }
        s
    } else {
        let s = "9";
        proof {
            reveal_strlit("9");
        }
        s
    }
}

/// The three-letter name of weekday `w`, `0` being Sunday.
fn weekday_str(w: u64) -> (r: &'static str)
    requires
        w < 7,
    ensures
        r@ =~= weekday_name(w as int),
{
    if w == 0 {
        let s = "Sun";
        proof {
            reveal_strlit("Sun");
        }
        s
    } else if w == 1 {
        let s = "Mon";
        proof {
            reveal_strlit("Mon");
        }
        s
    } else if w == 2 {
        let s = "Tue";
        proof {
            reveal_strlit("Tue");
        }
        s
    } else if w == 3 {
        let s = "Wed";
        proof {
            reveal_strlit("Wed");
        }
        s
    } else if w == 4 {
        let s = "Thu";
        proof {
            reveal_strlit("Thu");
        }
        s
    } else if w == 5 {
        let s = "Fri";
        proof {
            reveal_strlit("Fri");
        }
        s
    } else {
        let s = "Sat";
        proof {
            reveal_strlit("Sat");
        }
        s
    }
}

/// The three-letter name of month `m` (1-based).
fn month_str(m: u64) -> (r: &'static str)
    requires
        1 <= m <= 12,
    ensures
        r@ =~= month_name(m as int),
{
    if m == 1 {
        let s = "Jan";
        proof {
            reveal_strlit("Jan");
        }
        s
    } else if m == 2 {
        let s = "Feb";
        proof {
            reveal_strlit("Feb");
        }
        s
    } else if m == 3 {
        let s = "Mar";
        proof {
            reveal_strlit("Mar");
        }
        s
    } else if m == 4 {
        let s = "Apr";
        proof {
            reveal_strlit("Apr");
        }
        s
    } else if m == 5 {
        let s = "May";
        proof {
            reveal_strlit("May");
        }
        s
    } else if m == 6 {
        let s = "Jun";
        proof {
            reveal_strlit("Jun");
        }
        s
    } else if m == 7 {
        let s = "Jul";
        proof {
            reveal_strlit("Jul");
        }
        s
    } else if m == 8 {
        let s = "Aug";
        proof {
            reveal_strlit("Aug");
        }
        s
    } else if m == 9 {
        let s = "Sep";
        proof {
            reveal_strlit("Sep");
        }
        s
    } else if m == 10 {
        let s = "Oct";
        proof {
            reveal_strlit("Oct");
        }
        s
    } else if m == 11 {
        let s = "Nov";
        proof {
            reveal_strlit("Nov");
        }
        s
    } else {
        let s = "Dec";
        proof {
            reveal_strlit("Dec");
        }
        s
    }
}

/// Format the moment `t` seconds after the epoch as an IMF-fixdate.
#[verifier::rlimit(50)]
pub fn format_http_date(t: u64) -> (r: String)
    requires
        t < MAX_HTTP_DATE_SECS,
    ensures
        r@ == http_date_chars(t as int),
{
    proof {
        lemma_days_before_year_10000();
        vstd::arithmetic::div_mod::lemma_fundamental_div_mod(t as int, 86400);
        vstd::arithmetic::div_mod::lemma_fundamental_div_mod(t as int % 86400, 3600);
    }
    let days: u64 = t / 86400;
    let secs: u64 = t % 86400;
    let h: u64 = secs / 3600;
    let mi: u64 = (secs / 60) % 60;
    let s: u64 = secs % 60;
    let (y, m, d) = days_to_civil(days);
    let w: u64 = (days + 4) % 7;
    let mut out = String::new();
    out.append(weekday_str(w));
    let comma_sp = ", ";
    proof {
        reveal_strlit(", ");
        assert(comma_sp@ =~= seq![',', ' ']);
    }
    out.append(comma_sp);
    out.append(digit_str(d / 10));
    out.append(digit_str(d % 10));
    let sp = " ";
    proof {
        reveal_strlit(" ");
        assert(sp@ =~= seq![' ']);
    }
    out.append(sp);
    out.append(month_str(m));
    out.append(sp);
    out.append(digit_str(y / 1000));
    out.append(digit_str((y / 100) % 10));
    out.append(digit_str((y / 10) % 10));
    out.append(digit_str(y % 10));
    out.append(sp);
    out.append(digit_str(h / 10));
    out.append(digit_str(h % 10));
    let colon = ":";
    proof {
        reveal_strlit(":");
        assert(colon@ =~= seq![':']);
    }
    out.append(colon);
    out.append(digit_str(mi / 10));
    out.append(digit_str(mi % 10));
    out.append(colon);
    out.append(digit_str(s / 10));
    out.append(digit_str(s % 10));
    let gmt = " GMT";
    proof {
        reveal_strlit(" GMT");
        assert(gmt@ =~= seq![' ', 'G', 'M', 'T']);
    }
    out.append(gmt);
    proof {
        assert(out@ =~= http_date_chars(t as int));
    }
    out
}

/// Whether three characters name a weekday.
fn weekday_check(a: char, b: char, c: char) -> (r: bool)
    ensures
        r == is_weekday_name(seq![a, b, c]),
{
    let hit = (a == 'S' && b == 'u' && c == 'n') || (a == 'M' && b == 'o' && c == 'n') || (a == 'T'
        && b == 'u' && c == 'e') || (a == 'W' && b == 'e' && c == 'd') || (a == 'T' && b == 'h'
        && c == 'u') || (a == 'F' && b == 'r' && c == 'i') || (a == 'S' && b == 'a' && c == 't');
    proof {
        let s = seq![a, b, c];
        if hit {
            if a == 'S' && b == 'u' && c == 'n' {
                assert(s =~= weekday_name(0));
            } else if a == 'M' && b == 'o' && c == 'n' {
                assert(s =~= weekday_name(1));
            } else if a == 'T' && b == 'u' && c == 'e' {
                assert(s =~= weekday_name(2));
            } else if a == 'W' && b == 'e' && c == 'd' {
                assert(s =~= weekday_name(3));
            } else if a == 'T' && b == 'h' && c == 'u' {
                assert(s =~= weekday_name(4));
            } else if a == 'F' && b == 'r' && c == 'i' {
                assert(s =~= weekday_name(5));
            } else {
                assert(s =~= weekday_name(6));
            }
        } else {
            assert forall|w: int| 0 <= w < 7 implies s != weekday_name(w) by {
                if s == weekday_name(w) {
                    assert(a == weekday_name(w)[0] && b == weekday_name(w)[1] && c
                        == weekday_name(w)[2]);
                }
            }
        }
    }
    hit
}

/// The month three characters name, if any.
fn month_check(a: char, b: char, c: char) -> (r: Option<u64>)
    ensures
        r matches Some(m) ==> 1 <= m <= 12 && month_of_name(seq![a, b, c]) == Some(m as int),
        r is None <==> month_of_name(seq![a, b, c]) is None,
{
    let hit: Option<u64> = if a == 'J' && b == 'a' && c == 'n' {
        Some(1)
    } else if a == 'F' && b == 'e' && c == 'b' {
        Some(2)
    } else if a == 'M' && b == 'a' && c == 'r' {
        Some(3)
    } else if a == 'A' && b == 'p' && c == 'r' {
        Some(4)
    } else if a == 'M' && b == 'a' && c == 'y' {
        Some(5)
    } else if a == 'J' && b == 'u' && c == 'n' {
        Some(6)
    } else if a == 'J' && b == 'u' && c == 'l' {
        Some(7)
    } else if a == 'A' && b == 'u' && c == 'g' {
        Some(8)
    } else if a == 'S' && b == 'e' && c == 'p' {
        Some(9)
    } else if a == 'O' && b == 'c' && c == 't' {
        Some(10)
    } else if a == 'N' && b == 'o' && c == 'v' {
        Some(11)
    } else if a == 'D' && b == 'e' && c == 'c' {
        Some(12)
    } else {
        None
    };
    proof {
        let s = seq![a, b, c];
        assert forall|m: int| 1 <= m <= 12 implies (s == month_name(m) <==> (a == month_name(m)[0]
            && b == month_name(m)[1] && c == month_name(m)[2])) by {
            if a == month_name(m)[0] && b == month_name(m)[1] && c == month_name(m)[2] {
                assert(s =~= month_name(m));
            }
        }
    }
    hit
}

/// The digit a character denotes, if any.
fn digit_check(c: char) -> (r: Option<u64>)
    ensures
        r matches Some(v) ==> is_digit(c) && v < 10 && v == digit_val(c),
        r is None <==> !is_digit(c),
{
    let v = c as u32;
    if 48 <= v && v <= 57 {
        Some((v - 48) as u64)
    } else {
        None
    }
}

/// Days between 1970-01-01 and the first day of year `y`, executable.
fn days_before_year_x(y: u64) -> (r: u64)
    requires
        1970 <= y <= 10000,
    ensures
        r == days_before_year(y as int),
{
    proof {
        lemma_days_before_year_10000();
    }
    let mut acc: u64 = 0;
    let mut k: u64 = 1970;
    while k < y
        invariant
            1970 <= k <= y <= 10000,
            acc == days_before_year(k as int),
            days_before_year(10000) == 2932897,
        decreases y - k,
    {
        proof {
            lemma_days_before_year_mono(k as int + 1, 10000);
            assert(days_before_year(k as int + 1) == days_before_year(k as int) + days_in_year(
                k as int,
            ));
        }
        acc = acc + days_in_year_x(k);
        k = k + 1;
    }
    acc
}

/// Days between the first day of year `y` and the first day of its month
/// `m`, executable.
fn days_before_month_x(y: u64, m: u64) -> (r: u64)
    requires
        1 <= m <= 13,
    ensures
        r == days_before_month(y as int, m as int),
        r <= 366,
{
    proof {
        lemma_days_before_month_full(y as int);
        lemma_days_before_month_mono(y as int, 1, m as int);
    }
    let mut acc: u64 = 0;
    let mut k: u64 = 1;
    while k < m
        invariant
            1 <= k <= m <= 13,
            acc == days_before_month(y as int, k as int),
            acc <= 366,
        decreases m - k,
    {
        proof {
            lemma_days_before_month_mono(y as int, k as int + 1, 13);
            lemma_days_before_month_full(y as int);
        }
        acc = acc + days_in_month_x(y, k);
        k = k + 1;
    }
    acc
}

/// Parse an IMF-fixdate such as `Wed, 01 Jan 2020 00:00:00 GMT` into
/// seconds after the epoch.
pub fn parse_http_date(s: &str) -> (r: Option<u64>)
    ensures
        r matches Some(t) ==> t < MAX_HTTP_DATE_SECS && http_date_of_chars(s@) == Some(t as int),
        r is None <==> http_date_of_chars(s@) is None,
{
    if s.unicode_len() != 29 {
        return None;
    }
    if !weekday_check(s.get_char(0), s.get_char(1), s.get_char(2)) {
        proof {
            assert(s@.subrange(0, 3) =~= seq![s@[0], s@[1], s@[2]]);
        }
        return None;
    }
    proof {
        assert(s@.subrange(0, 3) =~= seq![s@[0], s@[1], s@[2]]);
    }
    if !(s.get_char(3) == ',' && s.get_char(4) == ' ' && s.get_char(7) == ' ' && s.get_char(11)
        == ' ' && s.get_char(16) == ' ' && s.get_char(19) == ':' && s.get_char(22) == ':'
        && s.get_char(25) == ' ' && s.get_char(26) == 'G' && s.get_char(27) == 'M' && s.get_char(
        28,
    ) == 'T') {
        return None;
    }
    let d1 = digit_check(s.get_char(5));
    let d2 = digit_check(s.get_char(6));
    let y1 = digit_check(s.get_char(12));
    let y2 = digit_check(s.get_char(13));
    let y3 = digit_check(s.get_char(14));
    let y4 = digit_check(s.get_char(15));
    let h1 = digit_check(s.get_char(17));
    let h2 = digit_check(s.get_char(18));
    let mi1 = digit_check(s.get_char(20));
    let mi2 = digit_check(s.get_char(21));
    let s1 = digit_check(s.get_char(23));
    let s2 = digit_check(s.get_char(24));
    let (d1, d2, y1, y2, y3, y4, h1, h2, mi1, mi2, s1, s2) = match (
        d1,
        d2,
        y1,
        y2,
        y3,
        y4,
        h1,
        h2,
        mi1,
        mi2,
        s1,
        s2,
    ) {
        (
            Option::Some(d1),
            Option::Some(d2),
            Option::Some(y1),
            Option::Some(y2),
            Option::Some(y3),
            Option::Some(y4),
            Option::Some(h1),
            Option::Some(h2),
            Option::Some(mi1),
            Option::Some(mi2),
            Option::Some(s1),
            Option::Some(s2),
        ) => (d1, d2, y1, y2, y3, y4, h1, h2, mi1, mi2, s1, s2),
        _ => {
            return None;
        },
    };
    let m = match month_check(s.get_char(8), s.get_char(9), s.get_char(10)) {
        Option::Some(m) => {
            proof {
                assert(s@.subrange(8, 11) =~= seq![s@[8], s@[9], s@[10]]);
            }
            m
        },
        Option::None => {
            proof {
                assert(s@.subrange(8, 11) =~= seq![s@[8], s@[9], s@[10]]);
            }
            return None;
        },
    };
    let d = d1 * 10 + d2;
    let y = y1 * 1000 + y2 * 100 + y3 * 10 + y4;
    let h = h1 * 10 + h2;
    let mi = mi1 * 10 + mi2;
    let sec = s1 * 10 + s2;
    if !(1970 <= y && 1 <= d && d <= days_in_month_x(y, m) && h < 24 && mi < 60 && sec < 60) {
        return None;
    }
    proof {
        lemma_civil_to_days_bound(y as int, m as int, d as int);
        lemma_days_before_year_10000();
    }
    let days = days_before_year_x(y) + days_before_month_x(y, m) + (d - 1);
    let t = days * 86400 + h * 3600 + mi * 60 + sec;
    Some(t)
}

/// A digit character parses back to its digit.
proof fn lemma_digit_roundtrip(k: int)
    requires
        0 <= k <= 9,
    ensures
        is_digit(digit(k)),
        digit_val(digit(k)) == k,
{
}

/// A month name names only its month.
proof fn lemma_month_roundtrip(m: int)
    requires
        1 <= m <= 12,
    ensures
        month_of_name(month_name(m)) == Some(m),
{
    assert forall|k: int| 1 <= k <= 12 && k != m implies month_name(m) != month_name(k) by {
        if month_name(m) == month_name(k) {
            assert(month_name(m)[0] == month_name(k)[0]);
            assert(month_name(m)[1] == month_name(k)[1]);
            assert(month_name(m)[2] == month_name(k)[2]);
        }
    }
}

/// The hour, minute and second of a day-second count add back up to it.
proof fn lemma_time_of_day(secs: int)
    requires
        0 <= secs < 86400,
    ensures
        ({
            let h = secs / 3600;
            let mi = (secs / 60) % 60;
            let sec = secs % 60;
            &&& 0 <= h < 24
            &&& 0 <= mi < 60
            &&& 0 <= sec < 60
            &&& h * 3600 + mi * 60 + sec == secs
        }),
{
    let h = secs / 3600;
    let mi = (secs / 60) % 60;
    let sec = secs % 60;
    vstd::arithmetic::div_mod::lemma_fundamental_div_mod(secs, 3600);
    vstd::arithmetic::div_mod::lemma_mod_bound(secs, 3600);
    vstd::arithmetic::div_mod::lemma_fundamental_div_mod(secs, 60);
    vstd::arithmetic::div_mod::lemma_mod_bound(secs, 60);
    vstd::arithmetic::div_mod::lemma_fundamental_div_mod(secs / 60, 60);
    vstd::arithmetic::div_mod::lemma_mod_bound(secs / 60, 60);
    vstd::arithmetic::div_mod::lemma_div_pos_is_pos(secs, 60);
    vstd::arithmetic::div_mod::lemma_div_denominator(secs, 60, 60);
    assert((secs / 60) / 60 == h);
    assert(h * 3600 + mi * 60 + sec == secs) by (nonlinear_arith)
        requires
            secs == 3600 * (secs / 3600) + secs % 3600,
            secs == 60 * (secs / 60) + secs % 60,
            secs / 60 == 60 * ((secs / 60) / 60) + (secs / 60) % 60,
            (secs / 60) / 60 == secs / 3600,
            h == secs / 3600,
            mi == (secs / 60) % 60,
            sec == secs % 60,
    ;
}

/// The four printed digits of a year add back up to it.
proof fn lemma_year_digits(y: int)
    requires
        0 <= y <= 9999,
    ensures
        0 <= y / 1000 <= 9,
        0 <= (y / 100) % 10 <= 9,
        0 <= (y / 10) % 10 <= 9,
        0 <= y % 10 <= 9,
        (y / 1000) * 1000 + ((y / 100) % 10) * 100 + ((y / 10) % 10) * 10 + y % 10 == y,
{
    vstd::arithmetic::div_mod::lemma_fundamental_div_mod(y, 10);
    vstd::arithmetic::div_mod::lemma_mod_bound(y, 10);
    vstd::arithmetic::div_mod::lemma_fundamental_div_mod(y / 10, 10);
    vstd::arithmetic::div_mod::lemma_mod_bound(y / 10, 10);
    vstd::arithmetic::div_mod::lemma_fundamental_div_mod(y / 100, 10);
    vstd::arithmetic::div_mod::lemma_mod_bound(y / 100, 10);
    vstd::arithmetic::div_mod::lemma_div_pos_is_pos(y, 10);
    vstd::arithmetic::div_mod::lemma_div_pos_is_pos(y / 10, 10);
    vstd::arithmetic::div_mod::lemma_div_denominator(y, 10, 10);
    vstd::arithmetic::div_mod::lemma_div_denominator(y, 100, 10);
    assert((y / 10) / 10 == y / 100);
    assert((y / 100) / 10 == y / 1000);
    assert(y / 1000 <= 9) by {
        if y / 1000 > 9 {
            vstd::arithmetic::div_mod::lemma_fundamental_div_mod(y, 1000);
            vstd::arithmetic::div_mod::lemma_mod_bound(y, 1000);
        }
    }
}

/// The two printed digits of a small count add back up to it.
proof fn lemma_two_digits(x: int)
    requires
        0 <= x <= 99,
    ensures
        0 <= x / 10 <= 9,
        0 <= x % 10 <= 9,
        (x / 10) * 10 + x % 10 == x,
{
    vstd::arithmetic::div_mod::lemma_fundamental_div_mod(x, 10);
    vstd::arithmetic::div_mod::lemma_mod_bound(x, 10);
    vstd::arithmetic::div_mod::lemma_div_pos_is_pos(x, 10);
}

/// Formatting a representable moment and parsing the result gives the same
/// moment back: whole-second HTTP dates survive the round trip.
#[verifier::rlimit(100)]
pub proof fn lemma_http_date_round_trip(t: int)
    requires
        0 <= t < MAX_HTTP_DATE_SECS,
    ensures
        http_date_of_chars(http_date_chars(t)) == Some(t),
{
    lemma_days_before_year_10000();
    vstd::arithmetic::div_mod::lemma_fundamental_div_mod(t, 86400);
    vstd::arithmetic::div_mod::lemma_mod_bound(t, 86400);
    vstd::arithmetic::div_mod::lemma_div_pos_is_pos(t, 86400);
    let days = t / 86400;
    let secs = t % 86400;
    assert(days < 2932897);
    lemma_civil_of_days(days);
    let (y, m, d) = civil_of_days(days);
    let c = http_date_chars(t);
    let w = (days + 4) % 7;
    vstd::arithmetic::div_mod::lemma_mod_bound(days + 4, 7);
    assert(c.subrange(0, 3) =~= weekday_name(w));
    assert(is_weekday_name(c.subrange(0, 3)));
    assert(c.subrange(8, 11) =~= month_name(m));
    lemma_month_roundtrip(m);
    let h = secs / 3600;
    let mi = (secs / 60) % 60;
    let sec = secs % 60;
    lemma_time_of_day(secs);
    lemma_year_digits(y);
    lemma_two_digits(d);
    lemma_two_digits(h);
    lemma_two_digits(mi);
    lemma_two_digits(sec);
    lemma_digit_roundtrip(d / 10);
    lemma_digit_roundtrip(d % 10);
    lemma_digit_roundtrip(y / 1000);
    lemma_digit_roundtrip((y / 100) % 10);
    lemma_digit_roundtrip((y / 10) % 10);
    lemma_digit_roundtrip(y % 10);
    lemma_digit_roundtrip(h / 10);
    lemma_digit_roundtrip(h % 10);
    lemma_digit_roundtrip(mi / 10);
    lemma_digit_roundtrip(mi % 10);
    lemma_digit_roundtrip(sec / 10);
    lemma_digit_roundtrip(sec % 10);
    assert(valid_civil(y, m, d, h, mi, sec));
    assert(civil_to_secs(y, m, d, h, mi, sec) == t);
}

/// The `Last-Modified` time of a file, in representable whole seconds.
#[derive(Clone, Copy, Debug)]
pub struct LastModified {
    secs: u64,
}

impl LastModified {
    /// Every value wraps a representable moment.
    #[verifier::type_invariant]
    spec fn representable(self) -> bool {
        self.secs < MAX_HTTP_DATE_SECS
    }

    /// The moment, in seconds after the epoch.
    pub closed spec fn sec(&self) -> u64 {
        self.secs
    }

    /// Wrap a modification time; times at or past year 10000 have no
    /// HTTP-date form and are refused.
    pub fn from_unix(secs: u64) -> (r: Option<Self>)
        ensures
            r matches Some(lm) ==> secs < MAX_HTTP_DATE_SECS && lm.sec() == secs,
            r is None <==> secs >= MAX_HTTP_DATE_SECS,
    {
        if secs < MAX_HTTP_DATE_SECS {
            Some(LastModified { secs })
        } else {
            None
        }
    }

    /// The header value: the moment as an IMF-fixdate.
    pub fn to_date_string(&self) -> (r: String)
        ensures
            r@ == http_date_chars(self.sec() as int),
    {
        proof {
            use_type_invariant(self);
        }
        format_http_date(self.secs)
    }
}

/// A parsed `If-Modified-Since` header.
#[derive(Clone, Copy, Debug)]
pub struct IfModifiedSince {
    secs: u64,
}

impl IfModifiedSince {
    /// The threshold, in seconds after the epoch.
    pub closed spec fn sec(&self) -> u64 {
        self.secs
    }

    /// Whether the resource counts as modified: its modification time lies
    /// strictly after the threshold.
    pub fn is_modified(&self, last_modified: &LastModified) -> (r: bool)
        ensures
            r == (self.sec() < last_modified.sec()),
    {
        self.secs < last_modified.secs
    }

    /// Read the header value; anything but a well-formed HTTP date is
    /// silently ignored.
    pub fn from_header_value(value: &str) -> (r: Option<IfModifiedSince>)
        ensures
            r matches Some(x) ==> http_date_of_chars(value@) == Some(x.sec() as int),
            r is None <==> http_date_of_chars(value@) is None,
    {
        match parse_http_date(value) {
            Option::Some(t) => Some(IfModifiedSince { secs: t }),
            Option::None => None,
        }
    }
}

/// A parsed `If-Unmodified-Since` header.
#[derive(Clone, Copy, Debug)]
pub struct IfUnmodifiedSince {
    secs: u64,
}

impl IfUnmodifiedSince {
    /// The threshold, in seconds after the epoch.
    pub closed spec fn sec(&self) -> u64 {
        self.secs
    }

    /// Whether the precondition passes: the resource's modification time
    /// lies at or before the threshold.
    pub fn precondition_passes(&self, last_modified: &LastModified) -> (r: bool)
        ensures
            r == (self.sec() >= last_modified.sec()),
    {
        self.secs >= last_modified.secs
    }

    /// Read the header value; anything but a well-formed HTTP date is
    /// silently ignored.
    pub fn from_header_value(value: &str) -> (r: Option<IfUnmodifiedSince>)
        ensures
            r matches Some(x) ==> http_date_of_chars(value@) == Some(x.sec() as int),
            r is None <==> http_date_of_chars(value@) is None,
    {
        match parse_http_date(value) {
            Option::Some(t) => Some(IfUnmodifiedSince { secs: t }),
            Option::None => None,
        }
    }
}

} // verus!
