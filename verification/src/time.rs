//! Calendar dates and times of day.
use vstd::prelude::*;
use vstd::string::*;

use crate::text::{digit, digits, padded_digits, text_before, write_padded};

verus! {

/// Whether a year of the Gregorian calendar has a leap day.
pub open spec fn is_leap(y: int) -> bool {
    y % 4 == 0 && (y % 100 != 0 || y % 400 == 0)
}

/// How many days a month has.
pub open spec fn days_in_month(y: int, m: int) -> int {
    if m == 2 {
        if is_leap(y) {
            29
        } else {
            28
        }
    } else if m == 4 || m == 6 || m == 9 || m == 11 {
        30
    } else {
        31
    }
}

/// How many days of a year lie before a month.
pub open spec fn days_before_month(y: int, m: int) -> int
    decreases m,
{
    if m <= 1 {
        0
    } else {
        days_before_month(y, m - 1) + days_in_month(y, m - 1)
    }
}

/// How many days a year has.
pub open spec fn days_in_year(y: int) -> int {
    if is_leap(y) {
        366
    } else {
        365
    }
}

/// How many leap days the years from 1 to `y` have.
pub open spec fn leap_days(y: int) -> int {
    y / 4 - y / 100 + y / 400
}

/// How many days lie between 1 January 1970 and 1 January of a year.
pub open spec fn days_before_year(y: int) -> int {
    365 * (y - 1970) + leap_days(y - 1) - leap_days(1969)
}

/// Whether there is such a date.
pub open spec fn is_date(y: int, m: int, d: int) -> bool {
    1 <= m <= 12 && 1 <= d <= days_in_month(y, m)
}

/// How many days lie between 1 January 1970 and a date.
pub open spec fn day_number(y: int, m: int, d: int) -> int {
    days_before_year(y) + days_before_month(y, m) + d - 1
}

proof fn lemma_div_step(y: int)
    ensures
        y / 4 - (y - 1) / 4 == if y % 4 == 0 {
            1int
        } else {
            0
        },
        y / 100 - (y - 1) / 100 == if y % 100 == 0 {
            1int
        } else {
            0
        },
        y / 400 - (y - 1) / 400 == if y % 400 == 0 {
            1int
        } else {
            0
        },
        y % 100 == 0 ==> y % 4 == 0,
        y % 400 == 0 ==> y % 100 == 0,
{
    lemma_quotient_step(y, 4);
    lemma_quotient_step(y, 100);
    lemma_quotient_step(y, 400);
    assert(y == 100 * (y / 100) + y % 100);
    assert(y == 400 * (y / 400) + y % 400);
}

proof fn lemma_quotient_step(y: int, k: int)
    requires
        k > 1,
    ensures
        y / k - (y - 1) / k == if y % k == 0 {
            1int
        } else {
            0
        },
{
    let q = y / k;
    let r = y % k;
    vstd::arithmetic::div_mod::lemma_fundamental_div_mod(y, k);
    vstd::arithmetic::div_mod::lemma_mod_bound(y, k);
    if r == 0 {
        assert(y - 1 == (q - 1) * k + (k - 1)) by (nonlinear_arith)
            requires
                y == k * q,
        ;
        vstd::arithmetic::div_mod::lemma_fundamental_div_mod_converse(y - 1, k, q - 1, k - 1);
    } else {
        assert(y - 1 == q * k + (r - 1)) by (nonlinear_arith)
            requires
                y == k * q + r,
        ;
        vstd::arithmetic::div_mod::lemma_fundamental_div_mod_converse(y - 1, k, q, r - 1);
    }
}

/// The year after a year begins as many days later as the year has.
pub proof fn law_years_follow(y: int)
    ensures
        days_before_year(y + 1) == days_before_year(y) + days_in_year(y),
{
    lemma_div_step(y);
}

/// How many days of a year lie before each month.
proof fn lemma_months(y: int)
    ensures
        days_before_month(y, 1) == 0,
        days_before_month(y, 2) == 31,
        days_before_month(y, 3) == 59 + leap_day(y),
        days_before_month(y, 4) == 90 + leap_day(y),
        days_before_month(y, 5) == 120 + leap_day(y),
        days_before_month(y, 6) == 151 + leap_day(y),
        days_before_month(y, 7) == 181 + leap_day(y),
        days_before_month(y, 8) == 212 + leap_day(y),
        days_before_month(y, 9) == 243 + leap_day(y),
        days_before_month(y, 10) == 273 + leap_day(y),
        days_before_month(y, 11) == 304 + leap_day(y),
        days_before_month(y, 12) == 334 + leap_day(y),
        days_before_month(y, 13) == days_in_year(y),
{
    reveal_with_fuel(days_before_month, 14);
}

/// The number of leap days in a year.
pub open spec fn leap_day(y: int) -> int {
    if is_leap(y) {
        1
    } else {
        0
    }
}

/// The years of a cycle of four hundred that begins on 1 March: where each
/// begins.
pub open spec fn march_start(yoe: int) -> int {
    365 * yoe + yoe / 4 - yoe / 100
}

/// The year that a day of the cycle lies in.
proof fn lemma_year_of_cycle(doe: int, yoe: int)
    requires
        0 <= doe < 146097,
        yoe == (doe - doe / 1460 + doe / 36524 - doe / 146096) / 365,
    ensures
        0 <= yoe < 400,
        march_start(yoe) <= doe,
        doe - march_start(yoe) <= 365,
        yoe < 399 ==> doe < march_start(yoe + 1),
{
}

/// 1 March of a year, counted from the beginning of its cycle.
proof fn lemma_march(era: int, yoe: int)
    requires
        0 <= yoe < 400,
    ensures
        days_before_year(yoe + 400 * era) + 59 + leap_day(yoe + 400 * era) == march_start(yoe)
            + 146097 * era - 719468,
{
    let y = yoe + 400 * era;
    assert(y / 4 == yoe / 4 + 100 * era);
    assert(y / 100 == yoe / 100 + 4 * era);
    assert(y / 400 == era);
    lemma_div_step(y);
}

/// Days of a year that begins on 1 March have these months and days of the
/// month.
proof fn lemma_month_of_year(doy: int, mp: int)
    requires
        0 <= doy <= 365,
        mp == (5 * doy + 2) / 153,
    ensures
        0 <= mp <= 11,
        (153 * mp + 2) / 5 <= doy,
        mp < 11 ==> doy < (153 * (mp + 1) + 2) / 5,
{
}

/// The months from March to December of a year.
proof fn lemma_spring(y: int, doy: int, mp: int)
    requires
        0 <= doy <= 365,
        mp == (5 * doy + 2) / 153,
        mp < 10,
    ensures
        is_date(y, mp + 3, doy - (153 * mp + 2) / 5 + 1),
        days_before_month(y, mp + 3) + doy - (153 * mp + 2) / 5 == 59 + leap_day(y) + doy,
{
    lemma_month_of_year(doy, mp);
    lemma_months(y);
    assert(mp == 0 || mp == 1 || mp == 2 || mp == 3 || mp == 4 || mp == 5 || mp == 6 || mp == 7
        || mp == 8 || mp == 9);
}

/// January and February of a year.
proof fn lemma_winter(y: int, doy: int, mp: int)
    requires
        0 <= doy <= 364 + leap_day(y),
        mp == (5 * doy + 2) / 153,
        mp >= 10,
    ensures
        is_date(y, mp - 9, doy - (153 * mp + 2) / 5 + 1),
        days_before_month(y, mp - 9) + doy - (153 * mp + 2) / 5 == doy - 306,
{
    lemma_month_of_year(doy, mp);
    lemma_months(y);
    assert(mp == 10 || mp == 11);
}

/// A year that begins on 1 March has a leap day where the next one has.
proof fn lemma_march_year_length(era: int, yoe: int, doe: int)
    requires
        0 <= yoe < 400,
        doe < 146097,
        march_start(yoe) <= doe,
        yoe < 399 ==> doe < march_start(yoe + 1),
    ensures
        doe - march_start(yoe) <= 364 + leap_day(yoe + 400 * era + 1),
{
    lemma_leap_years_recur(yoe + 1, era);
    lemma_march_years_follow(yoe);
    if yoe == 399 {
        assert(is_leap(400));
    }
}

/// Leap years come round every four hundred years.
proof fn lemma_leap_years_recur(n: int, era: int)
    ensures
        is_leap(n + 400 * era) == is_leap(n),
{
    vstd::arithmetic::div_mod::lemma_mod_multiples_vanish(100 * era, n, 4);
    vstd::arithmetic::div_mod::lemma_mod_multiples_vanish(4 * era, n, 100);
    vstd::arithmetic::div_mod::lemma_mod_multiples_vanish(era, n, 400);
}

proof fn lemma_march_years_follow(yoe: int)
    requires
        0 <= yoe < 400,
    ensures
        yoe < 399 ==> march_start(yoe + 1) == march_start(yoe) + 365 + leap_day(yoe + 1),
        march_start(399) == 145731,
{
    lemma_div_step(yoe + 1);
}

proof fn lemma_civil(z: int, era: int, doe: int, yoe: int, doy: int, mp: int)
    requires
        z + 719468 == 146097 * era + doe,
        0 <= doe < 146097,
        yoe == (doe - doe / 1460 + doe / 36524 - doe / 146096) / 365,
        doy == doe - march_start(yoe),
        mp == (5 * doy + 2) / 153,
    ensures
        ({
            let y = yoe + 400 * era;
            let d = doy - (153 * mp + 2) / 5 + 1;
            if mp < 10 {
                is_date(y, mp + 3, d) && day_number(y, mp + 3, d) == z
            } else {
                is_date(y + 1, mp - 9, d) && day_number(y + 1, mp - 9, d) == z
            }
        }),
{
    let y = yoe + 400 * era;
    lemma_year_of_cycle(doe, yoe);
    lemma_march(era, yoe);
    let start = days_before_year(y);
    assert(z == start + 59 + leap_day(y) + doy);
    if mp < 10 {
        lemma_spring(y, doy, mp);
    } else {
        lemma_march_year_length(era, yoe, doe);
        lemma_winter(y + 1, doy, mp);
        law_years_follow(y);
        assert(days_before_year(y + 1) == start + 365 + leap_day(y));
    }
}

/// The date that lies a number of days after 1 January 1970.
pub fn civil_from_days(z: i64) -> (r: (i64, u64, u64))
    requires
        z <= i64::MAX - 719_468,
    ensures
        is_date(r.0 as int, r.1 as int, r.2 as int),
        day_number(r.0 as int, r.1 as int, r.2 as int) == z,
        z >= 0 ==> r.0 >= 1970,
{
    let z0: i64 = z + 719_468;
    let era: i64 = if z0 >= 0 {
        z0 / 146_097
    } else {
        -((-(z0 + 1)) / 146_097) - 1
    };
    let doe: i64 = z0 - era * 146_097;
    let yoe: i64 = (doe - doe / 1460 + doe / 36524 - doe / 146_096) / 365;
    proof {
        lemma_year_of_cycle(doe as int, yoe as int);
    }
    let y: i64 = yoe + era * 400;
    let doy: i64 = doe - (365 * yoe + yoe / 4 - yoe / 100);
    let mp: i64 = (5 * doy + 2) / 153;
    proof {
        lemma_month_of_year(doy as int, mp as int);
        lemma_civil(z as int, era as int, doe as int, yoe as int, doy as int, mp as int);
    }
    let d: u64 = (doy - (153 * mp + 2) / 5 + 1) as u64;
    let m: u64 = if mp < 10 {
        (mp + 3) as u64
    } else {
        (mp - 9) as u64
    };
    let year: i64 = if m <= 2 {
        y + 1
    } else {
        y
    };
    proof {
        if 0 <= z {
            lemma_year_not_before(year as int, m as int, d as int);
        }
    }
    (year, m, d)
}

/// Years begin in the order in which they are counted.
proof fn lemma_years_ascend(a: int, b: int)
    requires
        a <= b,
    ensures
        days_before_year(a) <= days_before_year(b),
        days_before_year(b) >= days_before_year(a) + 365 * (b - a),
    decreases b - a,
{
    if a < b {
        lemma_years_ascend(a, b - 1);
        law_years_follow(b - 1);
    }
}

/// A date lies in its year.
proof fn lemma_date_in_year(y: int, m: int, d: int)
    requires
        is_date(y, m, d),
    ensures
        days_before_year(y) <= day_number(y, m, d) < days_before_year(y + 1),
{
    lemma_months(y);
    law_years_follow(y);
}

proof fn lemma_year_not_before(y: int, m: int, d: int)
    requires
        is_date(y, m, d),
        day_number(y, m, d) >= 0,
    ensures
        y >= 1970,
{
    lemma_date_in_year(y, m, d);
    if y < 1970 {
        lemma_years_ascend(y + 1, 1970);
        assert(days_before_year(1970) == 0);
    }
}

/// No two dates lie the same number of days after 1 January 1970.
pub proof fn law_day_numbers_differ(y1: int, m1: int, d1: int, y2: int, m2: int, d2: int)
    requires
        is_date(y1, m1, d1),
        is_date(y2, m2, d2),
        day_number(y1, m1, d1) == day_number(y2, m2, d2),
    ensures
        y1 == y2 && m1 == m2 && d1 == d2,
{
    lemma_date_in_year(y1, m1, d1);
    lemma_date_in_year(y2, m2, d2);
    if y1 < y2 {
        lemma_years_ascend(y1 + 1, y2);
    } else if y2 < y1 {
        lemma_years_ascend(y2 + 1, y1);
    } else {
        lemma_months(y1);
    }
}

/// The text of a moment, given by its parts.
pub open spec fn moment_text(
    y: int,
    m: int,
    d: int,
    hour: int,
    minute: int,
    second: int,
    milli: int,
) -> Seq<char> {
    padded_digits(y as nat, 10, 4) + "-"@ + padded_digits(m as nat, 10, 2) + "-"@ + padded_digits(
        d as nat,
        10,
        2,
    ) + "T"@ + padded_digits(hour as nat, 10, 2) + ":"@ + padded_digits(minute as nat, 10, 2)
        + ":"@ + padded_digits(second as nat, 10, 2) + "."@ + padded_digits(milli as nat, 10, 3)
        + "Z"@
}

proof fn lemma_parts_of_day(ms: int)
    requires
        ms >= 0,
    ensures
        ms / 1000 / 86400 == ms / 86_400_000,
        ms / 1000 % 86400 / 3600 == ms / 3_600_000 % 24,
        ms / 1000 % 86400 % 3600 / 60 == ms / 60_000 % 60,
        ms / 1000 % 86400 % 60 == ms / 1000 % 60,
{
    let s = ms / 1000;
    assert(s / 86400 == ms / 86_400_000);
    assert(s / 3600 == ms / 3_600_000);
    assert(s / 60 == ms / 60_000);
    lemma_parts_of_seconds(s);
}

proof fn lemma_parts_of_seconds(s: int)
    requires
        s >= 0,
    ensures
        s % 86400 / 3600 == s / 3600 % 24,
        s % 86400 % 3600 / 60 == s / 60 % 60,
        s % 86400 % 60 == s % 60,
{
    let day = s / 86400;
    let r = s % 86400;
    assert(s == 86400 * day + r);
    assert(s / 3600 == 24 * day + r / 3600);
    assert(s / 60 == 1440 * day + r / 60);
    let h = r / 3600;
    let q = r % 3600;
    assert(r == 3600 * h + q);
    assert(r / 60 == 60 * h + q / 60);
    assert((60 * h + q / 60) % 60 == q / 60);
    assert((1440 * day + r / 60) % 60 == (r / 60) % 60);
}

/// Whether a text is that of a moment, given in milliseconds after the beginning of
/// 1970.
pub open spec fn is_moment(ms: int, t: Seq<char>) -> bool {
    exists|y: int, m: int, d: int| #[trigger]
        is_date(y, m, d) && day_number(y, m, d) == ms / 86_400_000 && t == moment_text(
            y,
            m,
            d,
            ms / 3_600_000 % 24,
            ms / 60_000 % 60,
            ms / 1000 % 60,
            ms % 1000,
        )
}

/// A moment, given in milliseconds after the beginning of 1970, as ISO 8601
/// text.
pub fn iso8601(ms: u64) -> (r: String)
    ensures
        is_moment(ms as int, r@),
        forall|y: int, m: int, d: int|
            is_date(y, m, d) && day_number(y, m, d) == ms as int / 86_400_000 ==> r@
                == #[trigger] moment_text(
                y,
                m,
                d,
                ms as int / 3_600_000 % 24,
                ms as int / 60_000 % 60,
                ms as int / 1000 % 60,
                ms as int % 1000,
            ),
        exists|y: int, m: int, d: int|
            #[trigger] is_date(y, m, d) && day_number(y, m, d) == ms as int / 86_400_000,
{
    let secs: u64 = ms / 1000;
    let days: u64 = secs / 86400;
    let rem: u64 = secs % 86400;
    let (y, m, d) = civil_from_days(days as i64);
    proof {
        lemma_parts_of_day(ms as int);
        assert(is_date(y as int, m as int, d as int));
    }
    let mut s = write_padded(y as u64, 10, 4);
    s.append("-");
    s.append(write_padded(m, 10, 2).as_str());
    s.append("-");
    s.append(write_padded(d, 10, 2).as_str());
    s.append("T");
    s.append(write_padded(rem / 3600, 10, 2).as_str());
    s.append(":");
    s.append(write_padded(rem % 3600 / 60, 10, 2).as_str());
    s.append(":");
    s.append(write_padded(rem % 60, 10, 2).as_str());
    s.append(".");
    s.append(write_padded(ms % 1000, 10, 3).as_str());
    s.append("Z");
    proof {
        assert(s@ == moment_text(
            y as int,
            m as int,
            d as int,
            ms as int / 3_600_000 % 24,
            ms as int / 60_000 % 60,
            ms as int / 1000 % 60,
            ms as int % 1000,
        ));
        assert forall|y2: int, m2: int, d2: int|
            is_date(y2, m2, d2) && day_number(y2, m2, d2) == ms as int / 86_400_000 implies s@
            == #[trigger] moment_text(
            y2,
            m2,
            d2,
            ms as int / 3_600_000 % 24,
            ms as int / 60_000 % 60,
            ms as int / 1000 % 60,
            ms as int % 1000,
        ) by {
            law_day_numbers_differ(y as int, m as int, d as int, y2, m2, d2);
        }
    }
    s
}

/// Whether there are as many decimal digits at a place of a text.
pub open spec fn digits_at(t: Seq<char>, at: int, count: int) -> bool {
    forall|i: int| at <= i < at + count ==> '0' <= #[trigger] t[i] && t[i] <= '9'
}

/// The number that two decimal digits at a place of a text are.
pub open spec fn two_at(t: Seq<char>, at: int) -> int {
    10 * (t[at] as u32 - '0' as u32) + (t[at + 1] as u32 - '0' as u32)
}

/// Whether a text has the form `YYYY-MM-DDTHH:MM:SS.mmmZ`, with a month, a day, an
/// hour, a minute and a second that there can be.
pub open spec fn has_iso_form(t: Seq<char>) -> bool {
    &&& t.len() == 24
    &&& digits_at(t, 0, 4) && t[4] == '-' && digits_at(t, 5, 2) && t[7] == '-' && digits_at(t, 8, 2)
    &&& t[10] == 'T' && digits_at(t, 11, 2) && t[13] == ':' && digits_at(t, 14, 2) && t[16] == ':'
    &&& digits_at(t, 17, 2) && t[19] == '.' && digits_at(t, 20, 3) && t[23] == 'Z'
    &&& 1 <= two_at(t, 5) <= 12 && 1 <= two_at(t, 8) <= 31
    &&& two_at(t, 11) <= 23 && two_at(t, 14) <= 59 && two_at(t, 17) <= 59
}

proof fn lemma_digit(n: nat)
    requires
        n < 10,
    ensures
        '0' <= digit(n) <= '9',
        digit(n) as u32 == '0' as u32 + n,
{
}

proof fn lemma_two_digits(n: nat)
    requires
        n < 100,
    ensures
        padded_digits(n, 10, 2) == seq![digit(n / 10), digit(n % 10)],
{
    reveal_with_fuel(digits, 3);
    assert(padded_digits(n, 10, 2) =~= seq![digit(n / 10), digit(n % 10)]);
}

proof fn lemma_three_digits(n: nat)
    requires
        n < 1000,
    ensures
        padded_digits(n, 10, 3) == seq![digit(n / 100), digit(n / 10 % 10), digit(n % 10)],
{
    reveal_with_fuel(digits, 4);
    assert(padded_digits(n, 10, 3) =~= seq![digit(n / 100), digit(n / 10 % 10), digit(n % 10)]);
}

proof fn lemma_four_digits(n: nat)
    requires
        n < 10_000,
    ensures
        padded_digits(n, 10, 4) == seq![
            digit(n / 1000),
            digit(n / 100 % 10),
            digit(n / 10 % 10),
            digit(n % 10),
        ],
{
    reveal_with_fuel(digits, 5);
    assert(padded_digits(n, 10, 4) =~= seq![
        digit(n / 1000),
        digit(n / 100 % 10),
        digit(n / 10 % 10),
        digit(n % 10),
    ]);
}

/// Two texts that each go on with a digit.
proof fn lemma_next_digit(x: Seq<char>, y: Seq<char>, a: nat, b: nat)
    requires
        x.len() == y.len(),
        a < 10,
        b < 10,
        text_before(x, y) || x == y && a < b,
    ensures
        text_before(x.push(digit(a)), y.push(digit(b))),
{
    let u = seq![digit(a)];
    let v = seq![digit(b)];
    lemma_digit(a);
    lemma_digit(b);
    assert(x.push(digit(a)) =~= x + u);
    assert(y.push(digit(b)) =~= y + v);
    if a < b {
        assert(u[0] < v[0]);
        assert(text_before(u, v));
    }
    crate::text::lemma_text_before_extends(x, y, u, v);
}

proof fn lemma_one_digit(n: nat)
    requires
        n < 10,
    ensures
        padded_digits(n, 10, 1) == seq![digit(n)],
{
}

/// Of two texts of digits of the same length the one of the smaller number comes
/// first.
proof fn lemma_digits_ascend(a: nat, b: nat, width: nat)
    requires
        a < b,
        width == 1 && b < 10 || width == 2 && b < 100 || width == 3 && b < 1000 || width == 4 && b
            < 10_000,
    ensures
        padded_digits(a, 10, width).len() == padded_digits(b, 10, width).len(),
        text_before(padded_digits(a, 10, width), padded_digits(b, 10, width)),
    decreases width,
{
    lemma_last_digit(a, width);
    lemma_last_digit(b, width);
    if width == 1 {
        lemma_next_digit(Seq::empty(), Seq::empty(), a, b);
    } else {
        let w = (width - 1) as nat;
        let x = padded_digits(a / 10, 10, w);
        let y = padded_digits(b / 10, 10, w);
        if a / 10 < b / 10 {
            lemma_digits_ascend(a / 10, b / 10, w);
        }
        lemma_next_digit(x, y, a % 10, b % 10);
    }
}

/// A text of digits ends in the last digit of its number.
proof fn lemma_last_digit(n: nat, width: nat)
    requires
        width == 1 && n < 10 || width == 2 && n < 100 || width == 3 && n < 1000 || width == 4 && n
            < 10_000,
    ensures
        padded_digits(n, 10, width).len() == width,
        width == 1 ==> padded_digits(n, 10, width) == Seq::<char>::empty().push(digit(n)),
        width > 1 ==> padded_digits(n, 10, width) == padded_digits(
            n / 10,
            10,
            (width - 1) as nat,
        ).push(digit(n % 10)),
{
    if width == 1 {
        lemma_one_digit(n);
        assert(padded_digits(n, 10, 1) =~= Seq::<char>::empty().push(digit(n)));
    } else if width == 2 {
        lemma_two_digits(n);
        lemma_one_digit(n / 10);
        assert(padded_digits(n, 10, 2) =~= padded_digits(n / 10, 10, 1).push(digit(n % 10)));
    } else if width == 3 {
        lemma_three_digits(n);
        lemma_two_digits(n / 10);
        assert(padded_digits(n, 10, 3) =~= padded_digits(n / 10, 10, 2).push(digit(n % 10)));
    } else {
        lemma_four_digits(n);
        lemma_three_digits(n / 10);
        assert(padded_digits(n, 10, 4) =~= padded_digits(n / 10, 10, 3).push(digit(n % 10)));
    }
}

/// Two texts that each go on with a separator and a number: tied ones stay tied
/// where the numbers are the same; others come in order.
proof fn lemma_next_part(
    x: Seq<char>,
    y: Seq<char>,
    between: Seq<char>,
    a: nat,
    b: nat,
    width: nat,
    tied: bool,
)
    requires
        x.len() == y.len(),
        tied ==> x == y && a <= b,
        !tied ==> text_before(x, y),
        width == 2 && a < 100 && b < 100 || width == 3 && a < 1000 && b < 1000,
    ensures
        (x + between + padded_digits(a, 10, width)).len() == (y + between + padded_digits(
            b,
            10,
            width,
        )).len(),
        tied && a == b ==> x + between + padded_digits(a, 10, width) == y + between + padded_digits(
            b,
            10,
            width,
        ),
        !(tied && a == b) ==> text_before(
            x + between + padded_digits(a, 10, width),
            y + between + padded_digits(b, 10, width),
        ),
{
    let u = padded_digits(a, 10, width);
    let v = padded_digits(b, 10, width);
    lemma_last_digit(a, width);
    lemma_last_digit(b, width);
    crate::text::lemma_text_before_extends(x, y, between, between);
    crate::text::lemma_text_before_extends(x + between, y + between, u, v);
    if tied && a < b {
        lemma_digits_ascend(a, b, width);
    }
}

proof fn lemma_pair(t: Seq<char>, at: int, n: nat)
    requires
        n < 100,
        t[at] == digit(n / 10),
        t[at + 1] == digit(n % 10),
    ensures
        digits_at(t, at, 2),
        two_at(t, at) == n,
{
    lemma_digit(n / 10);
    lemma_digit(n % 10);
}

/// What stands at each place of the text of a moment.
proof fn lemma_moment_places(y: nat, m: nat, d: nat, hour: nat, minute: nat, second: nat, milli: nat)
    requires
        y < 10_000,
        m < 100,
        d < 100,
        hour < 100,
        minute < 100,
        second < 100,
        milli < 1000,
    ensures
        ({
            let t = moment_text(
                y as int,
                m as int,
                d as int,
                hour as int,
                minute as int,
                second as int,
                milli as int,
            );
            &&& t.len() == 24
            &&& t.subrange(0, 4) == padded_digits(y, 10, 4)
            &&& t[4] == '-' && t[5] == digit(m / 10) && t[6] == digit(m % 10)
            &&& t[7] == '-' && t[8] == digit(d / 10) && t[9] == digit(d % 10)
            &&& t[10] == 'T' && t[11] == digit(hour / 10) && t[12] == digit(hour % 10)
            &&& t[13] == ':' && t[14] == digit(minute / 10) && t[15] == digit(minute % 10)
            &&& t[16] == ':' && t[17] == digit(second / 10) && t[18] == digit(second % 10)
            &&& t[19] == '.' && t.subrange(20, 23) == padded_digits(milli, 10, 3) && t[23] == 'Z'
        }),
{
    let t = moment_text(
        y as int,
        m as int,
        d as int,
        hour as int,
        minute as int,
        second as int,
        milli as int,
    );
    let a = padded_digits(y, 10, 4);
    let b = padded_digits(m, 10, 2);
    let c = padded_digits(d, 10, 2);
    let e = padded_digits(hour, 10, 2);
    let f = padded_digits(minute, 10, 2);
    let g = padded_digits(second, 10, 2);
    let h = padded_digits(milli, 10, 3);
    lemma_four_digits(y);
    lemma_two_digits(m);
    lemma_two_digits(d);
    lemma_two_digits(hour);
    lemma_two_digits(minute);
    lemma_two_digits(second);
    lemma_three_digits(milli);
    reveal_strlit("-");
    reveal_strlit("T");
    reveal_strlit(":");
    reveal_strlit(".");
    reveal_strlit("Z");
    let p1 = a + "-"@ + b;
    let p2 = p1 + "-"@ + c;
    let p3 = p2 + "T"@ + e;
    let p4 = p3 + ":"@ + f;
    let p5 = p4 + ":"@ + g;
    let p6 = p5 + "."@ + h;
    assert(t == p6 + "Z"@);
    lemma_part(a, "-"@, b);
    lemma_part(p1, "-"@, c);
    lemma_part(p2, "T"@, e);
    lemma_part(p3, ":"@, f);
    lemma_part(p4, ":"@, g);
    lemma_part(p5, "."@, h);
    assert(forall|i: int| 0 <= i < 23 ==> t[i] == p6[i]);
    assert(t.subrange(0, 4) =~= a);
    assert(t.subrange(20, 23) =~= h);
}

proof fn lemma_part(x: Seq<char>, between: Seq<char>, u: Seq<char>)
    requires
        between.len() == 1,
    ensures
        (x + between + u).len() == x.len() + 1 + u.len(),
        forall|i: int| 0 <= i < x.len() ==> #[trigger] (x + between + u)[i] == x[i],
        (x + between + u)[x.len() as int] == between[0],
        forall|i: int|
            x.len() < i < x.len() + 1 + u.len() ==> #[trigger] (x + between + u)[i] == u[i - x.len()
                - 1],
{
}

proof fn lemma_iso_form(y: nat, m: nat, d: nat, hour: nat, minute: nat, second: nat, milli: nat)
    requires
        y < 10_000,
        1 <= m <= 12,
        1 <= d <= 31,
        hour < 24,
        minute < 60,
        second < 60,
        milli < 1000,
    ensures
        has_iso_form(
            moment_text(
                y as int,
                m as int,
                d as int,
                hour as int,
                minute as int,
                second as int,
                milli as int,
            ),
        ),
{
    let t = moment_text(
        y as int,
        m as int,
        d as int,
        hour as int,
        minute as int,
        second as int,
        milli as int,
    );
    lemma_moment_places(y, m, d, hour, minute, second, milli);
    lemma_pair(t, 5, m);
    lemma_pair(t, 8, d);
    lemma_pair(t, 11, hour);
    lemma_pair(t, 14, minute);
    lemma_pair(t, 17, second);
    lemma_all_digits(t, 0, y, 4);
    lemma_all_digits(t, 20, milli, 3);
}

proof fn lemma_all_digits(t: Seq<char>, at: int, n: nat, width: nat)
    requires
        width == 3 && n < 1000 || width == 4 && n < 10_000,
        0 <= at <= at + width <= t.len(),
        t.subrange(at, at + width) == padded_digits(n, 10, width),
    ensures
        digits_at(t, at, width as int),
{
    lemma_digit(n / 1000 % 10);
    lemma_digit(n / 100 % 10);
    lemma_digit(n / 10 % 10);
    lemma_digit(n % 10);
    let s = t.subrange(at, at + width);
    if width == 3 {
        lemma_three_digits(n);
    } else {
        lemma_four_digits(n);
    }
    assert forall|i: int| at <= i < at + width implies '0' <= #[trigger] t[i] && t[i] <= '9' by {
        assert(t[i] == s[i - at]);
    }
}

/// Texts of moments are in order where the moments are, part by part.
proof fn lemma_texts_ascend(p: Seq<nat>, q: Seq<nat>)
    requires
        p.len() == 7,
        q.len() == 7,
        p[0] < 10_000 && q[0] < 10_000,
        p[6] < 1000 && q[6] < 1000,
        forall|i: int| 1 <= i < 6 ==> #[trigger] p[i] < 100,
        forall|i: int| 1 <= i < 6 ==> #[trigger] q[i] < 100,
        p[0] <= q[0],
        p[0] == q[0] ==> p[1] <= q[1],
        p[0] == q[0] && p[1] == q[1] ==> p[2] <= q[2],
        p[0] == q[0] && p[1] == q[1] && p[2] == q[2] ==> p[3] <= q[3],
        p[0] == q[0] && p[1] == q[1] && p[2] == q[2] && p[3] == q[3] ==> p[4] <= q[4],
        p[0] == q[0] && p[1] == q[1] && p[2] == q[2] && p[3] == q[3] && p[4] == q[4] ==> p[5]
            <= q[5],
        p[0] == q[0] && p[1] == q[1] && p[2] == q[2] && p[3] == q[3] && p[4] == q[4] && p[5] == q[5]
            ==> p[6] < q[6],
    ensures
        text_before(text_of_parts(p), text_of_parts(q)),
{
    let x0 = padded_digits(p[0], 10, 4);
    let z0 = padded_digits(q[0], 10, 4);
    lemma_last_digit(p[0], 4);
    lemma_last_digit(q[0], 4);
    if p[0] < q[0] {
        lemma_digits_ascend(p[0], q[0], 4);
    }
    let t0 = p[0] == q[0];
    let x1 = x0 + "-"@ + padded_digits(p[1], 10, 2);
    let z1 = z0 + "-"@ + padded_digits(q[1], 10, 2);
    lemma_next_part(x0, z0, "-"@, p[1], q[1], 2, t0);
    let t1 = t0 && p[1] == q[1];
    let x2 = x1 + "-"@ + padded_digits(p[2], 10, 2);
    let z2 = z1 + "-"@ + padded_digits(q[2], 10, 2);
    lemma_next_part(x1, z1, "-"@, p[2], q[2], 2, t1);
    let t2 = t1 && p[2] == q[2];
    let x3 = x2 + "T"@ + padded_digits(p[3], 10, 2);
    let z3 = z2 + "T"@ + padded_digits(q[3], 10, 2);
    lemma_next_part(x2, z2, "T"@, p[3], q[3], 2, t2);
    let t3 = t2 && p[3] == q[3];
    let x4 = x3 + ":"@ + padded_digits(p[4], 10, 2);
    let z4 = z3 + ":"@ + padded_digits(q[4], 10, 2);
    lemma_next_part(x3, z3, ":"@, p[4], q[4], 2, t3);
    let t4 = t3 && p[4] == q[4];
    let x5 = x4 + ":"@ + padded_digits(p[5], 10, 2);
    let z5 = z4 + ":"@ + padded_digits(q[5], 10, 2);
    lemma_next_part(x4, z4, ":"@, p[5], q[5], 2, t4);
    let t5 = t4 && p[5] == q[5];
    let x6 = x5 + "."@ + padded_digits(p[6], 10, 3);
    let z6 = z5 + "."@ + padded_digits(q[6], 10, 3);
    lemma_next_part(x5, z5, "."@, p[6], q[6], 3, t5);
    crate::text::lemma_text_before_extends(x6, z6, "Z"@, "Z"@);
}

/// The text of a moment whose parts stand in a sequence.
spec fn text_of_parts(p: Seq<nat>) -> Seq<char> {
    moment_text(
        p[0] as int,
        p[1] as int,
        p[2] as int,
        p[3] as int,
        p[4] as int,
        p[5] as int,
        p[6] as int,
    )
}

/// A day that comes before another is in an earlier year, or an earlier month of
/// the same year, or an earlier day of the same month.
proof fn lemma_dates_ascend(y1: int, m1: int, d1: int, y2: int, m2: int, d2: int)
    requires
        is_date(y1, m1, d1),
        is_date(y2, m2, d2),
        day_number(y1, m1, d1) < day_number(y2, m2, d2),
    ensures
        y1 < y2 || y1 == y2 && (m1 < m2 || m1 == m2 && d1 < d2),
{
    lemma_date_in_year(y1, m1, d1);
    lemma_date_in_year(y2, m2, d2);
    if y2 < y1 {
        lemma_years_ascend(y2 + 1, y1);
    } else if y1 == y2 {
        lemma_months(y1);
    }
}

/// Up to the end of the year 9999 a year has four digits.
proof fn lemma_four_digit_year(y: int, m: int, d: int)
    requires
        is_date(y, m, d),
        0 <= day_number(y, m, d) <= 2932896,
    ensures
        1970 <= y < 10_000,
{
    lemma_year_not_before(y, m, d);
    lemma_date_in_year(y, m, d);
    if y >= 10_000 {
        lemma_years_ascend(10_000, y);
        assert(days_before_year(10_000) == 2932897);
    }
}

/// Up to the end of the year 9999, which is as far as four digits go, the texts of
/// moments have the form `YYYY-MM-DDTHH:MM:SS.mmmZ`, and the text of an earlier
/// moment comes before that of a later one.
pub proof fn law_moments_sort(a: u64, b: u64, s: Seq<char>, t: Seq<char>)
    requires
        a < b <= 253_402_300_799_999,
        is_moment(a as int, s),
        is_moment(b as int, t),
    ensures
        has_iso_form(s),
        has_iso_form(t),
        text_before(s, t),
{
    let (y1, m1, d1) = date_of(a as int, s);
    let (y2, m2, d2) = date_of(b as int, t);
    lemma_date_of(a as int, s);
    lemma_date_of(b as int, t);
    lemma_moments_ascend(a as int, b as int, y1, m1, d1, y2, m2, d2);
}

/// A date that the text of a moment names.
spec fn date_of(ms: int, t: Seq<char>) -> (int, int, int) {
    choose|y: int, m: int, d: int| #[trigger]
        is_date(y, m, d) && day_number(y, m, d) == ms / 86_400_000 && t == moment_text(
            y,
            m,
            d,
            ms / 3_600_000 % 24,
            ms / 60_000 % 60,
            ms / 1000 % 60,
            ms % 1000,
        )
}

proof fn lemma_date_of(ms: int, t: Seq<char>)
    requires
        ms >= 0,
        is_moment(ms, t),
    ensures
        ({
            let (y, m, d) = date_of(ms, t);
            &&& is_date(y, m, d)
            &&& day_number(y, m, d) == ms / 86_400_000
            &&& y >= 0 ==> t == text_of_parts(parts_of(y, m, d, ms))
        }),
{
}

/// Two moments on their dates, the earlier one first.
proof fn lemma_moments_ascend(a: int, b: int, y1: int, m1: int, d1: int, y2: int, m2: int, d2: int)
    requires
        0 <= a < b <= 253_402_300_799_999,
        is_date(y1, m1, d1),
        day_number(y1, m1, d1) == a / 86_400_000,
        is_date(y2, m2, d2),
        day_number(y2, m2, d2) == b / 86_400_000,
    ensures
        y1 >= 0 && y2 >= 0,
        has_iso_form(text_of_parts(parts_of(y1, m1, d1, a))),
        has_iso_form(text_of_parts(parts_of(y2, m2, d2, b))),
        text_before(
            text_of_parts(parts_of(y1, m1, d1, a)),
            text_of_parts(parts_of(y2, m2, d2, b)),
        ),
{
    lemma_parts_ascend(a, b);
    lemma_dates_in_order(y1, m1, d1, y2, m2, d2);
    let p = parts_of(y1, m1, d1, a);
    let q = parts_of(y2, m2, d2, b);
    lemma_part_sizes(p, q, a / 86_400_000 == b / 86_400_000);
}

/// Two moments by their parts, the earlier one first.
proof fn lemma_part_sizes(p: Seq<nat>, q: Seq<nat>, same_day: bool)
    requires
        p.len() == 7 && q.len() == 7,
        p[0] <= q[0] < 10_000,
        1 <= p[1] <= 12 && 1 <= p[2] <= 31 && p[3] < 24 && p[4] < 60 && p[5] < 60 && p[6] < 1000,
        1 <= q[1] <= 12 && 1 <= q[2] <= 31 && q[3] < 24 && q[4] < 60 && q[5] < 60 && q[6] < 1000,
        p[0] == q[0] ==> p[1] <= q[1],
        p[0] == q[0] && p[1] == q[1] ==> p[2] <= q[2],
        same_day == (p[0] == q[0] && p[1] == q[1] && p[2] == q[2]),
        same_day ==> p[3] <= q[3],
        same_day && p[3] == q[3] ==> p[4] <= q[4],
        same_day && p[3] == q[3] && p[4] == q[4] ==> p[5] <= q[5],
        same_day && p[3] == q[3] && p[4] == q[4] && p[5] == q[5] ==> p[6] < q[6],
    ensures
        has_iso_form(text_of_parts(p)),
        has_iso_form(text_of_parts(q)),
        text_before(text_of_parts(p), text_of_parts(q)),
{
    lemma_iso_form(p[0], p[1], p[2], p[3], p[4], p[5], p[6]);
    lemma_iso_form(q[0], q[1], q[2], q[3], q[4], q[5], q[6]);
    assert forall|i: int| 1 <= i < 6 implies #[trigger] p[i] < 100 by {
        assert(i == 1 || i == 2 || i == 3 || i == 4 || i == 5);
    }
    assert forall|i: int| 1 <= i < 6 implies #[trigger] q[i] < 100 by {
        assert(i == 1 || i == 2 || i == 3 || i == 4 || i == 5);
    }
    lemma_texts_ascend(p, q);
}

/// The dates of two days, the earlier one first.
proof fn lemma_dates_in_order(y1: int, m1: int, d1: int, y2: int, m2: int, d2: int)
    requires
        is_date(y1, m1, d1),
        is_date(y2, m2, d2),
        0 <= day_number(y1, m1, d1) <= day_number(y2, m2, d2) <= 2932896,
    ensures
        1970 <= y1 <= y2 < 10_000,
        1 <= m1 <= 12 && 1 <= d1 <= 31,
        1 <= m2 <= 12 && 1 <= d2 <= 31,
        y1 == y2 ==> m1 <= m2,
        y1 == y2 && m1 == m2 ==> d1 <= d2,
        y1 == y2 && m1 == m2 && d1 == d2 <==> day_number(y1, m1, d1) == day_number(y2, m2, d2),
{
    lemma_four_digit_year(y1, m1, d1);
    lemma_four_digit_year(y2, m2, d2);
    if day_number(y1, m1, d1) < day_number(y2, m2, d2) {
        lemma_dates_ascend(y1, m1, d1, y2, m2, d2);
    } else {
        law_day_numbers_differ(y1, m1, d1, y2, m2, d2);
    }
}

/// The parts of a moment on a date.
spec fn parts_of(y: int, m: int, d: int, ms: int) -> Seq<nat> {
    seq![
        y as nat,
        m as nat,
        d as nat,
        (ms / 3_600_000 % 24) as nat,
        (ms / 60_000 % 60) as nat,
        (ms / 1000 % 60) as nat,
        (ms % 1000) as nat,
    ]
}

/// Of two moments the earlier one has an earlier day, or an earlier hour of the same
/// day, and so on down to the millisecond.
proof fn lemma_parts_ascend(a: int, b: int)
    requires
        0 <= a < b,
    ensures
        ({
            let day = a / 86_400_000 == b / 86_400_000;
            let hour = a / 3_600_000 % 24 == b / 3_600_000 % 24;
            let minute = a / 60_000 % 60 == b / 60_000 % 60;
            let second = a / 1000 % 60 == b / 1000 % 60;
            &&& a / 86_400_000 <= b / 86_400_000
            &&& day ==> a / 3_600_000 % 24 <= b / 3_600_000 % 24
            &&& day && hour ==> a / 60_000 % 60 <= b / 60_000 % 60
            &&& day && hour && minute ==> a / 1000 % 60 <= b / 1000 % 60
            &&& day && hour && minute && second ==> a % 1000 < b % 1000
        }),
{
    lemma_units(a);
    lemma_units(b);
}

/// How many hours, minutes and seconds a moment lies after the beginning of 1970.
proof fn lemma_units(ms: int)
    requires
        ms >= 0,
    ensures
        ms / 3_600_000 == 24 * (ms / 86_400_000) + ms / 3_600_000 % 24,
        ms / 60_000 == 60 * (ms / 3_600_000) + ms / 60_000 % 60,
        ms / 1000 == 60 * (ms / 60_000) + ms / 1000 % 60,
        ms == 1000 * (ms / 1000) + ms % 1000,
{
    assert(ms / 3_600_000 / 24 == ms / 86_400_000);
    assert(ms / 60_000 / 60 == ms / 3_600_000);
    assert(ms / 1000 / 60 == ms / 60_000);
}

/// The months have their days: thirty in April, June, September and November, twenty-eight
/// in February but twenty-nine in a leap year, and thirty-one in all others. A year is a
/// leap year where four divides it, but where a hundred does only where four hundred does.
/// The first day of a month follows the last of the month before it.
pub proof fn law_months_follow(y: int, m: int)
    requires
        1 <= m <= 12,
    ensures
        m == 1 || m == 3 || m == 5 || m == 7 || m == 8 || m == 10 || m == 12 ==> days_in_month(y, m)
            == 31,
        m == 4 || m == 6 || m == 9 || m == 11 ==> days_in_month(y, m) == 30,
        m == 2 && y % 400 == 0 ==> days_in_month(y, m) == 29,
        m == 2 && y % 4 == 0 && y % 100 != 0 ==> days_in_month(y, m) == 29,
        m == 2 && y % 4 != 0 ==> days_in_month(y, m) == 28,
        m == 2 && y % 100 == 0 && y % 400 != 0 ==> days_in_month(y, m) == 28,
        m < 12 ==> day_number(y, m + 1, 1) == day_number(y, m, days_in_month(y, m)) + 1,
        forall|d: int| #[trigger] day_number(y, m, d + 1) == day_number(y, m, d) + 1,
{
    assert(y % 400 == 0 ==> y % 4 == 0);
}

} // verus!
