use vstd::prelude::*;
use crate::numbers::digit_char;

verus! {

/// Leap years of the proleptic Gregorian calendar.
pub open spec fn is_leap_year(y: int) -> bool {
    y % 4 == 0 && (y % 100 != 0 || y % 400 == 0)
}

/// The number of days of a year.
pub open spec fn days_in_year(y: int) -> int {
    if is_leap_year(y) {
        366
    } else {
        365
    }
}

/// The number of days of month `m` (1 to 12) of year `y`.
pub open spec fn days_in_month(y: int, m: int) -> int {
    if m == 2 {
        if is_leap_year(y) {
            29
        } else {
            28
        }
    } else if m == 4 || m == 6 || m == 9 || m == 11 {
        30
    } else {
        31
    }
}

/// The days of year `y` before the first of month `m`.
pub open spec fn days_before_month(y: int, m: int) -> int
    decreases m,
{
    if m <= 1 {
        0
    } else {
        days_before_month(y, m - 1) + days_in_month(y, m - 1)
    }
}

/// The days from 1 January 1970 to 1 January of year `y` (negative before
/// 1970).
pub open spec fn days_before_year(y: int) -> int
    decreases (if y >= 1970 { y - 1970 } else { 1970 - y }),
{
    if y > 1970 {
        days_before_year(y - 1) + days_in_year(y - 1)
    } else if y < 1970 {
        days_before_year(y + 1) - days_in_year(y)
    } else {
        0
    }
}

/// The day number of a date: days since 1 January 1970.
pub open spec fn day_number(y: int, m: int, d: int) -> int {
    days_before_year(y) + days_before_month(y, m) + d - 1
}

/// A date of the years 0 to 9999 that the calendar has.
pub open spec fn is_valid_date(y: int, m: int, d: int) -> bool {
    0 <= y <= 9999 && 1 <= m <= 12 && 1 <= d <= days_in_month(y, m)
}

/// The date (year, month, day) with the given day number.
pub open spec fn calendar_date(day: int) -> (int, int, int) {
    choose|ymd: (int, int, int)| is_valid_date(ymd.0, ymd.1, ymd.2) && day_number(ymd.0, ymd.1, ymd.2) == day
}

/// Two decimal digits, zero-padded.
pub open spec fn two_digits(n: int) -> Seq<char> {
    seq![digit_char(n / 10), digit_char(n % 10)]
}

/// Four decimal digits, zero-padded.
pub open spec fn four_digits(n: int) -> Seq<char> {
    seq![digit_char(n / 1000), digit_char((n / 100) % 10), digit_char((n / 10) % 10), digit_char(n % 10)]
}

/// A date written month/day/year: `MM/DD/YYYY`.
pub open spec fn us_date_text(y: int, m: int, d: int) -> Seq<char> {
    two_digits(m) + seq!['/'] + two_digits(d) + seq!['/'] + four_digits(y)
}

proof fn lemma_year_step(y: int)
    ensures
        days_before_year(y + 1) == days_before_year(y) + days_in_year(y),
{
}

proof fn lemma_months_of_year(y: int)
    ensures
        days_before_month(y, 13) == days_in_year(y),
{
    reveal_with_fuel(days_before_month, 13);
}

proof fn lemma_months_grow(y: int, m: int, m2: int)
    requires
        1 <= m < m2,
    ensures
        days_before_month(y, m) + days_in_month(y, m) <= days_before_month(y, m2),
    decreases m2 - m,
{
    if m2 > m + 1 {
        lemma_months_grow(y, m, m2 - 1);
        assert(days_in_month(y, m2 - 1) >= 28);
    }
}

proof fn lemma_years_grow(y: int, y2: int)
    requires
        y < y2,
    ensures
        days_before_year(y) + days_in_year(y) <= days_before_year(y2),
    decreases y2 - y,
{
    lemma_year_step(y);
    if y2 > y + 1 {
        lemma_years_grow(y + 1, y2);
        assert(days_in_year(y + 1) >= 365);
    }
}

/// A valid date's day number lies within its year: from the year's first
/// day number up to, not including, the next year's.
pub proof fn lemma_day_in_year(y: int, m: int, d: int)
    requires
        is_valid_date(y, m, d),
    ensures
        days_before_year(y) <= day_number(y, m, d) < days_before_year(y + 1),
        days_before_year(y) + days_before_month(y, m) <= day_number(y, m, d) < days_before_year(y)
            + days_before_month(y, m) + days_in_month(y, m),
{
    lemma_year_step(y);
    lemma_months_of_year(y);
    if m < 12 {
        lemma_months_grow(y, m, 13);
    } else {
        assert(days_before_month(y, 13) == days_before_month(y, 12) + days_in_month(y, 12));
    }
    if m > 1 {
        lemma_months_grow(y, 1, m);
    }
}

/// Distinct valid dates have distinct day numbers: the day number names
/// the date.
pub proof fn lemma_day_number_injective(y: int, m: int, d: int, y2: int, m2: int, d2: int)
    requires
        is_valid_date(y, m, d),
        is_valid_date(y2, m2, d2),
        day_number(y, m, d) == day_number(y2, m2, d2),
    ensures
        y == y2 && m == m2 && d == d2,
{
    lemma_day_in_year(y, m, d);
    lemma_day_in_year(y2, m2, d2);
    if y < y2 {
        lemma_years_grow(y, y2);
    } else if y2 < y {
        lemma_years_grow(y2, y);
    } else if m < m2 {
        lemma_months_grow(y, m, m2);
    } else if m2 < m {
        lemma_months_grow(y, m2, m);
    }
}

/// The date that a valid date's day number names is that date.
pub proof fn lemma_calendar_date(y: int, m: int, d: int)
    requires
        is_valid_date(y, m, d),
    ensures
        calendar_date(day_number(y, m, d)) == (y, m, d),
{
    let day = day_number(y, m, d);
    assert(is_valid_date((y, m, d).0, (y, m, d).1, (y, m, d).2) && day_number((y, m, d).0, (y, m, d).1, (y, m, d).2) == day);
    let c = calendar_date(day);
    lemma_day_number_injective(y, m, d, c.0, c.1, c.2);
}

/// Every date of the years 0 to 9999 lies before 1 January 10000.
pub proof fn lemma_before_year_10000(y: int, m: int, d: int)
    requires
        is_valid_date(y, m, d),
    ensures
        day_number(y, m, d) < days_before_year(10000),
{
    lemma_day_in_year(y, m, d);
    if y < 9999 {
        lemma_years_grow(y + 1, 10000);
        assert(days_in_year(y + 1) >= 365);
    }
}

/// Day numbers of the years 0 to 9999 are small: at most 366 days a year
/// from 1970.
pub proof fn lemma_day_number_bounds(y: int, m: int, d: int)
    requires
        is_valid_date(y, m, d),
    ensures
        -1_000_000 <= day_number(y, m, d) <= 3_000_000,
{
    lemma_day_in_year(y, m, d);
    lemma_year_bound(y);
    lemma_year_bound(y + 1);
}

/// The first day of a year of 0 to 10000 lies at most 366 days a year
/// from 1 January 1970, on the same side of it as the year.
pub proof fn lemma_year_bound(y: int)
    requires
        0 <= y <= 10000,
    ensures
        y >= 1970 ==> 0 <= days_before_year(y) <= 366 * (y - 1970),
        y < 1970 ==> -366 * (1970 - y) <= days_before_year(y) <= 0,
    decreases (if y >= 1970 { y - 1970 } else { 1970 - y }),
{
    if y > 1970 {
        lemma_year_bound(y - 1);
    } else if y < 1970 {
        lemma_year_bound(y + 1);
    }
}


/// The month/day/year text of the date with the given day number.
pub open spec fn date_text_of_day(day: int) -> Seq<char> {
    let c = calendar_date(day);
    us_date_text(c.0, c.1, c.2)
}

/// A date and time written `MM/DD/YYYY HH:MM:SS`.
pub open spec fn us_datetime_text(y: int, m: int, d: int, h: int, mi: int, s: int) -> Seq<char> {
    us_date_text(y, m, d) + seq![' '] + two_digits(h) + seq![':'] + two_digits(mi) + seq![':'] + two_digits(s)
}

/// The text is a valid date written `MM/DD/YYYY`.
pub open spec fn is_us_date(t: Seq<char>) -> bool {
    exists|y: int, m: int, d: int| is_valid_date(y, m, d) && t == #[trigger] us_date_text(y, m, d)
}

/// The date (year, month, day) that a `MM/DD/YYYY` text names.
pub open spec fn us_date_fields(t: Seq<char>) -> (int, int, int) {
    choose|ymd: (int, int, int)| is_valid_date(ymd.0, ymd.1, ymd.2) && t == us_date_text(ymd.0, ymd.1, ymd.2)
}

proof fn lemma_digit_injective(a: int, b: int)
    requires
        0 <= a <= 9,
        0 <= b <= 9,
        digit_char(a) == digit_char(b),
    ensures
        a == b,
{
    assert(digit_char(a) as int == 48 + a);
    assert(digit_char(b) as int == 48 + b);
}

proof fn lemma_two_digits_injective(a: int, b: int)
    requires
        0 <= a <= 99,
        0 <= b <= 99,
        two_digits(a) == two_digits(b),
    ensures
        a == b,
{
    assert(two_digits(a)[0] == two_digits(b)[0]);
    assert(two_digits(a)[1] == two_digits(b)[1]);
    lemma_digit_injective(a / 10, b / 10);
    lemma_digit_injective(a % 10, b % 10);
}

proof fn lemma_four_digits_injective(a: int, b: int)
    requires
        0 <= a <= 9999,
        0 <= b <= 9999,
        four_digits(a) == four_digits(b),
    ensures
        a == b,
{
    assert(four_digits(a)[0] == four_digits(b)[0]);
    assert(four_digits(a)[1] == four_digits(b)[1]);
    assert(four_digits(a)[2] == four_digits(b)[2]);
    assert(four_digits(a)[3] == four_digits(b)[3]);
    lemma_digit_injective(a / 1000, b / 1000);
    lemma_digit_injective((a / 100) % 10, (b / 100) % 10);
    lemma_digit_injective((a / 10) % 10, (b / 10) % 10);
    lemma_digit_injective(a % 10, b % 10);
}

/// A `MM/DD/YYYY` text names one date only.
pub proof fn lemma_us_date_text_injective(y: int, m: int, d: int, y2: int, m2: int, d2: int)
    requires
        is_valid_date(y, m, d),
        is_valid_date(y2, m2, d2),
        us_date_text(y, m, d) == us_date_text(y2, m2, d2),
    ensures
        y == y2 && m == m2 && d == d2,
{
    let t = us_date_text(y, m, d);
    let t2 = us_date_text(y2, m2, d2);
    assert(t.subrange(0, 2) =~= two_digits(m));
    assert(t2.subrange(0, 2) =~= two_digits(m2));
    assert(t.subrange(3, 5) =~= two_digits(d));
    assert(t2.subrange(3, 5) =~= two_digits(d2));
    assert(t.subrange(6, 10) =~= four_digits(y));
    assert(t2.subrange(6, 10) =~= four_digits(y2));
    lemma_two_digits_injective(m, m2);
    lemma_two_digits_injective(d, d2);
    lemma_four_digits_injective(y, y2);
}

/// The fields read from the text of a valid date are that date.
pub proof fn lemma_us_date_fields(y: int, m: int, d: int)
    requires
        is_valid_date(y, m, d),
    ensures
        is_us_date(us_date_text(y, m, d)),
        us_date_fields(us_date_text(y, m, d)) == (y, m, d),
{
    let t = us_date_text(y, m, d);
    assert(is_valid_date((y, m, d).0, (y, m, d).1, (y, m, d).2) && t == us_date_text((y, m, d).0, (y, m, d).1, (y, m, d).2));
    let f = us_date_fields(t);
    lemma_us_date_text_injective(y, m, d, f.0, f.1, f.2);
}


proof fn lemma_year_of(day: int, y: int) -> (r: int)
    requires
        0 <= y <= 9999,
        days_before_year(y) <= day < days_before_year(10000),
    ensures
        y <= r <= 9999,
        days_before_year(r) <= day < days_before_year(r + 1),
    decreases 10000 - y,
{
    if day < days_before_year(y + 1) {
        y
    } else {
        lemma_year_of(day, y + 1)
    }
}

proof fn lemma_month_of(y: int, k: int, m: int) -> (r: int)
    requires
        1 <= m <= 12,
        days_before_month(y, m) <= k < days_before_month(y, 13),
    ensures
        m <= r <= 12,
        days_before_month(y, r) <= k < days_before_month(y, r) + days_in_month(y, r),
    decreases 13 - m,
{
    if k < days_before_month(y, m) + days_in_month(y, m) {
        m
    } else {
        lemma_month_of(y, k, m + 1)
    }
}

/// Every day from 1 January of year 0 to 31 December 9999 has a valid
/// date, which `calendar_date` names.
pub proof fn lemma_calendar_date_exists(day: int)
    requires
        days_before_year(0) <= day < days_before_year(10000),
    ensures
        is_valid_date(calendar_date(day).0, calendar_date(day).1, calendar_date(day).2),
        day_number(calendar_date(day).0, calendar_date(day).1, calendar_date(day).2) == day,
{
    let y = lemma_year_of(day, 0);
    lemma_year_step(y);
    lemma_months_of_year(y);
    let m = lemma_month_of(y, day - days_before_year(y), 1);
    let d = day - days_before_year(y) - days_before_month(y, m) + 1;
    assert(is_valid_date((y, m, d).0, (y, m, d).1, (y, m, d).2) && day_number((y, m, d).0, (y, m, d).1, (y, m, d).2) == day);
}

} // verus!
