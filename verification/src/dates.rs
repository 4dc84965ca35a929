use vstd::prelude::*;
use crate::text::push_str;
use crate::calendar::{
    date_text_of_day, day_number, days_before_year, lemma_before_year_10000, lemma_calendar_date,
    lemma_day_in_year, lemma_day_number_bounds, lemma_us_date_fields, lemma_year_bound, is_us_date, is_valid_date, us_date_fields,
    two_digits, us_date_text, us_datetime_text,
};
use crate::numbers::digit_char;

verus! {

/// What `chrono::DateTime::from_timestamp(secs, 0)` followed by
/// `format("%m/%d/%Y")` gives for a Unix time: `None` where the time is out
/// of chrono's range.
pub uninterp spec fn us_date_of(secs: i64) -> Option<Seq<char>>;

/// What `chrono::NaiveDateTime::parse_from_str(text, "%m/%d/%Y %H:%M:%S")`
/// followed by `.and_utc().timestamp()` gives: `None` where the text does not
/// parse.
pub uninterp spec fn us_datetime_timestamp(text: Seq<char>) -> Option<i64>;

/// Formats a Unix time as a month/day/year date in UTC with chrono
/// (`DateTime::from_timestamp`, then `format("%m/%d/%Y")`). The contract
/// ties the result to `us_date_of`, and states it for the times after the
/// epoch and before the year 10000: chrono's calendar is the proleptic
/// Gregorian one, `%m` and `%d` are two zero-padded digits and `%Y` four
/// digits in those years, so the text is that of the date of the time's day
/// (`secs / 86400` days after 1 January 1970). Other times are not restated.
#[verifier::external_body]
fn chrono_us_date(secs: i64) -> (r: Option<String>)
    ensures
        r matches Some(s) ==> us_date_of(secs) == Some(s@),
        r is None ==> us_date_of(secs) is None,
        0 < secs && (secs as int) / 86400 < days_before_year(10000) ==> r is Some,
        r matches Some(s) ==> (0 < secs && (secs as int) / 86400 < days_before_year(10000) ==> s@
            == date_text_of_day((secs as int) / 86400)),
{
    match chrono::DateTime::from_timestamp(secs, 0) {
        Some(d) => Some(d.format("%m/%d/%Y").to_string()),
        None => None,
    }
}

/// Parses a month/day/year hour:minute:second text as a UTC time with
/// chrono (`NaiveDateTime::parse_from_str`, then `and_utc().timestamp()`).
/// The contract ties the result to `us_datetime_timestamp`, and states it
/// for a text that writes a valid date and time with exactly two digits
/// for each field and four for the year: the Unix time of that date and
/// time in the proleptic Gregorian calendar. Other texts are not restated.
#[verifier::external_body]
fn chrono_us_datetime(text: &str) -> (r: Option<i64>)
    ensures
        r == us_datetime_timestamp(text@),
        forall|y: int, m: int, d: int, h: int, mi: int, s: int|
            is_valid_date(y, m, d) && 0 <= h < 24 && 0 <= mi < 60 && 0 <= s < 60 && text@
                == #[trigger] us_datetime_text(y, m, d, h, mi, s) ==> r == Some(
                (day_number(y, m, d) * 86400 + h * 3600 + mi * 60 + s) as i64,
            ),
{
    match chrono::NaiveDateTime::parse_from_str(text, "%m/%d/%Y %H:%M:%S") {
        Ok(d) => Some(d.and_utc().timestamp()),
        Err(_) => None,
    }
}

/// The date shown for an article created at `secs`: empty for times that
/// are not after the epoch, the month/day/year text of the UTC date of the
/// time's day for times before the year 10000, and chrono's text beyond
/// (`None` where chrono cannot represent the time).
pub open spec fn shown_date(secs: i64) -> Option<Seq<char>> {
    if secs <= 0 {
        Some(Seq::empty())
    } else if (secs as int) / 86400 < days_before_year(10000) {
        Some(date_text_of_day((secs as int) / 86400))
    } else {
        us_date_of(secs)
    }
}

/// The date line of an article created at `secs`.
pub fn article_date(secs: i64) -> (r: Option<String>)
    ensures
        r matches Some(s) ==> shown_date(secs) == Some(s@),
        r is None ==> shown_date(secs) is None,
        0 < secs && (secs as int) / 86400 < days_before_year(10000) ==> r is Some,
        r matches Some(s) ==> (0 < secs && (secs as int) / 86400 < days_before_year(10000) ==> s@
            == date_text_of_day((secs as int) / 86400)),
{
    if secs > 0 {
        chrono_us_date(secs)
    } else {
        Some(String::new())
    }
}

/// Noon UTC on 1 January 2030, the time given to a submission whose date
/// does not parse.
pub const FALLBACK_SUBMISSION_TIME: i64 = 1_893_499_200;

/// The Unix time of a submitted month/day/year date, taken at noon UTC: for
/// a valid `MM/DD/YYYY` date, its day number times a day's seconds and
/// half a day more; otherwise what chrono reads from the text with
/// ` 12:00:00` after it, and the fallback time where that does not parse.
pub open spec fn submission_time_of(date: Seq<char>) -> i64 {
    if is_us_date(date) {
        let f = us_date_fields(date);
        (day_number(f.0, f.1, f.2) * 86400 + 43200) as i64
    } else {
        match us_datetime_timestamp(date + " 12:00:00"@) {
            Some(t) => t,
            None => FALLBACK_SUBMISSION_TIME,
        }
    }
}

/// The Unix time of a submitted month/day/year date, at noon UTC.
pub fn submission_time(date: &str) -> (t: i64)
    ensures
        t == submission_time_of(date@),
{
    let mut d = String::new();
    push_str(&mut d, date);
    push_str(&mut d, " 12:00:00");
    proof {
        if is_us_date(date@) {
            let (y, m, dd) = choose|y: int, m: int, dd: int|
                is_valid_date(y, m, dd) && date@ == #[trigger] us_date_text(y, m, dd);
            assert(is_valid_date((y, m, dd).0, (y, m, dd).1, (y, m, dd).2) && date@ == us_date_text(
                (y, m, dd).0,
                (y, m, dd).1,
                (y, m, dd).2,
            ));
            let f = us_date_fields(date@);
            reveal_strlit(" 12:00:00");
            assert(digit_char(1) == '1' && digit_char(2) == '2' && digit_char(0) == '0');
            assert(two_digits(12) =~= seq!['1', '2']);
            assert(two_digits(0) =~= seq!['0', '0']);
            assert(d@ =~= us_datetime_text(f.0, f.1, f.2, 12, 0, 0));
        }
    }
    match chrono_us_datetime(d.as_str()) {
        Some(t) => t,
        None => FALLBACK_SUBMISSION_TIME,
    }
}


/// Every time after the epoch and before the year 10000 shows the
/// month/day/year text of its own UTC calendar date: for a valid date and a
/// second `s` of that day, the time `day_number * 86400 + s` shows that
/// date, leap days counted.
pub proof fn lemma_shown_date_of_day(y: int, m: int, d: int, s: int, t: i64)
    requires
        is_valid_date(y, m, d),
        0 <= s < 86400,
        0 < t,
        t as int == day_number(y, m, d) * 86400 + s,
    ensures
        shown_date(t) == Some(us_date_text(y, m, d)),
{
    let n = day_number(y, m, d);
    assert((n * 86400 + s) / 86400 == n) by (nonlinear_arith)
        requires
            0 <= s < 86400,
    ;
    lemma_before_year_10000(y, m, d);
    lemma_calendar_date(y, m, d);
}

/// A submitted valid `MM/DD/YYYY` date is stored at noon UTC of that date:
/// its day number times a day's seconds, and half a day more.
pub proof fn lemma_submission_at_noon(y: int, m: int, d: int)
    requires
        is_valid_date(y, m, d),
    ensures
        submission_time_of(us_date_text(y, m, d)) as int == day_number(y, m, d) * 86400 + 43200,
{
    lemma_us_date_fields(y, m, d);
    lemma_day_number_bounds(y, m, d);
}

/// The date that an article is submitted with, from 1970 on, is the date
/// that it then shows.
pub proof fn lemma_submitted_date_is_shown(y: int, m: int, d: int)
    requires
        is_valid_date(y, m, d),
        1970 <= y,
    ensures
        shown_date(submission_time_of(us_date_text(y, m, d))) == Some(us_date_text(y, m, d)),
{
    lemma_submission_at_noon(y, m, d);
    lemma_day_in_year(y, m, d);
    lemma_year_bound(y);
    lemma_shown_date_of_day(y, m, d, 43200, submission_time_of(us_date_text(y, m, d)));
}

} // verus!
