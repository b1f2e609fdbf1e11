//! Days and seconds of the calendar.
use crate::text;
use crate::text::{concat2, has_text, is_blank, pad_left, push_text, show_u64, to_ascii_upper};
use vstd::prelude::*;

verus! {

/// Whether a year has a leap day.
pub open spec fn is_leap(year: int) -> bool {
    year % 4 == 0 && (year % 100 != 0 || year % 400 == 0)
}

pub open spec fn days_in_month(year: int, month: int) -> int {
    if month == 2 {
        if is_leap(year) {
            29
        } else {
            28
        }
    } else if month == 4 || month == 6 || month == 9 || month == 11 {
        30
    } else {
        31
    }
}

/// The days of the year before a month.
pub open spec fn days_before_month(year: int, month: int) -> int
    decreases month,
{
    if month <= 1 {
        0
    } else {
        days_before_month(year, month - 1) + days_in_month(year, month - 1)
    }
}

/// The days from the year 1 to a year.
pub open spec fn days_before_year(year: int) -> int {
    let y = year - 1;
    365 * y + y / 4 - y / 100 + y / 400
}

/// The days from the start of 1970 to a day.
pub open spec fn day_number(year: int, month: int, day: int) -> int {
    days_before_year(year) - days_before_year(1970) + days_before_month(year, month) + day - 1
}

/// The seconds since 1970 of a time of the calendar, in universal time; none where
/// there is no such time.
pub open spec fn utc_seconds(
    year: int,
    month: int,
    day: int,
    hour: int,
    minute: int,
    second: int,
) -> Option<int> {
    if 0 <= year <= 9999 && 1 <= month <= 12 && 1 <= day <= days_in_month(year, month) && hour < 24
        && minute < 60 && second < 60 {
        Some(day_number(year, month, day) * 86400 + hour * 3600 + minute * 60 + second)
    } else {
        None
    }
}

/// Calls `time`'s `Month::try_from`, `Date::from_calendar_date`, `Time::from_hms`
/// and `unix_timestamp`: a time of the calendar, taken as universal time, in seconds
/// since 1970. There is none where one of the numbers is out of its range, or the
/// year past the last that dates are kept for.
#[verifier::external_body]
pub(crate) fn calendar_seconds(
    year: u16,
    month: u8,
    day: u8,
    hour: u8,
    minute: u8,
    second: u8,
) -> (r: Option<i64>)
    ensures
        match r {
            Some(t) => utc_seconds(
                year as int,
                month as int,
                day as int,
                hour as int,
                minute as int,
                second as int,
            ) == Some(t as int),
            None => utc_seconds(
                year as int,
                month as int,
                day as int,
                hour as int,
                minute as int,
                second as int,
            ) is None,
        },
{
    let month = time::Month::try_from(month).ok()?;
    let date = time::Date::from_calendar_date(i32::from(year), month, day).ok()?;
    let clock = time::Time::from_hms(hour, minute, second).ok()?;
    Some(time::PrimitiveDateTime::new(date, clock).assume_utc().unix_timestamp())
}

/// Calls `time`'s `OffsetDateTime::from_unix_timestamp`, and `year`, `month` and
/// `day` of what it returns: the day of the calendar, in universal time, on which a
/// number of seconds since 1970 falls. There is none before the year -9999 and none
/// after the year 9999.
#[verifier::external_body]
fn calendar_day(t: i64) -> (r: Option<(i32, u8, u8)>)
    ensures
        match r {
            Some((y, m, d)) => -9999 <= y <= 9999 && 1 <= m <= 12 && 1 <= d <= days_in_month(
                y as int,
                m as int,
            ) && day_number(y as int, m as int, d as int) == t as int / 86400,
            None => t < day_number(-9999, 1, 1) * 86400 || t >= day_number(10000, 1, 1) * 86400,
        },
{
    let date = time::OffsetDateTime::from_unix_timestamp(t).ok()?;
    Some((date.year(), u8::from(date.month()), date.day()))
}

/// The words that a locale is known by: the one for times, unless it is blank, else
/// the general one, in upper case.
pub open spec fn locale_of(lc_time: Option<String>, lang: Option<String>) -> Seq<char> {
    let chosen = match lc_time {
        Some(t) => if text::trimmed(t@).len() > 0 {
            Some(t@)
        } else {
            text::text_opt(lang)
        },
        None => text::text_opt(lang),
    };
    match chosen {
        Some(c) => text::ascii_upper(c),
        None => Seq::empty(),
    }
}

pub fn locale_hint(lc_time: &Option<String>, lang: &Option<String>) -> (r: String)
    ensures
        r@ == locale_of(*lc_time, *lang),
{
    if let Some(t) = lc_time {
        if !is_blank(t.as_str()) {
            return to_ascii_upper(t.as_str());
        }
    }
    match lang {
        Some(l) => to_ascii_upper(l.as_str()),
        None => String::new(),
    }
}

/// Whether dates are written month first.
pub open spec fn month_first(locale: Seq<char>) -> bool {
    text::contains_text(locale, "US"@) || text::contains_text(locale, "PH"@)
}

/// Whether dates are written year first.
pub open spec fn year_first(locale: Seq<char>) -> bool {
    text::contains_text(locale, "CN"@) || text::contains_text(locale, "JP"@)
        || text::contains_text(locale, "KR"@) || text::contains_text(locale, "TW"@)
        || text::contains_text(locale, "HU"@)
}

pub fn prefers_mdy(locale: &str) -> (r: bool)
    ensures
        r == month_first(locale@),
{
    has_text(locale, "US") || has_text(locale, "PH")
}

pub fn prefers_ymd(locale: &str) -> (r: bool)
    ensures
        r == year_first(locale@),
{
    has_text(locale, "CN") || has_text(locale, "JP") || has_text(locale, "KR") || has_text(
        locale,
        "TW",
    ) || has_text(locale, "HU")
}

/// A number with zeros in front.
pub open spec fn zeros(n: nat, width: nat) -> Seq<char> {
    text::right_in(text::decimal(n), width, '0')
}

fn show_zeros(n: u64, width: usize) -> (r: String)
    ensures
        r@ == zeros(n as nat, width as nat),
{
    let shown = show_u64(n);
    pad_left(shown.as_str(), width, '0')
}

/// A date as a locale writes it.
pub open spec fn written(y: nat, m: nat, d: nat, locale: Seq<char>) -> Seq<char> {
    if month_first(locale) {
        zeros(m, 2) + "-"@ + zeros(d, 2) + "-"@ + zeros(y, 4)
    } else if year_first(locale) {
        zeros(y, 4) + "-"@ + zeros(m, 2) + "-"@ + zeros(d, 2)
    } else {
        zeros(d, 2) + "-"@ + zeros(m, 2) + "-"@ + zeros(y, 4)
    }
}

/// Whether a text is the date of a time: times before 1970 and after the year 9999
/// have none.
pub open spec fn is_date(r: Option<Seq<char>>, t: int, locale: Seq<char>) -> bool {
    match r {
        Some(s) => 0 < t && exists|y: int, m: int, d: int|
            {
                &&& 1970 <= y <= 9999
                &&& 1 <= m <= 12
                &&& 1 <= d <= days_in_month(y, m)
                &&& #[trigger] day_number(y, m, d) == t / 86400
                &&& s == written(y as nat, m as nat, d as nat, locale)
            },
        None => t <= 0 || t >= day_number(10000, 1, 1) * 86400,
    }
}

proof fn lemma_before_1970(y: int, m: int, d: int)
    requires
        -9999 <= y < 1970,
        1 <= m <= 12,
        1 <= d <= days_in_month(y, m),
    ensures
        day_number(y, m, d) < 0,
{
    reveal_with_fuel(days_before_month, 13);
    let leap: int = if is_leap(y) {
        1
    } else {
        0
    };
    assert(days_before_month(y, m) + d <= 365 + leap);
    assert(days_before_year(y + 1) == days_before_year(y) + 365 + leap);
    assert(days_before_year(y + 1) <= days_before_year(1970));
}

fn join_date(a: &str, b: &str, c: &str) -> (r: String)
    ensures
        r@ == a@ + "-"@ + b@ + "-"@ + c@,
{
    let mut r = concat2(a, "-");
    push_text(&mut r, b);
    push_text(&mut r, "-");
    push_text(&mut r, c);
    r
}

/// The date of a time, as a locale writes it.
pub fn format_short_date(timestamp: i64, locale: &str) -> (r: Option<String>)
    ensures
        is_date(text::text_opt(r), timestamp as int, locale@),
{
    if timestamp <= 0 {
        return None;
    }
    match calendar_day(timestamp) {
        Some((y, m, d)) => {
            proof {
                if y < 1970 {
                    lemma_before_1970(y as int, m as int, d as int);
                }
            }
            let year = show_zeros(y as u64, 4);
            let month = show_zeros(m as u64, 2);
            let day = show_zeros(d as u64, 2);
            let r = if prefers_mdy(locale) {
                join_date(month.as_str(), day.as_str(), year.as_str())
            } else if prefers_ymd(locale) {
                join_date(year.as_str(), month.as_str(), day.as_str())
            } else {
                join_date(day.as_str(), month.as_str(), year.as_str())
            };
            assert(day_number(y as int, m as int, d as int) == timestamp as int / 86400);
            assert(r@ == written(y as nat, m as nat, d as nat, locale@));
            Some(r)
        },
        None => {
            proof {
                reveal_with_fuel(days_before_month, 2);
                assert(day_number(-9999, 1, 1) < 0);
            }
            None
        },
    }
}

pub open spec fn blank_date(locale: Seq<char>) -> Seq<char> {
    if year_first(locale) {
        "---- -- --"@
    } else {
        "-- -- ----"@
    }
}

pub fn format_blank_date(locale: &str) -> (r: String)
    ensures
        r@ == blank_date(locale@),
{
    if prefers_ymd(locale) {
        "---- -- --".to_owned()
    } else {
        "-- -- ----".to_owned()
    }
}

/// The date of a time, or a blank where there is none.
pub fn format_date_cell(value: Option<i64>, locale: &str) -> (r: String)
    ensures
        match value {
            Some(t) => is_date(Some(r@), t as int, locale@) || (is_date(
                None,
                t as int,
                locale@,
            ) && r@ == blank_date(locale@)),
            None => r@ == blank_date(locale@),
        },
{
    if let Some(t) = value {
        if let Some(s) = format_short_date(t, locale) {
            return s;
        }
    }
    format_blank_date(locale)
}

} // verus!
