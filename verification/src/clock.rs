//! Clock and log timestamps, formatted by chrono from a local date and time.

use vstd::prelude::*;
use chrono::NaiveDate;

verus! {

/// Gregorian leap year (proleptic, year 0 is 1 BCE).
pub open spec fn is_leap_year(y: int) -> bool {
    (y % 4 == 0 && y % 100 != 0) || y % 400 == 0
}

pub open spec fn days_in_month(y: int, m: int) -> int {
    if m == 2 {
        if is_leap_year(y) {
            29
        } else {
            28
        }
    } else if m == 4 || m == 6 || m == 9 || m == 11 {
        30
    } else {
        31
    }
}

/// A calendar day that chrono's `NaiveDate` can hold: years from 262144 BCE
/// (year -262143) to 262142 CE.
pub open spec fn valid_date(y: int, m: int, d: int) -> bool {
    &&& -262143 <= y <= 262142
    &&& 1 <= m <= 12
    &&& 1 <= d <= days_in_month(y, m)
}

/// A time of day to the second.
pub open spec fn valid_time(h: int, mi: int, s: int) -> bool {
    0 <= h < 24 && 0 <= mi < 60 && 0 <= s < 60
}

/// The decimal digit `d`.
pub open spec fn digit(d: int) -> char {
    (48 + d) as char
}

/// `n` in two decimal digits, zero-padded.
pub open spec fn pad2(n: int) -> Seq<char> {
    seq![digit(n / 10), digit(n % 10)]
}

/// `n` in four decimal digits, zero-padded.
pub open spec fn pad4(n: int) -> Seq<char> {
    seq![digit(n / 1000), digit((n / 100) % 10), digit((n / 10) % 10), digit(n % 10)]
}

/// `HH:MM:SS`.
pub open spec fn hms(h: int, mi: int, s: int) -> Seq<char> {
    pad2(h) + seq![':'] + pad2(mi) + seq![':'] + pad2(s)
}

/// The clock's date pattern: abbreviated weekday, abbreviated month, day.
pub open spec fn date_pattern() -> Seq<char> {
    seq!['%', 'a', ' ', '%', 'b', ' ', '%', 'd']
}

/// The clock's time pattern: hours, minutes, seconds.
pub open spec fn time_pattern() -> Seq<char> {
    seq!['%', 'H', ':', '%', 'M', ':', '%', 'S']
}

/// The clock's short time pattern: hours and minutes.
pub open spec fn short_time_pattern() -> Seq<char> {
    seq!['%', 'H', ':', '%', 'M']
}

/// `HH:MM`.
pub open spec fn hm(h: int, mi: int) -> Seq<char> {
    pad2(h) + seq![':'] + pad2(mi)
}

/// The log's timestamp pattern.
pub open spec fn timestamp_pattern() -> Seq<char> {
    seq!['%', 'Y', '-', '%', 'm', '-', '%', 'd', ' ', '%', 'H', ':', '%', 'M', ':', '%', 'S']
}

/// What chrono's `NaiveDateTime::format(pattern).to_string()` gives for the
/// date and time given by its fields.
pub uninterp spec fn chrono_formatted(
    year: int,
    month: int,
    day: int,
    hour: int,
    minute: int,
    second: int,
    pattern: Seq<char>,
) -> Seq<char>;

/// The date and time exist.
pub open spec fn exists_at(year: i32, month: u32, day: u32, hour: u32, minute: u32, second: u32) -> bool {
    valid_date(year as int, month as int, day as int) && valid_time(hour as int, minute as int, second as int)
}

/// The shape of a `%a %b %d` text: three letters, a space, three letters, a
/// space, the two-digit day.
pub open spec fn date_shape(s: Seq<char>, day: u32) -> bool {
    s.len() == 10 && s[3] == ' ' && s[7] == ' ' && s.subrange(8, 10) == pad2(day as int)
}

/// `YYYY-MM-DD HH:MM:SS`.
pub open spec fn timestamp_text(year: i32, month: u32, day: u32, hour: u32, minute: u32, second: u32) -> Seq<char> {
    pad4(year as int) + seq!['-'] + pad2(month as int) + seq!['-'] + pad2(day as int) + seq![' '] + hms(hour as int, minute as int, second as int)
}

/// Builds the date and time with chrono's `NaiveDate::from_ymd_opt` and
/// `NaiveDate::and_hms_opt`, and formats it with `NaiveDateTime::format`.
/// Claimed: a result exactly for existing dates and times (chrono documents
/// `None` for a day that does not exist, an invalid month or day, a year out
/// of its range, and an hour, minute or second out of range); the text is
/// chrono's for these fields and pattern; per chrono's table of specifiers,
/// `%H:%M:%S` and `%H:%M` give two zero-padded digits each, `%a %b %d` gives three
/// letters, a space, three letters, a space and the two-digit day, and
/// `%Y-%m-%d %H:%M:%S` gives a four-digit year for years 0 to 9999. The
/// weekday and month names themselves are left to the name.
/// Only the four patterns above are accepted: an invalid pattern makes the
/// formatting fail, which `to_string` turns into a panic.
#[verifier::external_body]
fn format_date_time(
    year: i32,
    month: u32,
    day: u32,
    hour: u32,
    minute: u32,
    second: u32,
    pattern: &str,
) -> (r: Option<String>)
    requires
        pattern@ == date_pattern() || pattern@ == time_pattern() || pattern@ == short_time_pattern() || pattern@ == timestamp_pattern(),
    ensures
        r is Some <==> exists_at(year, month, day, hour, minute, second),
        r matches Some(s) ==> s@ == chrono_formatted(year as int, month as int, day as int, hour as int, minute as int, second as int, pattern@),
        pattern@ == time_pattern() && r is Some ==> r->0@ == hms(hour as int, minute as int, second as int),
        pattern@ == short_time_pattern() && r is Some ==> r->0@ == hm(hour as int, minute as int),
        pattern@ == date_pattern() && r is Some ==> date_shape(r->0@, day),
        pattern@ == timestamp_pattern() && 0 <= year <= 9999 && r is Some ==> r->0@ == timestamp_text(year, month, day, hour, minute, second),
{
    match NaiveDate::from_ymd_opt(year, month, day) {
        Some(date) => match date.and_hms_opt(hour, minute, second) {
            Some(date_time) => Some(date_time.format(pattern).to_string()),
            None => None,
        },
        None => None,
    }
}

/// The clock's time text: `HH:MM:SS`, or `HH:MM` without seconds.
pub open spec fn time_text(hour: u32, minute: u32, second: u32, with_seconds: bool) -> Seq<char> {
    if with_seconds {
        hms(hour as int, minute as int, second as int)
    } else {
        hm(hour as int, minute as int)
    }
}

/// The clock's two labels, the date (`Mon Jan 06`) and the time
/// (`09:05:03`, or `09:05` without seconds), for a local date and time;
/// `None` when no such date and time exist.
pub fn clock_labels(year: i32, month: u32, day: u32, hour: u32, minute: u32, second: u32, with_seconds: bool) -> (r: Option<(String, String)>)
    ensures
        r is Some <==> exists_at(year, month, day, hour, minute, second),
        r matches Some((d, t)) ==> d@ == chrono_formatted(year as int, month as int, day as int, hour as int, minute as int, second as int, date_pattern()),
        r matches Some((d, t)) ==> date_shape(d@, day),
        r matches Some((d, t)) ==> t@ == time_text(hour, minute, second, with_seconds),
{
    let date_fmt = "%a %b %d";
    let time_fmt = "%H:%M:%S";
    let short_fmt = "%H:%M";
    proof {
        reveal_strlit("%a %b %d");
        reveal_strlit("%H:%M:%S");
        reveal_strlit("%H:%M");
        assert(date_fmt@ =~= date_pattern());
        assert(time_fmt@ =~= time_pattern());
        assert(short_fmt@ =~= short_time_pattern());
    }
    let date = format_date_time(year, month, day, hour, minute, second, date_fmt);
    let time = if with_seconds {
        format_date_time(year, month, day, hour, minute, second, time_fmt)
    } else {
        format_date_time(year, month, day, hour, minute, second, short_fmt)
    };
    match (date, time) {
        (Some(d), Some(t)) => Some((d, t)),
        _ => None,
    }
}

/// The log's timestamp (`2025-01-06 09:05:03`) for a local date and time;
/// `None` when no such date and time exist.
pub fn log_timestamp(year: i32, month: u32, day: u32, hour: u32, minute: u32, second: u32) -> (r: Option<String>)
    ensures
        r is Some <==> exists_at(year, month, day, hour, minute, second),
        r matches Some(s) ==> s@ == chrono_formatted(year as int, month as int, day as int, hour as int, minute as int, second as int, timestamp_pattern()),
        0 <= year <= 9999 && r is Some ==> r->0@ == timestamp_text(year, month, day, hour, minute, second),
{
    let stamp_fmt = "%Y-%m-%d %H:%M:%S";
    proof {
        reveal_strlit("%Y-%m-%d %H:%M:%S");
        assert(stamp_fmt@ =~= timestamp_pattern());
    }
    format_date_time(year, month, day, hour, minute, second, stamp_fmt)
}

} // verus!
