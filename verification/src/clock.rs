//! Points in time as they are shown to the user.

use vstd::prelude::*;

use chrono::{DateTime, Datelike, Local, NaiveDate, Timelike};

use crate::line::CompactText;
use crate::text::{decimal, digit};

verus! {

/// A minute of a day, in local time.
#[derive(Clone, Copy, Debug)]
pub struct Stamp {
    pub year: i32,
    pub month: u32,
    pub day: u32,
    pub hour: u32,
    pub minute: u32,
}

/// Whether a year has a 29th of February.
pub open spec fn leap_year(year: int) -> bool {
    year % 4 == 0 && (year % 100 != 0 || year % 400 == 0)
}

/// The number of days of a month.
pub open spec fn days_in_month(year: int, month: int) -> int {
    if month == 2 {
        if leap_year(year) {
            29
        } else {
            28
        }
    } else if month == 4 || month == 6 || month == 9 || month == 11 {
        30
    } else {
        31
    }
}

impl Stamp {
    /// Whether this is a minute of the calendar.
    pub open spec fn valid(self) -> bool {
        &&& -262143 <= self.year <= 262142
        &&& 1 <= self.month <= 12
        &&& 1 <= self.day <= days_in_month(self.year as int, self.month as int)
        &&& self.hour < 24
        &&& self.minute < 60
    }

    /// Whether both are minutes of the same day.
    pub open spec fn same_day(self, other: Stamp) -> bool {
        self.year == other.year && self.month == other.month && self.day == other.day
    }
}

/// Two decimal digits.
pub open spec fn two_digits(n: nat) -> Seq<char> {
    seq![digit(n / 10 % 10), digit(n % 10)]
}

/// At least four decimal digits.
pub open spec fn four_digits(n: nat) -> Seq<char> {
    if n < 10 {
        "000"@ + decimal(n)
    } else if n < 100 {
        "00"@ + decimal(n)
    } else if n < 1000 {
        "0"@ + decimal(n)
    } else {
        decimal(n)
    }
}

/// A year, with a sign where it does not have four digits.
pub open spec fn year_text(year: int) -> Seq<char> {
    if 0 <= year <= 9999 {
        four_digits(year as nat)
    } else if year < 0 {
        "-"@ + four_digits((-year) as nat)
    } else {
        "+"@ + four_digits(year as nat)
    }
}

/// The short English name of a month.
pub open spec fn month_name(month: int) -> Seq<char> {
    if month == 1 {
        "Jan"@
    } else if month == 2 {
        "Feb"@
    } else if month == 3 {
        "Mar"@
    } else if month == 4 {
        "Apr"@
    } else if month == 5 {
        "May"@
    } else if month == 6 {
        "Jun"@
    } else if month == 7 {
        "Jul"@
    } else if month == 8 {
        "Aug"@
    } else if month == 9 {
        "Sep"@
    } else if month == 10 {
        "Oct"@
    } else if month == 11 {
        "Nov"@
    } else {
        "Dec"@
    }
}

/// The time of day.
pub open spec fn clock_text(s: Stamp) -> Seq<char> {
    two_digits(s.hour as nat) + ":"@ + two_digits(s.minute as nat)
}

/// Month, day and time of day.
pub open spec fn day_text(s: Stamp) -> Seq<char> {
    month_name(s.month as int) + " "@ + two_digits(s.day as nat) + " "@ + clock_text(s)
}

/// Date and time of day.
pub open spec fn date_text(s: Stamp) -> Seq<char> {
    year_text(s.year as int) + "-"@ + two_digits(s.month as nat) + "-"@ + two_digits(s.day as nat)
        + " "@ + clock_text(s)
}

/// A point in time as seen from another: the time alone on the same day, with
/// the day in the same year, else with the whole date.
pub open spec fn label_text(local: Stamp, now: Stamp) -> Seq<char> {
    if local.same_day(now) {
        clock_text(local)
    } else if local.year == now.year {
        day_text(local)
    } else {
        date_text(local)
    }
}

/// The days before the first of January of a year, counted from the first of
/// January of the year 1.
pub open spec fn days_before_year(year: int) -> int {
    let past = year - 1;
    365 * past + past / 4 - past / 100 + past / 400
}

/// The days of a year before a month.
pub open spec fn days_before_month(year: int, month: int) -> int
    decreases month,
{
    if month <= 1 {
        0
    } else {
        days_before_month(year, month - 1) + days_in_month(year, month - 1)
    }
}

/// The minutes from the start of the year 1970 to a minute of the calendar.
pub open spec fn minute_number(s: Stamp) -> int {
    let day = days_before_year(s.year as int) - days_before_year(1970) + days_before_month(
        s.year as int,
        s.month as int,
    ) + s.day - 1;
    (day * 24 + s.hour) * 60 + s.minute
}

/// Whether `s` is the minute of a point in time in some time zone: one that is
/// less than a day ahead of the universal time or behind it.
pub open spec fn minute_somewhere(seconds: int, s: Stamp) -> bool {
    s.valid() && exists|ahead: int|
        -86400 < ahead < 86400 && minute_number(s) == #[trigger] (seconds + ahead) / 60
}

/// The point in time that a text gives in the notation of RFC 3339, in seconds
/// from the start of the year 1970, if it is one.
pub uninterp spec fn rfc3339_seconds(text: Seq<char>) -> Option<i64>;

/// `DateTime::parse_from_rfc3339` of chrono, and the second it gives
/// (`DateTime::timestamp`): a function of the text. The notation has four digits
/// for the year and an offset of less than a day, which bounds the result.
#[verifier::external_body]
fn parse_seconds(text: &str) -> (r: Option<i64>)
    ensures
        r == rfc3339_seconds(text@),
        r matches Some(s) ==> -70_000_000_000 <= s <= 260_000_000_000,
{
    let parsed = DateTime::parse_from_rfc3339(text).ok()?;
    Some(parsed.timestamp())
}

/// `DateTime::with_timezone` of chrono, to the time zone of the machine. Which
/// zone that is, is left unsaid.
#[verifier::external_body]
fn local_minute(seconds: i64) -> (r: Stamp)
    requires
        -70_000_000_000 <= seconds <= 260_000_000_000,
    ensures
        minute_somewhere(seconds as int, r),
{
    let utc = DateTime::from_timestamp(seconds, 0).expect("a second of the calendar");
    let t = utc.with_timezone(&Local);
    let (year, month, day) = (t.year(), t.month(), t.day());
    Stamp { year, month, day, hour: t.hour(), minute: t.minute() }
}

/// `Local::now` of chrono: some minute of the calendar.
#[verifier::external_body]
fn local_now() -> (r: Stamp)
    ensures
        r.valid(),
{
    let t = Local::now();
    let (year, month, day) = (t.year(), t.month(), t.day());
    Stamp { year, month, day, hour: t.hour(), minute: t.minute() }
}

/// `NaiveDateTime::format` of chrono, for the three patterns in use.
#[verifier::external_body]
fn format_stamp(s: &Stamp, pattern: &str) -> (r: String)
    requires
        s.valid(),
        pattern@ == "%H:%M"@ || pattern@ == "%b %d %H:%M"@ || pattern@ == "%Y-%m-%d %H:%M"@,
    ensures
        pattern@ == "%H:%M"@ ==> r@ == clock_text(*s),
        pattern@ == "%b %d %H:%M"@ ==> r@ == day_text(*s),
        pattern@ == "%Y-%m-%d %H:%M"@ ==> r@ == date_text(*s),
{
    let day = NaiveDate::from_ymd_opt(s.year, s.month, s.day).expect("a day of the calendar");
    let time = day.and_hms_opt(s.hour, s.minute, 0).expect("a minute of a day");
    time.format(pattern).to_string()
}

/// A point in time as seen from another.
pub fn time_label(local: &Stamp, now: &Stamp) -> (r: CompactText)
    requires
        local.valid(),
    ensures
        r@ == label_text(*local, *now),
{
    let text = if local.year == now.year && local.month == now.month && local.day == now.day {
        format_stamp(local, "%H:%M")
    } else if local.year == now.year {
        format_stamp(local, "%b %d %H:%M")
    } else {
        format_stamp(local, "%Y-%m-%d %H:%M")
    };
    CompactText::new(text.as_str())
}

/// A point in time as seen from now. A text that is none is given back.
pub fn format_time(rfc3339: &str) -> (r: CompactText)
    ensures
        match rfc3339_seconds(rfc3339@) {
            None => r@ == rfc3339@,
            Some(seconds) => exists|local: Stamp, now: Stamp|
                minute_somewhere(seconds as int, local) && now.valid() && r@
                    == #[trigger] label_text(local, now),
        },
{
    match parse_seconds(rfc3339) {
        Some(seconds) => {
            let local = local_minute(seconds);
            let now = local_now();
            time_label(&local, &now)
        },
        None => CompactText::new(rfc3339),
    }
}

} // verus!
