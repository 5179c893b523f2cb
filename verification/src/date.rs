//! Calendar dates and clock times of the proleptic Gregorian calendar, and the
//! calls into the `time` crate that shift, parse and timestamp them.
use crate::tokens::{all_digits, digits_value};
use vstd::prelude::*;

verus! {

pub open spec fn is_leap_year(year: int) -> bool {
    (year % 4 == 0 && year % 100 != 0) || year % 400 == 0
}

pub open spec fn days_in_month(year: int, month: int) -> int {
    if month == 2 {
        if is_leap_year(year) {
            29
        } else {
            28
        }
    } else if month == 4 || month == 6 || month == 9 || month == 11 {
        30
    } else {
        31
    }
}

/// The dates that `time::Date` can hold without its `large-dates` feature.
pub open spec fn valid_date(year: int, month: int, day: int) -> bool {
    &&& -9999 <= year <= 9999
    &&& 1 <= month <= 12
    &&& 1 <= day <= days_in_month(year, month)
}

/// A date as year, month (1 to 12) and day of the month.
#[derive(Clone, Copy, Debug, PartialEq, Eq)]
pub struct CalendarDate {
    pub(crate) year: i32,
    pub(crate) month: u8,
    pub(crate) day: u8,
}

impl View for CalendarDate {
    type V = (int, int, int);

    closed spec fn view(&self) -> (int, int, int) {
        (self.year as int, self.month as int, self.day as int)
    }
}

impl CalendarDate {
    #[verifier::type_invariant]
    pub closed spec fn is_valid(self) -> bool {
        valid_date(self.year as int, self.month as int, self.day as int)
    }

    pub(crate) fn note_valid(&self)
        ensures
            valid_date(self@.0, self@.1, self@.2),
    {
        proof {
            use_type_invariant(self);
        }
    }

    /// The date with the given year, month and day, when it exists
    /// (`time::Date::from_calendar_date`).
    pub fn from_calendar_date(year: i32, month: u8, day: u8) -> (r: Option<CalendarDate>)
        ensures
            r is Some == valid_date(year as int, month as int, day as int),
            r matches Some(d) ==> d@ == (year as int, month as int, day as int),
    {
        if year < -9999 || year > 9999 || month < 1 || month > 12 || day < 1 {
            return None;
        }
        let leap = (year % 4 == 0 && year % 100 != 0) || year % 400 == 0;
        let limit: u8 = if month == 2 {
            if leap {
                29
            } else {
                28
            }
        } else if month == 4 || month == 6 || month == 9 || month == 11 {
            30
        } else {
            31
        };
        if day > limit {
            return None;
        }
        Some(CalendarDate { year, month, day })
    }

    pub fn year(&self) -> (r: i32)
        ensures
            r == self@.0,
            -9999 <= r <= 9999,
    {
        proof {
            use_type_invariant(self);
        }
        self.year
    }

    pub fn month(&self) -> (r: u8)
        ensures
            r == self@.1,
            1 <= r <= 12,
    {
        proof {
            use_type_invariant(self);
        }
        self.month
    }

    pub fn day(&self) -> (r: u8)
        ensures
            r == self@.2,
            1 <= r <= 31,
    {
        proof {
            use_type_invariant(self);
        }
        self.day
    }
}

/// Two dates with the same year, month and day are the same date.
pub proof fn lemma_date_view_injective(a: CalendarDate, b: CalendarDate)
    requires
        a@ == b@,
    ensures
        a == b,
{
}

pub open spec fn date_view_opt(d: Option<CalendarDate>) -> Option<(int, int, int)> {
    match d {
        Some(x) => Some(x@),
        None => None,
    }
}

/// Chronological order of two dates.
pub open spec fn date_before(a: (int, int, int), b: (int, int, int)) -> bool {
    ||| a.0 < b.0
    ||| (a.0 == b.0 && a.1 < b.1)
    ||| (a.0 == b.0 && a.1 == b.1 && a.2 < b.2)
}

pub open spec fn date_le(a: (int, int, int), b: (int, int, int)) -> bool {
    date_before(a, b) || a == b
}

pub fn date_is_before(a: &CalendarDate, b: &CalendarDate) -> (r: bool)
    ensures
        r == date_before(a@, b@),
{
    a.year < b.year || (a.year == b.year && a.month < b.month) || (a.year == b.year && a.month
        == b.month && a.day < b.day)
}

/// A time of day.
#[derive(Clone, Copy, Debug, PartialEq, Eq)]
pub struct ClockTime {
    pub(crate) hour: u8,
    pub(crate) minute: u8,
    pub(crate) second: u8,
}

impl View for ClockTime {
    type V = (int, int, int);

    closed spec fn view(&self) -> (int, int, int) {
        (self.hour as int, self.minute as int, self.second as int)
    }
}

pub open spec fn valid_time(hour: int, minute: int, second: int) -> bool {
    0 <= hour < 24 && 0 <= minute < 60 && 0 <= second < 60
}

impl ClockTime {
    #[verifier::type_invariant]
    pub closed spec fn is_valid(self) -> bool {
        valid_time(self.hour as int, self.minute as int, self.second as int)
    }

    pub(crate) fn note_valid(&self)
        ensures
            valid_time(self@.0, self@.1, self@.2),
    {
        proof {
            use_type_invariant(self);
        }
    }

    /// The time with the given hour, minute and second, when it exists
    /// (`time::Time::from_hms`).
    pub fn from_hms(hour: u8, minute: u8, second: u8) -> (r: Option<ClockTime>)
        ensures
            r is Some == valid_time(hour as int, minute as int, second as int),
            r matches Some(t) ==> t@ == (hour as int, minute as int, second as int),
    {
        if hour < 24 && minute < 60 && second < 60 {
            Some(ClockTime { hour, minute, second })
        } else {
            None
        }
    }

    pub fn hour(&self) -> (r: u8)
        ensures
            r == self@.0,
            r < 24,
    {
        proof {
            use_type_invariant(self);
        }
        self.hour
    }

    pub fn minute(&self) -> (r: u8)
        ensures
            r == self@.1,
            r < 60,
    {
        proof {
            use_type_invariant(self);
        }
        self.minute
    }

    pub fn second(&self) -> (r: u8)
        ensures
            r == self@.2,
            r < 60,
    {
        proof {
            use_type_invariant(self);
        }
        self.second
    }
}

/// The largest day count for which `time::Duration::days` does not overflow.
pub open spec fn shiftable_days(days: int) -> bool {
    -106751991167300 <= days <= 106751991167300
}

/// Days from the start of the proleptic Gregorian calendar's year 1 to the
/// start of `year` (negative before it).
pub open spec fn days_before_year(year: int) -> int {
    let p = year - 1;
    365 * p + p / 4 - p / 100 + p / 400
}

/// Days of `year` before the first of `month`.
pub open spec fn days_before_month(year: int, month: int) -> int
    decreases month,
{
    if month <= 1 {
        0
    } else {
        days_before_month(year, month - 1) + days_in_month(year, month - 1)
    }
}

/// The running number of a day: one more for each following day.
pub open spec fn day_number(date: (int, int, int)) -> int {
    days_before_year(date.0) + days_before_month(date.0, date.1) + date.2
}

/// Whether `e` is a date of the supported years that is `days` days after
/// `date` (before it when `days` is negative).
pub open spec fn is_shifted(date: (int, int, int), days: int, e: (int, int, int)) -> bool {
    valid_date(e.0, e.1, e.2) && day_number(e) == day_number(date) + days
}

/// The date `days` days after `date`, when that day falls within the years
/// -9999 to 9999 (`None` otherwise).
pub open spec fn shifted_date(date: (int, int, int), days: int) -> Option<(int, int, int)> {
    if exists|e: (int, int, int)| #[trigger] is_shifted(date, days, e) {
        Some(choose|e: (int, int, int)| #[trigger] is_shifted(date, days, e))
    } else {
        None
    }
}

/// Adds a number of days to a date through `time::Date::checked_add`, which
/// gives the date that many days later, or `None` when it would leave the
/// supported years. `Duration::days` panics beyond the day count that
/// `requires` allows.
#[verifier::external_body]
pub(crate) fn shift_date(date: CalendarDate, days: i64) -> (r: Option<CalendarDate>)
    requires
        shiftable_days(days as int),
    ensures
        r matches Some(d) ==> shifted_date(date@, days as int) == Some(d@),
        r is None ==> shifted_date(date@, days as int) is None,
{
    let month = time::Month::try_from(date.month).unwrap();
    let start = time::Date::from_calendar_date(date.year, month, date.day).unwrap();
    start.checked_add(time::Duration::days(days)).map(
        |d| CalendarDate { year: d.year(), month: u8::from(d.month()), day: d.day() },
    )
}

/// The value of the two digits at `i` and `i + 1` of `s`.
pub open spec fn two_digits(s: Seq<char>, i: int) -> int {
    (s[i] as int - '0' as int) * 10 + (s[i + 1] as int - '0' as int)
}

/// What `time::Date::parse` reads with the description `[year]-[month]-[day]`:
/// an optional `+` or `-` sign, a four-digit year, `-`, a two-digit month,
/// `-`, a two-digit day, nothing after, and a date of the supported years.
pub open spec fn iso_parsed(text: Seq<char>) -> Option<(int, int, int)> {
    let signed = text.len() > 0 && (text[0] == '+' || text[0] == '-');
    let rest = if signed {
        text.drop_first()
    } else {
        text
    };
    let year = if signed && text[0] == '-' {
        -digits_value(rest.take(4))
    } else {
        digits_value(rest.take(4))
    };
    let month = two_digits(rest, 5);
    let day = two_digits(rest, 8);
    if rest.len() == 10 && all_digits(rest.take(4)) && rest[4] == '-' && rest[7] == '-'
        && all_digits(rest.subrange(5, 7)) && all_digits(rest.subrange(8, 10))
        && valid_date(year, month, day) {
        Some((year, month, day))
    } else {
        None
    }
}

/// Reads a `YYYY-MM-DD` date through `time::Date::parse`, which gives the
/// date `iso_parsed` describes, or `None` when it describes none.
#[verifier::external_body]
pub(crate) fn parse_iso_date(text: &str) -> (r: Option<CalendarDate>)
    ensures
        r matches Some(d) ==> iso_parsed(text@) == Some(d@),
        r is None ==> iso_parsed(text@) is None,
{
    let format = time::format_description::parse("[year]-[month]-[day]").unwrap();
    time::Date::parse(text, &format).ok().map(
        |d| CalendarDate { year: d.year(), month: u8::from(d.month()), day: d.day() },
    )
}

/// Whole days that an offset of `offset` seconds moves the UTC instant `time`
/// of some day by: the day carry of the local time of day.
pub open spec fn offset_day_carry(time: (int, int, int), offset: int) -> int {
    (time.0 * 3600 + time.1 * 60 + time.2 + offset) / 86400
}

/// Whether the UTC instant `date` `time`, seen at an offset of `offset`
/// seconds, still falls within the years -9999 to 9999.
pub open spec fn offset_stays_in_range(date: (int, int, int), time: (int, int, int), offset: int) -> bool {
    &&& !(date.0 == 9999 && date.1 == 12 && date.2 + offset_day_carry(time, offset) > 31)
    &&& !(date.0 == -9999 && date.1 == 1 && date.2 + offset_day_carry(time, offset) < 1)
}

/// The calendar date of the UTC instant `date` `time` at an offset of `offset`
/// seconds east of UTC, through `time::OffsetDateTime::to_offset` and `date`:
/// the local date-time is the instant moved by the offset, so its date is the
/// UTC date moved by the whole days that the local time of day carries over
/// (`shifted_date`, the calendar's day arithmetic). The zero offset, UTC
/// itself, which `to_offset` hands back as it is, leaves the date unchanged.
/// `to_offset` panics when the local date leaves the supported years, which
/// `requires` rules out.
#[verifier::external_body]
pub(crate) fn local_date_of(date: CalendarDate, time: ClockTime, offset: i32) -> (r: CalendarDate)
    requires
        -93599 <= offset <= 93599,
        offset_stays_in_range(date@, time@, offset as int),
    ensures
        shifted_date(date@, offset_day_carry(time@, offset as int)) == Some(r@),
        offset == 0 ==> r@ == date@,
{
    let month = time::Month::try_from(date.month).unwrap();
    let day = time::Date::from_calendar_date(date.year, month, date.day).unwrap();
    let clock = time::Time::from_hms(time.hour, time.minute, time.second).unwrap();
    let offset = time::UtcOffset::from_whole_seconds(offset).unwrap();
    let local = time::OffsetDateTime::new_utc(day, clock).to_offset(offset).date();
    CalendarDate { year: local.year(), month: u8::from(local.month()), day: local.day() }
}

#[verifier::external_type_specification]
#[verifier::external_body]
pub struct ExOffsetDateTime(time::OffsetDateTime);

/// `OffsetDateTime` is `Copy`: its `clone` returns the same value.
pub assume_specification[ <time::OffsetDateTime as Clone>::clone ](
    value: &time::OffsetDateTime,
) -> (r: time::OffsetDateTime)
    ensures
        r == *value,
;

/// The current UTC time (`time::OffsetDateTime::now_utc`). Nothing is claimed
/// of the value: it comes from the system clock.
#[verifier::external_body]
pub(crate) fn now_utc() -> time::OffsetDateTime {
    time::OffsetDateTime::now_utc()
}

} // verus!
