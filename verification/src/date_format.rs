//! Date presentation used in generated customer documents.
use crate::date::CalendarDate;
use crate::text::{push_char, str_equals, append_str};
use crate::tokens::{decimal, decimal2, push_decimal, push_decimal2, push_signed, signed_decimal};
use vstd::prelude::*;

verus! {

/// Date presentation used in generated customer documents.
#[derive(Clone, Copy, Debug, PartialEq, Eq, Structural)]
pub enum ReportDateFormat {
    DayMonthNameYear,
    DayMonthYear,
    Iso,
}

impl Default for ReportDateFormat {
    fn default() -> (r: Self)
        ensures
            r == ReportDateFormat::DayMonthNameYear,
    {
        ReportDateFormat::DayMonthNameYear
    }
}

pub open spec fn label_text(f: ReportDateFormat) -> Seq<char> {
    match f {
        ReportDateFormat::DayMonthNameYear => seq!['1', '9', ' ', 'A', 'u', 'g', ' ', '2', '0', '2', '6'],
        ReportDateFormat::DayMonthYear => seq!['1', '9', '/', '0', '8', '/', '2', '0', '2', '6'],
        ReportDateFormat::Iso => seq!['2', '0', '2', '6', '-', '0', '8', '-', '1', '9'],
    }
}

pub open spec fn storage_text(f: ReportDateFormat) -> Seq<char> {
    match f {
        ReportDateFormat::DayMonthNameYear => seq![
            'd', 'a', 'y', '-', 'm', 'o', 'n', 't', 'h', '-', 'n', 'a', 'm', 'e', '-', 'y', 'e', 'a', 'r',
        ],
        ReportDateFormat::DayMonthYear => seq![
            'd', 'a', 'y', '-', 'm', 'o', 'n', 't', 'h', '-', 'y', 'e', 'a', 'r',
        ],
        ReportDateFormat::Iso => seq!['i', 's', 'o'],
    }
}

/// The format whose stored name is `value`, if any.
pub open spec fn format_named(value: Seq<char>) -> Option<ReportDateFormat> {
    if value == storage_text(ReportDateFormat::DayMonthNameYear) {
        Some(ReportDateFormat::DayMonthNameYear)
    } else if value == storage_text(ReportDateFormat::DayMonthYear) {
        Some(ReportDateFormat::DayMonthYear)
    } else if value == storage_text(ReportDateFormat::Iso) {
        Some(ReportDateFormat::Iso)
    } else {
        None
    }
}

/// Three-letter English month name for months 1 to 12.
pub open spec fn month_abbreviation(month: int) -> Seq<char> {
    if month == 1 {
        seq!['J', 'a', 'n']
    } else if month == 2 {
        seq!['F', 'e', 'b']
    } else if month == 3 {
        seq!['M', 'a', 'r']
    } else if month == 4 {
        seq!['A', 'p', 'r']
    } else if month == 5 {
        seq!['M', 'a', 'y']
    } else if month == 6 {
        seq!['J', 'u', 'n']
    } else if month == 7 {
        seq!['J', 'u', 'l']
    } else if month == 8 {
        seq!['A', 'u', 'g']
    } else if month == 9 {
        seq!['S', 'e', 'p']
    } else if month == 10 {
        seq!['O', 'c', 't']
    } else if month == 11 {
        seq!['N', 'o', 'v']
    } else {
        seq!['D', 'e', 'c']
    }
}

/// At least four digits, padded with leading zeros.
pub open spec fn decimal4(n: nat) -> Seq<char> {
    if n < 10 {
        seq!['0', '0', '0'] + decimal(n)
    } else if n < 100 {
        seq!['0', '0'] + decimal(n)
    } else if n < 1000 {
        seq!['0'] + decimal(n)
    } else {
        decimal(n)
    }
}

/// The `Display` form of a `time::Date`: `YYYY-MM-DD`, with a `-` before a negative year.
pub open spec fn iso_text(d: (int, int, int)) -> Seq<char> {
    let year = if d.0 < 0 {
        seq!['-'] + decimal4((-d.0) as nat)
    } else {
        decimal4(d.0 as nat)
    };
    year + seq!['-'] + decimal2(d.1 as nat) + seq!['-'] + decimal2(d.2 as nat)
}

pub open spec fn formatted_date(f: ReportDateFormat, d: (int, int, int)) -> Seq<char> {
    match f {
        ReportDateFormat::DayMonthNameYear => decimal2(d.2 as nat) + seq![' '] + month_abbreviation(
            d.1,
        ) + seq![' '] + signed_decimal(d.0),
        ReportDateFormat::DayMonthYear => decimal2(d.2 as nat) + seq!['/'] + decimal2(d.1 as nat)
            + seq!['/'] + signed_decimal(d.0),
        ReportDateFormat::Iso => iso_text(d),
    }
}

fn month_name(month: u8) -> (r: &'static str)
    ensures
        r@ == month_abbreviation(month as int),
{
    proof {
        reveal_strlit("Jan");
        reveal_strlit("Feb");
        reveal_strlit("Mar");
        reveal_strlit("Apr");
        reveal_strlit("May");
        reveal_strlit("Jun");
        reveal_strlit("Jul");
        reveal_strlit("Aug");
        reveal_strlit("Sep");
        reveal_strlit("Oct");
        reveal_strlit("Nov");
        reveal_strlit("Dec");
    }
    if month == 1 {
        "Jan"
    } else if month == 2 {
        "Feb"
    } else if month == 3 {
        "Mar"
    } else if month == 4 {
        "Apr"
    } else if month == 5 {
        "May"
    } else if month == 6 {
        "Jun"
    } else if month == 7 {
        "Jul"
    } else if month == 8 {
        "Aug"
    } else if month == 9 {
        "Sep"
    } else if month == 10 {
        "Oct"
    } else if month == 11 {
        "Nov"
    } else {
        "Dec"
    }
}

fn push_decimal4(out: &mut String, n: u64)
    ensures
        final(out)@ == old(out)@ + decimal4(n as nat),
{
    if n < 10 {
        push_char(out, '0');
        push_char(out, '0');
        push_char(out, '0');
    } else if n < 100 {
        push_char(out, '0');
        push_char(out, '0');
    } else if n < 1000 {
        push_char(out, '0');
    }
    push_decimal(out, n);
    assert(out@ =~= old(out)@ + decimal4(n as nat));
}

/// The `Display` form of a date (`YYYY-MM-DD`).
pub fn iso_string(date: &CalendarDate) -> (r: String)
    ensures
        r@ == iso_text(date@),
{
    let year = date.year();
    let mut out = String::new();
    if year < 0 {
        push_char(&mut out, '-');
        push_decimal4(&mut out, (-year) as u64);
    } else {
        push_decimal4(&mut out, year as u64);
    }
    push_char(&mut out, '-');
    push_decimal2(&mut out, date.month() as u64);
    push_char(&mut out, '-');
    push_decimal2(&mut out, date.day() as u64);
    assert(out@ =~= iso_text(date@));
    out
}

impl ReportDateFormat {
    pub const ALL: [ReportDateFormat; 3] = [
        ReportDateFormat::DayMonthNameYear,
        ReportDateFormat::DayMonthYear,
        ReportDateFormat::Iso,
    ];

    /// An example date in this format, used as the format's name.
    pub fn label(self) -> (r: &'static str)
        ensures
            r@ == label_text(self),
    {
        match self {
            ReportDateFormat::DayMonthNameYear => {
                proof {
                    reveal_strlit("19 Aug 2026");
                }
                "19 Aug 2026"
            },
            ReportDateFormat::DayMonthYear => {
                proof {
                    reveal_strlit("19/08/2026");
                }
                "19/08/2026"
            },
            ReportDateFormat::Iso => {
                proof {
                    reveal_strlit("2026-08-19");
                }
                "2026-08-19"
            },
        }
    }

    pub fn format(self, date: &CalendarDate) -> (r: String)
        ensures
            r@ == formatted_date(self, date@),
    {
        match self {
            ReportDateFormat::DayMonthNameYear => {
                let mut out = String::new();
                push_decimal2(&mut out, date.day() as u64);
                push_char(&mut out, ' ');
                append_str(&mut out, month_name(date.month()));
                push_char(&mut out, ' ');
                push_signed(&mut out, date.year() as i64);
                assert(out@ =~= formatted_date(self, date@));
                out
            },
            ReportDateFormat::DayMonthYear => {
                let mut out = String::new();
                push_decimal2(&mut out, date.day() as u64);
                push_char(&mut out, '/');
                push_decimal2(&mut out, date.month() as u64);
                push_char(&mut out, '/');
                push_signed(&mut out, date.year() as i64);
                assert(out@ =~= formatted_date(self, date@));
                out
            },
            ReportDateFormat::Iso => iso_string(date),
        }
    }

    /// The stable name under which the format is stored.
    pub fn storage_value(self) -> (r: &'static str)
        ensures
            r@ == storage_text(self),
    {
        match self {
            ReportDateFormat::DayMonthNameYear => {
                proof {
                    reveal_strlit("day-month-name-year");
                }
                "day-month-name-year"
            },
            ReportDateFormat::DayMonthYear => {
                proof {
                    reveal_strlit("day-month-year");
                }
                "day-month-year"
            },
            ReportDateFormat::Iso => {
                proof {
                    reveal_strlit("iso");
                }
                "iso"
            },
        }
    }

    pub fn from_storage_value(value: &str) -> (r: Option<Self>)
        ensures
            r == format_named(value@),
    {
        proof {
            reveal_strlit("day-month-name-year");
            reveal_strlit("day-month-year");
            reveal_strlit("iso");
            assert("day-month-name-year"@ =~= storage_text(ReportDateFormat::DayMonthNameYear));
            assert("day-month-year"@ =~= storage_text(ReportDateFormat::DayMonthYear));
            assert("iso"@ =~= storage_text(ReportDateFormat::Iso));
        }
        if str_equals(value, "day-month-name-year") {
            Some(ReportDateFormat::DayMonthNameYear)
        } else if str_equals(value, "day-month-year") {
            Some(ReportDateFormat::DayMonthYear)
        } else if str_equals(value, "iso") {
            Some(ReportDateFormat::Iso)
        } else {
            None
        }
    }
}

/// A format read back from its stored name is the format that was stored.
pub proof fn lemma_storage_round_trip(f: ReportDateFormat)
    ensures
        format_named(storage_text(f)) == Some(f),
{
}

/// The English month names cut to their first three letters, January first.
pub open spec fn english_month_abbreviations() -> Seq<Seq<char>> {
    seq![
        seq!['J', 'a', 'n'],
        seq!['F', 'e', 'b'],
        seq!['M', 'a', 'r'],
        seq!['A', 'p', 'r'],
        seq!['M', 'a', 'y'],
        seq!['J', 'u', 'n'],
        seq!['J', 'u', 'l'],
        seq!['A', 'u', 'g'],
        seq!['S', 'e', 'p'],
        seq!['O', 'c', 't'],
        seq!['N', 'o', 'v'],
        seq!['D', 'e', 'c'],
    ]
}

/// A date written as day, month name and year names its month `m` (1 to 12)
/// by the first three letters of the month's English name, between the
/// two-digit day and the year: June 15, 2026 is "15 Jun 2026".
pub proof fn lemma_month_names(year: int, month: int, day: int)
    requires
        1 <= month <= 12,
    ensures
        formatted_date(ReportDateFormat::DayMonthNameYear, (year, month, day)) == decimal2(day as nat)
            + seq![' '] + english_month_abbreviations()[month - 1] + seq![' '] + signed_decimal(year),
{
    let t = english_month_abbreviations();
    if month == 1 {
        assert(t[0] == seq!['J', 'a', 'n']);
    } else if month == 2 {
        assert(t[1] == seq!['F', 'e', 'b']);
    } else if month == 3 {
        assert(t[2] == seq!['M', 'a', 'r']);
    } else if month == 4 {
        assert(t[3] == seq!['A', 'p', 'r']);
    } else if month == 5 {
        assert(t[4] == seq!['M', 'a', 'y']);
    } else if month == 6 {
        assert(t[5] == seq!['J', 'u', 'n']);
    } else if month == 7 {
        assert(t[6] == seq!['J', 'u', 'l']);
    } else if month == 8 {
        assert(t[7] == seq!['A', 'u', 'g']);
    } else if month == 9 {
        assert(t[8] == seq!['S', 'e', 'p']);
    } else if month == 10 {
        assert(t[9] == seq!['O', 'c', 't']);
    } else if month == 11 {
        assert(t[10] == seq!['N', 'o', 'v']);
    } else {
        assert(t[11] == seq!['D', 'e', 'c']);
    }
}

} // verus!
