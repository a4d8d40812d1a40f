//! What an export is aimed at: a leaderboard mode and a calendar date, which
//! together name the output file.

use vstd::prelude::*;
use vstd::string::StringExecFns;
use crate::decimal::digit;

verus! {

/// The two leaderboards of the service.
#[derive(Debug, Clone, Copy, PartialEq, Eq)]
pub enum Mode {
    /// The points gathered over all time.
    Alltime,
    /// The current top list.
    Top,
}

impl Mode {
    /// The word that stands for the mode in the request path and in the
    /// name of the output file.
    pub open spec fn word(self) -> Seq<char> {
        match self {
            Mode::Alltime => "alltime"@,
            Mode::Top => "top"@,
        }
    }

    pub fn suffix(&self) -> (word: &'static str)
        ensures
            word@ == self.word(),
    {
        match self {
            Mode::Alltime => "alltime",
            Mode::Top => "top",
        }
    }
}

/// Whether `year` has a 29th of February in the Gregorian calendar.
pub open spec fn is_leap_year(year: int) -> bool {
    year % 4 == 0 && (year % 100 != 0 || year % 400 == 0)
}

/// The number of days of a month; `month` counts from 1.
pub open spec fn days_in_month(year: int, month: int) -> int {
    if month == 2 {
        if is_leap_year(year) {
            29
        } else {
            28
        }
    } else if month == 4 || month == 6 || month == 9 || month == 11 {
        30
    } else {
        31
    }
}

/// Whether the three numbers are a day of the Gregorian calendar in a year
/// that is written with four digits.
pub open spec fn is_calendar_date(year: int, month: int, day: int) -> bool {
    &&& 0 <= year <= 9999
    &&& 1 <= month <= 12
    &&& 1 <= day <= days_in_month(year, month)
}

/// A number below 100 in two digits.
pub open spec fn two_digits(n: int) -> Seq<char> {
    seq![digit(n / 10), digit(n % 10)]
}

/// A number below 10000 in four digits.
pub open spec fn four_digits(n: int) -> Seq<char> {
    seq![digit(n / 1000), digit((n / 100) % 10), digit((n / 10) % 10), digit(n % 10)]
}

/// A date as day, month and year with hyphens between: `DD-MM-YYYY`.
pub open spec fn date_text(year: int, month: int, day: int) -> Seq<char> {
    two_digits(day) + seq!['-'] + two_digits(month) + seq!['-'] + four_digits(year)
}

/// Makes the date with `chrono::NaiveDate::from_ymd_opt` and writes it
/// with `chrono::NaiveDate::format` and the pattern `%d-%m-%Y`.
///
/// Trusted, as chrono documents it: the three numbers give a date exactly
/// when they are a day of the proleptic Gregorian calendar, and `%d`, `%m`
/// and `%Y` write the day and the month zero-padded to two digits and a year
/// from 0 to 9999 zero-padded to four.
#[verifier::external_body]
fn day_month_year(year: i32, month: u32, day: u32) -> (text: Option<String>)
    requires
        0 <= year <= 9999,
    ensures
        text is Some <==> is_calendar_date(year as int, month as int, day as int),
        text matches Some(t) ==> t@ == date_text(year as int, month as int, day as int),
{
    let date = chrono::NaiveDate::from_ymd_opt(year, month, day)?;
    Some(date.format("%d-%m-%Y").to_string())
}

/// What a [`CalendarDate`] stands for.
pub struct DateView {
    pub year: int,
    pub month: int,
    pub day: int,
}

/// A day of the Gregorian calendar in the years 0 to 9999.
#[derive(Debug, Clone, Copy, PartialEq, Eq)]
pub struct CalendarDate {
    year: u16,
    month: u8,
    day: u8,
}

impl View for CalendarDate {
    type V = DateView;

    closed spec fn view(&self) -> DateView {
        DateView { year: self.year as int, month: self.month as int, day: self.day as int }
    }
}

impl CalendarDate {
    #[verifier::type_invariant]
    spec fn is_a_date(self) -> bool {
        is_calendar_date(self.year as int, self.month as int, self.day as int)
    }

    /// The date of the given year, month and day, where there is such a day.
    pub fn new(year: u16, month: u8, day: u8) -> (date: Option<CalendarDate>)
        ensures
            date is Some <==> is_calendar_date(year as int, month as int, day as int),
            date matches Some(d) ==> d@ == (DateView {
                year: year as int,
                month: month as int,
                day: day as int,
            }),
    {
        if year > 9999 || month < 1 || month > 12 || day < 1 {
            return None;
        }
        let leap = year % 4 == 0 && (year % 100 != 0 || year % 400 == 0);
        let days: u8 = if month == 2 {
            if leap {
                29
            } else {
                28
            }
        } else if month == 4 || month == 6 || month == 9 || month == 11 {
            30
        } else {
            31
        };
        if day > days {
            None
        } else {
            Some(CalendarDate { year, month, day })
        }
    }

    /// The date written as `DD-MM-YYYY`.
    pub fn text(&self) -> (text: String)
        ensures
            text@ == date_text(self@.year, self@.month, self@.day),
            is_calendar_date(self@.year, self@.month, self@.day),
    {
        proof {
            use_type_invariant(self);
        }
        let text = day_month_year(self.year as i32, self.month as u32, self.day as u32);
        text.unwrap()
    }
}

/// The file name of an export: the date, the mode's word and `points.csv`,
/// with hyphens between.
pub open spec fn file_name_text(date: DateView, mode: Mode) -> Seq<char> {
    date_text(date.year, date.month, date.day) + "-"@ + mode.word() + "-points.csv"@
}

/// The identity of one export.
#[derive(Debug, Clone, Copy, PartialEq, Eq)]
pub struct ExportTarget {
    pub mode: Mode,
    pub date: CalendarDate,
}

impl ExportTarget {
    pub fn new(mode: Mode, date: CalendarDate) -> (target: ExportTarget)
        ensures
            target.mode == mode,
            target.date == date,
    {
        ExportTarget { mode, date }
    }

    /// The name of the file that the export writes.
    pub fn file_name(&self) -> (name: String)
        ensures
            name@ == file_name_text(self.date@, self.mode),
    {
        let mut name = self.date.text();
        name.append("-");
        name.append(self.mode.suffix());
        name.append("-points.csv");
        name
    }
}

} // verus!
