//! Calendar dates.

use chrono::{Datelike, NaiveDate};
use vstd::prelude::*;

use crate::text::{decimal_digit, decimal_digits};

verus! {

/// The first year that a date can fall in.
pub const FIRST_YEAR: i32 = -262143;

/// The last year that a date can fall in.
pub const LAST_YEAR: i32 = 262142;

/// Whether `year` has a twenty-ninth of February.
pub open spec fn is_leap_year(year: int) -> bool {
    year % 4 == 0 && (year % 100 != 0 || year % 400 == 0)
}

/// How many days the month has.
pub open spec fn days_in_month(year: int, month: int) -> int {
    if month == 2 {
        if is_leap_year(year) {
            29
        } else {
            28
        }
    } else if month == 4 || month == 6 || month == 9 || month == 11 {
        30
    } else {
        31
    }
}

/// A year, a month and a day of the proleptic Gregorian calendar.
pub ghost struct DateView {
    pub year: int,
    pub month: int,
    pub day: int,
}

impl DateView {
    /// Whether the calendar has this day, in a year that a date can fall in.
    pub open spec fn valid(self) -> bool {
        &&& FIRST_YEAR <= self.year <= LAST_YEAR
        &&& 1 <= self.month <= 12
        &&& 1 <= self.day <= days_in_month(self.year, self.month)
    }

    /// The date in the form `YYYY-MM-DD`; a year that does not have four
    /// digits carries a sign.
    pub open spec fn text(self) -> Seq<char> {
        year_text(self.year) + seq!['-'] + two_digits(self.month) + seq!['-'] + two_digits(self.day)
    }
}

/// A number below a hundred in two digits.
pub open spec fn two_digits(n: int) -> Seq<char> {
    seq![decimal_digit(n / 10), decimal_digit(n % 10)]
}

/// A number in at least four digits.
pub open spec fn four_digits(n: nat) -> Seq<char> {
    if n < 10000 {
        two_digits((n / 100) as int) + two_digits((n % 100) as int)
    } else {
        decimal_digits(n)
    }
}

/// A year in at least four digits, with a sign unless it has just four.
pub open spec fn year_text(year: int) -> Seq<char> {
    if year < 0 {
        seq!['-'] + four_digits((-year) as nat)
    } else if year < 10000 {
        four_digits(year as nat)
    } else {
        seq!['+'] + four_digits(year as nat)
    }
}

/// What `NaiveDate`'s parser reads from a text, if it takes it for a date.
pub uninterp spec fn date_reading(text: Seq<char>) -> Option<DateView>;

/// A calendar date.
#[derive(Clone, Copy, Debug, PartialEq, Eq, Hash, PartialOrd, Ord, Structural)]
pub struct Date {
    year: i32,
    month: u32,
    day: u32,
}

impl View for Date {
    type V = DateView;

    closed spec fn view(&self) -> DateView {
        DateView { year: self.year as int, month: self.month as int, day: self.day as int }
    }
}

impl Date {
    #[verifier::type_invariant]
    spec fn well_formed(self) -> bool {
        self@.valid()
    }

    /// The date with this year, month and day, if the calendar has it.
    pub fn from_ymd_opt(year: i32, month: u32, day: u32) -> (date: Option<Date>)
        ensures
            ({
                let asked = DateView { year: year as int, month: month as int, day: day as int };
                match date {
                    Some(date) => asked.valid() && date@ == asked,
                    None => !asked.valid(),
                }
            }),
    {
        if year < FIRST_YEAR || year > LAST_YEAR || month < 1 || month > 12 {
            return None;
        }
        let wide: i64 = (year as i64) + 400_000;
        let leap = wide % 4 == 0 && (wide % 100 != 0 || wide % 400 == 0);
        assert(leap == is_leap_year(year as int));
        let days: u32 = if month == 2 {
            if leap {
                29
            } else {
                28
            }
        } else if month == 4 || month == 6 || month == 9 || month == 11 {
            30
        } else {
            31
        };
        if day < 1 || day > days {
            return None;
        }
        Some(Date { year, month, day })
    }

    /// The year.
    pub fn year(&self) -> (year: i32)
        ensures
            year == self@.year,
    {
        self.year
    }

    /// The month, from one.
    pub fn month(&self) -> (month: u32)
        ensures
            month == self@.month,
    {
        self.month
    }

    /// The day of the month, from one.
    pub fn day(&self) -> (day: u32)
        ensures
            day == self@.day,
    {
        self.day
    }

    /// Whether the two dates are the same.
    pub fn same(&self, other: &Date) -> (same: bool)
        ensures
            same == (self@ == other@),
    {
        self.year == other.year && self.month == other.month && self.day == other.day
    }

    /// The date in the form `YYYY-MM-DD`.
    pub fn to_string(&self) -> (text: String)
        ensures
            text@ == self@.text(),
            date_reading(text@) == Some(self@),
    {
        proof {
            use_type_invariant(self);
        }
        print_date(self.year, self.month, self.day)
    }

    /// The date that the text stands for, if it stands for one.
    pub fn parse(text: &str) -> (date: Option<Date>)
        ensures
            crate::text::view_of(date) == date_reading(text@),
    {
        match read_date(text) {
            Some((year, month, day)) => Date::from_ymd_opt(year, month, day),
            None => None,
        }
    }
}

/// A year, a month and a day as a date.
pub open spec fn date_of(parts: (i32, u32, u32)) -> DateView {
    DateView { year: parts.0 as int, month: parts.1 as int, day: parts.2 as int }
}

/// What was read, as a date.
pub open spec fn date_read(parts: Option<(i32, u32, u32)>) -> Option<DateView> {
    match parts {
        Some(parts) => Some(date_of(parts)),
        None => None,
    }
}

/// `NaiveDate` printed: `YYYY-MM-DD`, with a sign where the year does not have
/// four digits. `NaiveDate`'s parser reads that text as the same date.
#[verifier::external_body]
fn print_date(year: i32, month: u32, day: u32) -> (text: String)
    requires
        date_of((year, month, day)).valid(),
    ensures
        text@ == date_of((year, month, day)).text(),
        date_reading(text@) == Some(date_of((year, month, day))),
{
    NaiveDate::from_ymd_opt(year, month, day).unwrap().to_string()
}

/// `str::parse` to a `NaiveDate`: a date that the calendar has, or nothing.
/// Which texts it takes for dates has a name only.
#[verifier::external_body]
fn read_date(text: &str) -> (parts: Option<(i32, u32, u32)>)
    ensures
        date_read(parts) == date_reading(text@),
        parts matches Some(found) ==> date_of(found).valid(),
{
    let date: NaiveDate = text.parse().ok()?;
    Some((date.year(), date.month(), date.day()))
}

} // verus!
