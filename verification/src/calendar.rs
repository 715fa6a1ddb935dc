//! Calendar dates of the proleptic Gregorian calendar, and instants within a day.

use vstd::prelude::*;

verus! {

/// Largest year magnitude that a key has digit positions for.
pub const MAX_YEAR_MAGNITUDE: i32 = 999_999;

/// Number of nanoseconds in one day.
pub const NANOS_PER_DAY: u64 = 86_400_000_000_000;

/// The mathematical model of a calendar date.
pub struct Ymd {
    pub year: int,
    pub month: int,
    pub day: int,
}

/// Leap years of the proleptic Gregorian calendar. Year 0 and year -4 are leap years.
pub open spec fn is_leap_year(year: int) -> bool {
    year % 4 == 0 && (year % 100 != 0 || year % 400 == 0)
}

/// Number of days of a month, for `1 <= month <= 12`.
pub open spec fn days_in_month(year: int, month: int) -> int {
    if month == 2 {
        if is_leap_year(year) {
            29
        } else {
            28
        }
    } else if month == 4 || month == 6 || month == 9 || month == 11 {
        30
    } else {
        31
    }
}

impl Ymd {
    /// The year has at most six digits, and the day exists in the calendar.
    pub open spec fn is_valid(self) -> bool {
        &&& -MAX_YEAR_MAGNITUDE <= self.year <= MAX_YEAR_MAGNITUDE
        &&& 1 <= self.month <= 12
        &&& 1 <= self.day <= days_in_month(self.year, self.month)
    }
}

/// Why a triple of numbers is not a calendar date.
#[derive(Clone, Copy, Debug, PartialEq, Eq, Structural)]
pub enum DateError {
    /// The year has more than six digits.
    YearOutOfRange,
    /// The month is not between 1 and 12.
    MonthOutOfRange,
    /// The month does not have this day.
    DayOutOfRange,
}

/// What [`CalendarDate::new`] returns for each triple of numbers.
pub open spec fn check_ymd(year: int, month: int, day: int) -> Result<Ymd, DateError> {
    if !(-MAX_YEAR_MAGNITUDE <= year <= MAX_YEAR_MAGNITUDE) {
        Err(DateError::YearOutOfRange)
    } else if !(1 <= month <= 12) {
        Err(DateError::MonthOutOfRange)
    } else if !(1 <= day <= days_in_month(year, month)) {
        Err(DateError::DayOutOfRange)
    } else {
        Ok(Ymd { year, month, day })
    }
}

/// A valid calendar date. Its year may be negative or have up to six digits.
#[derive(Clone, Copy, Debug, PartialEq, Eq, Structural)]
pub struct CalendarDate {
    year: i32,
    month: u32,
    day: u32,
}

impl View for CalendarDate {
    type V = Ymd;

    closed spec fn view(&self) -> Ymd {
        Ymd { year: self.year as int, month: self.month as int, day: self.day as int }
    }
}

/// The year, month and day that lie `days` days after a date of the calendar
/// (before it, where `days` is negative), as `chrono` counts them; `None`
/// where `chrono` has no such date.
pub uninterp spec fn chrono_shifted(year: i32, month: u32, day: u32, days: i64) -> Option<
    (i32, u32, u32),
>;

/// What [`CalendarDate::plus_days`] returns: the date that `chrono` counts
/// to, where there is one and it is a valid date.
pub open spec fn shifted_date(date: Ymd, days: i64) -> Option<Ymd> {
    match chrono_shifted(date.year as i32, date.month as u32, date.day as u32, days) {
        Some((year, month, day)) => match check_ymd(year as int, month as int, day as int) {
            Ok(shifted) => Some(shifted),
            Err(_) => None,
        },
        None => None,
    }
}

/// Calls `chrono::NaiveDate::checked_add_signed` on the date that
/// `NaiveDate::from_ymd_opt` makes of the three numbers, with the span that
/// `TimeDelta::try_days` makes of `days`, and takes the result apart again.
/// Each of the three returns `None` rather than panic. The result depends on
/// the four numbers alone.
#[verifier::external_body]
fn chrono_plus_days(year: i32, month: u32, day: u32, days: i64) -> (shifted: Option<
    (i32, u32, u32),
>)
    ensures
        shifted == chrono_shifted(year, month, day, days),
{
    let start = chrono::NaiveDate::from_ymd_opt(year, month, day)?;
    let end = start.checked_add_signed(chrono::TimeDelta::try_days(days)?)?;
    Some((chrono::Datelike::year(&end), chrono::Datelike::month(&end), chrono::Datelike::day(&end)))
}

fn leap_year(year: i32) -> (leap: bool)
    requires
        -MAX_YEAR_MAGNITUDE <= year <= MAX_YEAR_MAGNITUDE,
    ensures
        leap == is_leap_year(year as int),
{
    let magnitude: i32 = if year < 0 {
        -year
    } else {
        year
    };
    magnitude % 4 == 0 && (magnitude % 100 != 0 || magnitude % 400 == 0)
}

fn month_length(year: i32, month: u32) -> (days: u32)
    requires
        -MAX_YEAR_MAGNITUDE <= year <= MAX_YEAR_MAGNITUDE,
        1 <= month <= 12,
    ensures
        days == days_in_month(year as int, month as int),
{
    if month == 2 {
        if leap_year(year) {
            29
        } else {
            28
        }
    } else if month == 4 || month == 6 || month == 9 || month == 11 {
        30
    } else {
        31
    }
}

impl CalendarDate {
    #[verifier::type_invariant]
    spec fn well_formed(self) -> bool {
        self@.is_valid()
    }

    /// Makes a date from its three numbers, or says which of them is out of range.
    pub fn new(year: i32, month: u32, day: u32) -> (made: Result<CalendarDate, DateError>)
        ensures
            match made {
                Ok(date) => check_ymd(year as int, month as int, day as int) == Ok::<Ymd, DateError>(date@),
                Err(e) => check_ymd(year as int, month as int, day as int) == Err::<Ymd, DateError>(e),
            },
    {
        if year < -MAX_YEAR_MAGNITUDE || year > MAX_YEAR_MAGNITUDE {
            Err(DateError::YearOutOfRange)
        } else if month < 1 || month > 12 {
            Err(DateError::MonthOutOfRange)
        } else if day < 1 || day > month_length(year, month) {
            Err(DateError::DayOutOfRange)
        } else {
            Ok(CalendarDate { year, month, day })
        }
    }

    /// The date that lies `days` days after this one, or before it where
    /// `days` is negative. `None` where the count leaves the years that
    /// `chrono` or this type can hold.
    pub fn plus_days(&self, days: i64) -> (shifted: Option<CalendarDate>)
        ensures
            match shifted {
                Some(date) => shifted_date(self@, days) == Some(date@),
                None => shifted_date(self@, days).is_none(),
            },
    {
        match chrono_plus_days(self.year, self.month, self.day, days) {
            Some((year, month, day)) => match CalendarDate::new(year, month, day) {
                Ok(date) => Some(date),
                Err(_) => None,
            },
            None => None,
        }
    }

    /// The year. Every date in existence is valid.
    pub fn year(&self) -> (year: i32)
        ensures
            year == self@.year,
            self@.is_valid(),
    {
        proof {
            use_type_invariant(self);
        }
        self.year
    }

    /// The month, from 1 to 12.
    pub fn month(&self) -> (month: u32)
        ensures
            month == self@.month,
            self@.is_valid(),
    {
        proof {
            use_type_invariant(self);
        }
        self.month
    }

    /// The day of the month, from 1.
    pub fn day(&self) -> (day: u32)
        ensures
            day == self@.day,
            self@.is_valid(),
    {
        proof {
            use_type_invariant(self);
        }
        self.day
    }
}

/// An instant within a day: a date, and the nanoseconds since its midnight,
/// fewer than a day has.
#[derive(Clone, Copy, Debug, PartialEq, Eq, Structural)]
pub struct DayInstant {
    date: CalendarDate,
    nanos: u64,
}

impl View for DayInstant {
    type V = (Ymd, nat);

    closed spec fn view(&self) -> (Ymd, nat) {
        (self.date@, self.nanos as nat)
    }
}

impl DayInstant {
    #[verifier::type_invariant]
    spec fn well_formed(self) -> bool {
        self.nanos < NANOS_PER_DAY
    }

    /// The instant `nanos` nanoseconds after the midnight that `date` begins
    /// with, if it lies before the next midnight.
    pub fn new(date: CalendarDate, nanos: u64) -> (made: Option<DayInstant>)
        ensures
            nanos < NANOS_PER_DAY ==> made.is_some() && made.unwrap()@ == (date@, nanos as nat),
            nanos >= NANOS_PER_DAY ==> made.is_none(),
    {
        if nanos < NANOS_PER_DAY {
            Some(DayInstant { date, nanos })
        } else {
            None
        }
    }

    /// The day that the instant lies in.
    pub fn date(&self) -> (date: CalendarDate)
        ensures
            date@ == self@.0,
    {
        self.date
    }

    /// The nanoseconds from the day's midnight to the instant.
    pub fn nanos_since_midnight(&self) -> (nanos: u64)
        ensures
            nanos == self@.1,
            nanos < NANOS_PER_DAY,
    {
        proof {
            use_type_invariant(self);
        }
        self.nanos
    }
}

} // verus!
