//! Calendar dates of the proleptic Gregorian calendar, by year and day of year.

use vstd::prelude::*;

verus! {

/// The earliest year a [`CalendarDate`] can lie in.
pub const MIN_YEAR: i32 = -9999;

/// The latest year a [`CalendarDate`] can lie in.
pub const MAX_YEAR: i32 = 9999;

/// Whether `year` is a leap year of the proleptic Gregorian calendar.
pub open spec fn is_leap_year(year: int) -> bool {
    year % 4 == 0 && (year % 100 != 0 || year % 400 == 0)
}

/// The number of days of `year`.
pub open spec fn days_in_year(year: int) -> int {
    if is_leap_year(year) {
        366
    } else {
        365
    }
}

/// Whether day `ordinal` of `year` is a date that [`CalendarDate`] can hold.
pub open spec fn is_ordinal_date(year: int, ordinal: int) -> bool {
    &&& MIN_YEAR <= year <= MAX_YEAR
    &&& 1 <= ordinal <= days_in_year(year)
}

/// Calls `time::Date::from_ordinal_date` and hands back the year and the day
/// of year of the date it made. The contract claims what the source of that
/// function shows, with the features that `time` has by default: it succeeds
/// exactly on the days that exist in a year from -9999 to 9999, and the date
/// it makes has the year and the day it was given.
#[verifier::external_body]
fn checked_ordinal_date(year: i32, ordinal: u16) -> (r: Option<(i32, u16)>)
    ensures
        r == if is_ordinal_date(year as int, ordinal as int) {
            Some((year, ordinal))
        } else {
            None
        },
{
    match time::Date::from_ordinal_date(year, ordinal) {
        Ok(date) => Some((date.year(), date.ordinal())),
        Err(_) => None,
    }
}

/// A date given by its year and its 1-indexed day of that year.
#[derive(Debug, Clone, Copy, PartialEq, Eq)]
pub struct CalendarDate {
    year: i32,
    ordinal: u16,
}

impl DeepView for CalendarDate {
    type V = (int, int);

    /// The year and the day of the year.
    closed spec fn deep_view(&self) -> (int, int) {
        (self.year as int, self.ordinal as int)
    }
}

impl CalendarDate {
    /// What holds of every date: it is a day that exists.
    #[verifier::type_invariant]
    pub open spec fn well_formed(self) -> bool {
        is_ordinal_date(self.deep_view().0, self.deep_view().1)
    }

    /// The date of day `ordinal` of `year`, if there is such a day.
    pub fn from_ordinal_date(year: i32, ordinal: u16) -> (r: Option<Self>)
        ensures
            r is Some <==> is_ordinal_date(year as int, ordinal as int),
            r matches Some(date) ==> date.deep_view() == (year as int, ordinal as int),
    {
        match checked_ordinal_date(year, ordinal) {
            Some((y, o)) => Some(CalendarDate { year: y, ordinal: o }),
            None => None,
        }
    }

    /// The year of the date.
    pub fn year(&self) -> (r: i32)
        ensures
            r == self.deep_view().0,
            is_ordinal_date(self.deep_view().0, self.deep_view().1),
    {
        proof {
            use_type_invariant(self);
        }
        self.year
    }

    /// The day of the year, starting at 1.
    pub fn ordinal(&self) -> (r: u16)
        ensures
            r == self.deep_view().1,
            is_ordinal_date(self.deep_view().0, self.deep_view().1),
    {
        proof {
            use_type_invariant(self);
        }
        self.ordinal
    }
}

} // verus!
