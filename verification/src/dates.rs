//! Calendar dates as plain values.
//!
//! The catalog stores the dates of a source release (publication, reference
//! period, collection period) as year/month/day triples and compares them
//! lexicographically, which matches the calendar order for valid dates.

use vstd::prelude::*;

verus! {

/// A calendar date held as plain year, month and day values.
#[derive(Debug, Clone, Copy, PartialEq, Eq, Structural)]
pub struct Date {
    pub year: i32,
    pub month: u8,
    pub day: u8,
}

/// Calendar order on dates: lexicographic on (year, month, day).
pub open spec fn date_le(a: Date, b: Date) -> bool {
    ||| a.year < b.year
    ||| (a.year == b.year && a.month < b.month)
    ||| (a.year == b.year && a.month == b.month && a.day <= b.day)
}

impl Date {
    /// A date is well formed when its month and day lie in calendar range.
    /// Day 31 is allowed for every month; nothing here depends on the exact
    /// month lengths.
    pub open spec fn wf(self) -> bool {
        1 <= self.month <= 12 && 1 <= self.day <= 31
    }

    /// Build a date from its three parts.
    pub fn new(year: i32, month: u8, day: u8) -> (r: Date)
        ensures
            r == (Date { year, month, day }),
    {
        Date { year, month, day }
    }

    /// The first day of a year.
    pub fn jan1(year: u16) -> (r: Date)
        ensures
            r == (Date { year: year as i32, month: 1u8, day: 1u8 }),
            r.wf(),
    {
        Date { year: year as i32, month: 1, day: 1 }
    }

    /// The last day of a year.
    pub fn dec31(year: u16) -> (r: Date)
        ensures
            r == (Date { year: year as i32, month: 12u8, day: 31u8 }),
            r.wf(),
    {
        Date { year: year as i32, month: 12, day: 31 }
    }

    /// Whether `self` is on or before `other` in calendar order.
    pub fn le(&self, other: &Date) -> (r: bool)
        ensures
            r == date_le(*self, *other),
    {
        if self.year != other.year {
            self.year < other.year
        } else if self.month != other.month {
            self.month < other.month
        } else {
            self.day <= other.day
        }
    }
}

} // verus!
