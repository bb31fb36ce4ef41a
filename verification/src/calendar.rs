//! Plain calendar values. Overrides are scoped to a calendar day, so the
//! engine only ever compares dates; the current day itself comes from the
//! system clock through `today_local`.

use vstd::prelude::*;

verus! {

/// A calendar date as plain year, month and day.
#[derive(Debug, Clone, Copy, PartialEq, Eq, Structural)]
pub struct Date {
    pub year: i32,
    pub month: u8,
    pub day: u8,
}

/// A wall-clock time of day. The stores never interpret it; it is payload.
#[derive(Debug, Clone, Copy, PartialEq, Eq, Structural)]
pub struct TimeOfDay {
    pub hour: u8,
    pub minute: u8,
}

impl Date {
    /// Month and day lie in their calendar ranges.
    pub open spec fn valid(self) -> bool {
        1 <= self.month <= 12 && 1 <= self.day <= 31
    }

    /// Strict calendar order: year first, then month, then day.
    pub open spec fn spec_before(self, other: Date) -> bool {
        self.year < other.year
            || (self.year == other.year && self.month < other.month)
            || (self.year == other.year && self.month == other.month && self.day < other.day)
    }

    /// True exactly when `self` is an earlier calendar day than `other`.
    pub fn before(&self, other: &Date) -> (r: bool)
        ensures
            r == self.spec_before(*other),
    {
        self.year < other.year
            || (self.year == other.year && self.month < other.month)
            || (self.year == other.year && self.month == other.month && self.day < other.day)
    }
}

/// Relies on chrono's `Local::now` and `DateTime::date_naive`: the current
/// calendar day in the server's local time zone, whose month is in 1..=12
/// and day in 1..=31. The result depends on the clock, so nothing more is
/// promised of it.
#[verifier::external_body]
pub(crate) fn today_local() -> (d: Date)
    ensures
        d.valid(),
{
    let now = chrono::Local::now().date_naive();
    Date {
        year: chrono::Datelike::year(&now),
        month: chrono::Datelike::month(&now) as u8,
        day: chrono::Datelike::day(&now) as u8,
    }
}

} // verus!
