//! Plain calendar-date and time-of-day carriers.
//!
//! These types hold the raw field values decoded from a sentence; they have
//! no behaviour beyond storage and simple constructors.  A time of day keeps
//! its seconds split into a whole part and a nanosecond part so that the
//! fractional seconds of the wire format (`HHMMSS.fff`) are kept exactly.

use vstd::prelude::*;

verus! {

/// A calendar date as decoded from an RMC sentence (`DDMMYY`); the two-digit
/// year is stored as given, century resolution is the caller's concern.
#[derive(Debug, Clone, Copy, PartialEq, Eq, Structural)]
pub struct NaiveDate {
    pub year: i32,
    pub month: u32,
    pub day: u32,
}

impl NaiveDate {
    /// Builds a date from year, month and day, unchecked.
    pub fn from_ymd(year: i32, month: u32, day: u32) -> (r: NaiveDate)
        ensures
            r == (NaiveDate { year, month, day }),
    {
        NaiveDate { year, month, day }
    }
}

/// A time of day as decoded from a sentence (`HHMMSS[.fff]`), with the
/// fractional seconds held as nanoseconds.
#[derive(Debug, Clone, Copy, PartialEq, Eq, Structural)]
pub struct NaiveTime {
    pub hour: u32,
    pub min: u32,
    pub sec: u32,
    pub nanos: u32,
}

impl NaiveTime {
    /// Builds a time from hours, minutes, seconds and milliseconds, unchecked.
    pub fn from_hms_milli(hour: u32, min: u32, sec: u32, milli: u32) -> (r: NaiveTime)
        requires
            milli < 1000,
        ensures
            r.hour == hour,
            r.min == min,
            r.sec == sec,
            r.nanos == milli * 1_000_000,
    {
        NaiveTime { hour, min, sec, nanos: milli * 1_000_000 }
    }

    /// Builds a time with whole seconds only.
    pub fn from_hms(hour: u32, min: u32, sec: u32) -> (r: NaiveTime)
        ensures
            r == (NaiveTime { hour, min, sec, nanos: 0u32 }),
    {
        NaiveTime { hour, min, sec, nanos: 0 }
    }

    /// The hour of the day.
    pub fn hour(&self) -> (r: u32)
        ensures
            r == self.hour,
    {
        self.hour
    }

    /// The minute within the hour.
    pub fn minute(&self) -> (r: u32)
        ensures
            r == self.min,
    {
        self.min
    }

    /// The whole second within the minute.
    pub fn second(&self) -> (r: u32)
        ensures
            r == self.sec,
    {
        self.sec
    }

    /// The fractional second, in nanoseconds.
    pub fn nanosecond(&self) -> (r: u32)
        ensures
            r == self.nanos,
    {
        self.nanos
    }
}

} // verus!
