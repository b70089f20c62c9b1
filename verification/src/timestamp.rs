//! Calendar timestamps as plain civil fields.
//!
//! A `Timestamp` holds the components that the record's projection renders:
//! year, month, day, hour, minute and second, each within its civil range.
//! The wall clock itself is an outside collaborator; the library only ever
//! computes on these plain fields.

use vstd::prelude::*;

verus! {

/// A second-granularity civil timestamp (UTC, by convention of the callers).
#[derive(Clone, Copy, PartialEq, Eq, Structural, Debug)]
pub struct Timestamp {
    pub year: u16,
    pub month: u8,
    pub day: u8,
    pub hour: u8,
    pub minute: u8,
    pub second: u8,
}

impl Timestamp {
    /// The components stay inside their civil ranges; the year is kept to
    /// four decimal digits so the rendered form has a fixed width.
    pub open spec fn wf(self) -> bool {
        &&& 1 <= self.year <= 9999
        &&& 1 <= self.month <= 12
        &&& 1 <= self.day <= 31
        &&& self.hour <= 23
        &&& self.minute <= 59
        &&& self.second <= 59
    }

    /// Decides `wf` executably.
    pub fn is_well_formed(&self) -> (r: bool)
        ensures
            r == self.wf(),
    {
        1 <= self.year && self.year <= 9999 && 1 <= self.month && self.month <= 12
            && 1 <= self.day && self.day <= 31 && self.hour <= 23 && self.minute <= 59
            && self.second <= 59
    }

    /// Builds a timestamp from raw civil parts, rejecting any component
    /// outside its range.
    pub fn from_parts(
        year: u16,
        month: u8,
        day: u8,
        hour: u8,
        minute: u8,
        second: u8,
    ) -> (r: Option<Timestamp>)
        ensures
            match r {
                Some(t) => {
                    &&& t.wf()
                    &&& t == (Timestamp { year, month, day, hour, minute, second })
                },
                None => !(Timestamp { year, month, day, hour, minute, second }).wf(),
            },
    {
        if 1 <= year && year <= 9999 && 1 <= month && month <= 12 && 1 <= day && day <= 31
            && hour <= 23 && minute <= 59 && second <= 59 {
            Some(Timestamp { year, month, day, hour, minute, second })
        } else {
            None
        }
    }
}

} // verus!
