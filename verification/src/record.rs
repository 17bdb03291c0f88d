//! The input record and the error kinds of the library.

use vstd::prelude::*;

verus! {

/// One timestamped traffic count, as the record source delivers it.
#[derive(PartialEq, Eq, Debug)]
pub struct TrafficCount {
    /// The raw timestamp text, expected to parse as a local date-time.
    pub timestamp: String,
    /// The non-negative count observed in this period.
    pub count: u32,
}

impl Clone for TrafficCount {
    fn clone(&self) -> (r: Self)
        ensures
            r == *self,
    {
        TrafficCount { timestamp: self.timestamp.clone(), count: self.count }
    }
}

/// The fatal conditions that the accumulators themselves can report.
#[derive(Clone, Copy, PartialEq, Eq, Structural, Debug)]
pub enum TrafficError {
    /// A record's timestamp could not be parsed as a date-time.
    ParseError,
    /// Fewer than three records were tracked, so a three-record summary
    /// cannot be reported.
    InsufficientData,
}

} // verus!
