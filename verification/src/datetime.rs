use vstd::prelude::*;

verus! {

/// An instant, in whole seconds since the epoch.
#[derive(Debug, Clone, Copy, PartialEq)]
pub struct Datetime {
    pub timestamp: u64,
}

impl Datetime {
    /// The instant `timestamp` seconds after the epoch.
    pub fn from_timestamp(timestamp: u64) -> (datetime: Self)
        ensures
            datetime.timestamp == timestamp,
    {
        Self { timestamp }
    }

    /// The instant that a clock reading of `millis` milliseconds since the
    /// epoch falls in.
    pub fn from_millis(millis: u64) -> (datetime: Self)
        ensures
            datetime.timestamp == millis / 1000,
    {
        Self::from_timestamp(millis / 1000)
    }
}

} // verus!
