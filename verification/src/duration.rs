use std::time::Duration;
use vstd::prelude::*;

verus! {

/// The number of whole seconds that a duration holds.
pub uninterp spec fn duration_secs(d: Duration) -> u64;

/// The part of a duration below one second, in nanoseconds.
pub uninterp spec fn duration_subsec_nanos(d: Duration) -> u32;

/// `Duration::as_secs` hands out the whole seconds of the duration and leaves
/// its fractional part aside.
pub assume_specification[ Duration::as_secs ](d: &Duration) -> (secs: u64)
    ensures
        secs == duration_secs(*d),
;

/// `Duration::subsec_nanos` hands out the fractional part of the duration in
/// nanoseconds, which is always less than one billion.
pub assume_specification[ Duration::subsec_nanos ](d: &Duration) -> (nanos: u32)
    ensures
        nanos == duration_subsec_nanos(*d),
        nanos < 1_000_000_000,
;

/// The key of a duration in an ordered map: its whole seconds, then its
/// nanoseconds below the second.
pub open spec fn duration_key(d: Duration) -> (u64, u32) {
    (duration_secs(d), duration_subsec_nanos(d))
}

/// Computes the key of `d`.
pub fn key_of(d: &Duration) -> (key: (u64, u32))
    ensures
        key == duration_key(*d),
{
    (d.as_secs(), d.subsec_nanos())
}

} // verus!
