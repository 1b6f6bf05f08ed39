//! Small unit-tagging wrappers.

use vstd::prelude::*;

verus! {

/// A duration expressed in seconds, tagged with the scalar that carries it.
#[derive(Clone, Copy, Debug, PartialEq, Eq)]
pub struct Seconds<T>(pub T);

impl Seconds<u64> {
    /// Whole seconds of a nanosecond count.
    pub fn from_nanos(nanos: u64) -> (r: Seconds<u64>)
        ensures
            r.0 == nanos / 1_000_000_000,
    {
        Seconds(nanos / 1_000_000_000)
    }
}

} // verus!
