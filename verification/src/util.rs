//! Objects that live for a limited time.

use vstd::prelude::*;

verus! {

/// Time an object has still to live, in nanoseconds; at or below zero its time is up.
#[derive(Clone, Copy, Debug, PartialEq, Eq, Structural)]
pub struct LifeSpan(pub i64);

impl LifeSpan {
    /// Counts `delta` nanoseconds off the life span; returns whether the object's time is
    /// up (the life span is at or below zero) and it is to be removed.
    pub fn update(&mut self, delta: u64) -> (expired: bool)
        requires
            i64::MIN <= old(self).0 - delta,
        ensures
            final(self).0 == old(self).0 - delta,
            expired == (final(self).0 <= 0),
    {
        let left: i128 = self.0 as i128 - delta as i128;
        self.0 = left as i64;
        self.0 <= 0
    }
}

/// A life span never grows: counting time off it leaves at most what it was, and less
/// whenever some time passed.
pub proof fn lemma_life_span_shrinks(l: LifeSpan, delta: u64)
    requires
        i64::MIN <= l.0 - delta,
    ensures
        l.0 - delta <= l.0,
        delta > 0 ==> l.0 - delta < l.0,
{
}

} // verus!
