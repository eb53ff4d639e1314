//! Counters.

use vstd::prelude::*;

verus! {

/// The next value of a counter, which starts again from zero behind its last.
pub open spec fn counted_up(counter: u64) -> u64 {
    if counter == u64::MAX {
        0
    } else {
        (counter + 1) as u64
    }
}

/// A counter goes up by one, modulo the number of its values.
pub proof fn lemma_counts_up_by_one(counter: u64)
    ensures
        counted_up(counter) == (counter + 1) % 0x1_0000_0000_0000_0000,
{
}

} // verus!
