//! Slot arithmetic shared by the storage strategies.
use vstd::prelude::*;

verus! {

/// The slot that holds the `i`-th queued element when the oldest one sits in
/// slot `read` of a ring of `n` slots.
pub open spec fn ring_slot(read: int, i: int, n: int) -> int {
    if read + i < n {
        read + i
    } else {
        read + i - n
    }
}

/// Executable form of `ring_slot`, free of overflow for `read < n`, `i <= n`.
pub fn slot_of(read: usize, i: usize, n: usize) -> (r: usize)
    requires
        read < n,
        i <= n,
    ensures
        r as int == ring_slot(read as int, i as int, n as int),
{
    if i < n - read {
        read + i
    } else {
        i - (n - read)
    }
}

} // verus!
