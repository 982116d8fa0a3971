use vstd::prelude::*;

verus! {

/// Smallest capacity that a growing buffer starts from.
pub const MIN_CAPACITY: usize = 8;

/// The capacity a byte buffer grows to once `capacity` is used up:
/// at least `MIN_CAPACITY`, else twice the old capacity.
pub open spec fn grown(capacity: nat) -> nat {
    if capacity < MIN_CAPACITY {
        MIN_CAPACITY as nat
    } else {
        2 * capacity
    }
}

pub fn grow_capacity(capacity: usize) -> (r: usize)
    requires
        grown(capacity as nat) <= usize::MAX,
    ensures
        r == grown(capacity as nat),
        r > capacity,
{
    if capacity < MIN_CAPACITY {
        MIN_CAPACITY
    } else {
        capacity * 2
    }
}

} // verus!
