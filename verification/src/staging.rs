//! Buffer staging: the copy that brings the source of an out-of-place
//! transform into its destination.

use vstd::prelude::*;

verus! {

/// Copies every element of `source` to the same place in `destination`.
/// The elements are copied as they are; `source` is not changed.
pub fn copy_buffer<T: Copy>(source: &[T], destination: &mut [T])
    requires
        source@.len() == old(destination)@.len(),
    ensures
        final(destination)@ == source@,
{
    let n = source.len();
    let mut i: usize = 0;
    while i < n
        invariant
            n == source@.len(),
            destination@.len() == n,
            i <= n,
            forall|j: int| 0 <= j < i ==> destination@[j] == source@[j],
        decreases n - i,
    {
        destination[i] = source[i];
        i = i + 1;
    }
}

} // verus!
