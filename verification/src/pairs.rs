//! Adjacent pairs of a vector, through itertools.

use vstd::prelude::*;

use itertools::Itertools;

verus! {

/// Relies on itertools' `tuple_windows`: over the elements of `v` it
/// yields every contiguous window of two, in order; `copied` hands the
/// windows plain copies of the elements.
#[verifier::external_body]
pub fn adjacent_pairs<T: Copy>(v: &Vec<T>) -> (r: Vec<(T, T)>)
    ensures
        r@.len() == (if v@.len() >= 2 {
            v@.len() - 1
        } else {
            0
        }),
        forall|i: int| 0 <= i < r@.len() ==> #[trigger] r@[i] == (v@[i], v@[i + 1]),
{
    v.iter().copied().tuple_windows().collect()
}

} // verus!
