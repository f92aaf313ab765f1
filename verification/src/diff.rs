//! First difference of a sample sequence, with a zero leading element.

use vstd::prelude::*;

use crate::{as_ints, ANGLE_LIMIT};

verus! {

/// The forward difference with a leading zero: element 0 is 0, element `i`
/// (for `i >= 1`) is `x[i] - x[i - 1]` over the original values.
pub open spec fn forward_diff(x: Seq<int>) -> Seq<int> {
    Seq::new(x.len(), |i: int| if i == 0 { 0 } else { x[i] - x[i - 1] })
}

/// For a constant sequence every element of the forward difference is zero.
pub proof fn lemma_forward_diff_constant(x: Seq<int>, c: int)
    requires
        forall|i: int| 0 <= i < x.len() ==> x[i] == c,
    ensures
        forall|i: int| 0 <= i < x.len() ==> forward_diff(x)[i] == 0,
{
}

/// Replaces each element with its difference from its predecessor, scanning
/// from the end so every subtraction reads an unmodified predecessor, then
/// forces element 0 to zero.
pub fn diff_forward_in_place(x: &mut Vec<i64>)
    requires
        old(x)@.len() >= 1,
        forall|k: int| 0 <= k < old(x)@.len() ==> -ANGLE_LIMIT <= #[trigger] old(x)@[k] <= ANGLE_LIMIT,
    ensures
        final(x)@.len() == old(x)@.len(),
        as_ints(final(x)@) == forward_diff(as_ints(old(x)@)),
        forall|k: int| 1 <= k < old(x)@.len() ==> -2 * ANGLE_LIMIT <= #[trigger] final(x)@[k] <= 2 * ANGLE_LIMIT,
        final(x)@[0] == 0,
{
    let n: usize = x.len();
    let mut i: usize = n;
    while i > 1
        invariant
            1 <= i <= n,
            x@.len() == n,
            n == old(x)@.len(),
            forall|k: int| 0 <= k < i ==> x@[k] == old(x)@[k],
            forall|k: int| i <= k < n ==> x@[k] == old(x)@[k] - old(x)@[k - 1],
            forall|k: int| 0 <= k < n ==> -ANGLE_LIMIT <= #[trigger] old(x)@[k] <= ANGLE_LIMIT,
        decreases i,
    {
        i = i - 1;
        let d: i64 = x[i] - x[i - 1];
        x.set(i, d);
    }
    x.set(0, 0);
    proof {
        assert(as_ints(x@) =~= forward_diff(as_ints(old(x)@)));
    }
}

} // verus!
