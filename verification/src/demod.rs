//! Instantaneous-frequency demodulation over a fixed-point phase sequence.
//!
//! The pipeline differences the phase sequence, unwraps the differences, and
//! range-normalizes every element into one period. The remaining step of the
//! demodulator — scaling by the target frequency over the period — is a
//! floating-point rescale that the host applies to the returned units.

use vstd::prelude::*;

use vstd::arithmetic::div_mod::{lemma_small_mod, lemma_sub_mod_noop};

use crate::diff::{diff_forward_in_place, forward_diff};
use crate::phase::{
    lemma_unwrap_seq_bound, lemma_unwrap_seq_len, lemma_unwrap_seq_residues,
    normalize_angles_in_place, unwrap_angles_in_place, unwrap_input_ok, unwrap_seq,
};
use crate::{as_ints, ANGLE_LIMIT};

verus! {

/// Turns a phase sequence into per-sample instantaneous angular velocity, in
/// place: forward difference, unwrap, then range normalization into
/// `[0, 2 * half_period)`. Element 0 becomes 0; element `i` becomes the phase
/// advance from sample `i - 1` to sample `i`, reduced into one period.
pub fn demodulate_phase_in_place(x: &mut Vec<i64>, half_period: i64)
    requires
        old(x)@.len() >= 1,
        1 <= half_period,
        old(x)@.len() * half_period <= ANGLE_LIMIT,
        forall|k: int|
            0 <= k < old(x)@.len() ==> -ANGLE_LIMIT <= #[trigger] old(x)@[k] <= ANGLE_LIMIT,
    ensures
        final(x)@.len() == old(x)@.len(),
        final(x)@[0] == 0,
        forall|i: int|
            1 <= i < old(x)@.len() ==> #[trigger] final(x)@[i] == (old(x)@[i] - old(x)@[i - 1]) % (
            2 * half_period as int),
        forall|k: int|
            0 <= k < old(x)@.len() ==> 0 <= #[trigger] final(x)@[k] < 2 * half_period,
{
    let ghost xs = as_ints(old(x)@);
    let ghost p = half_period as int;
    let ghost d = forward_diff(xs);
    let ghost u = unwrap_seq(d, p);
    let ghost n = old(x)@.len() as int;
    let ghost m = 2 * p;

    diff_forward_in_place(x);
    proof {
        assert(1 * half_period <= n * half_period) by (nonlinear_arith)
            requires
                1 <= n,
                1 <= half_period,
        ;
        assert(unwrap_input_ok(x@, half_period));
    }
    unwrap_angles_in_place(x, half_period);
    proof {
        assert(forall|k: int|
            0 <= k < n ==> -2 * ANGLE_LIMIT <= #[trigger] d[k] <= 2 * ANGLE_LIMIT);
        lemma_unwrap_seq_bound(d, p, 2 * ANGLE_LIMIT);
        lemma_unwrap_seq_len(d, p);
        assert forall|k: int| 0 <= k < n implies -4 * ANGLE_LIMIT <= #[trigger] x@[k] <= 4
            * ANGLE_LIMIT by {
            assert(as_ints(x@)[k] == x@[k] as int);
            assert(-(2 * ANGLE_LIMIT + d.len() * p) <= u[k] <= 2 * ANGLE_LIMIT + d.len() * p);
        }
    }
    normalize_angles_in_place(x, half_period);
    proof {
        lemma_unwrap_seq_residues(d, p);
        lemma_small_mod(0nat, m as nat);
        assert forall|i: int| 0 <= i < n implies #[trigger] x@[i] == d[i] % m by {
            assert(x@[i] == u[i] % m);
            assert(u[i] % m == d[i] % m);
        }
        assert(x@[0] == 0);
    }
}

/// A pure tone advances its phase by a constant amount each sample: whenever
/// every wrapped phase sample agrees modulo the period with `phi0 + k * d`,
/// every difference of adjacent samples agrees modulo the period with `d` —
/// so the demodulated sequence is constant after element 0.
pub proof fn lemma_demod_pure_tone(x: Seq<int>, phi0: int, d: int, p: int)
    requires
        p >= 1,
        forall|k: int| 0 <= k < x.len() ==> #[trigger] x[k] % (2 * p) == (phi0 + k * d) % (2 * p),
    ensures
        forall|i: int|
            1 <= i < x.len() ==> #[trigger] ((x[i] - x[i - 1]) % (2 * p)) == d % (2 * p),
{
    let m = 2 * p;
    assert forall|i: int| 1 <= i < x.len() implies #[trigger] ((x[i] - x[i - 1]) % m) == d % m by {
        lemma_sub_mod_noop(x[i], x[i - 1], m);
        lemma_sub_mod_noop(phi0 + i * d, phi0 + (i - 1) * d, m);
        assert((phi0 + i * d) - (phi0 + (i - 1) * d) == d) by (nonlinear_arith);
    }
}

} // verus!
