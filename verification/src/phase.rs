//! Phase unwrapping and range normalization over fixed-point angle samples.
//!
//! An angle is a signed count of fixed-point units; `half_period` is the
//! number of units in half a turn (the angle `pi`), so a full period is
//! `2 * half_period` units.

use vstd::prelude::*;

use vstd::arithmetic::div_mod::{
    lemma_add_mod_noop, lemma_fundamental_div_mod_converse, lemma_mod_add_multiples_vanish,
    lemma_mod_bound, lemma_mod_self_0, lemma_mod_twice, lemma_small_mod, lemma_sub_mod_noop,
};
use vstd::arithmetic::mul::lemma_mul_inequality;

use crate::{as_ints, KernelError, ANGLE_LIMIT};

verus! {

/// The wrapped difference: `diff` reduced into `[-p, p)` by a period-`2p`
/// modulo, except that a reduced value of exactly `-p` coming from a positive
/// `diff` is flipped to `+p`.
pub open spec fn wrap_diff(diff: int, p: int) -> int {
    let dm0 = (diff + p) % (2 * p) - p;
    if dm0 == -p && diff > 0 {
        p
    } else {
        dm0
    }
}

/// One unwrap step: the corrected value of the sample `cur` when it follows
/// the already-corrected sample `prev`. A jump smaller in magnitude than `p`
/// is genuine and is kept; a larger one is brought within `p` of `prev` by a
/// whole number of periods.
pub open spec fn unwrap_step(prev: int, cur: int, p: int) -> int {
    let diff = cur - prev;
    if -p < diff && diff < p {
        cur
    } else {
        prev + wrap_diff(diff, p)
    }
}

/// The unwrapped sequence: element 0 is kept, and each later element is
/// corrected against its already-corrected predecessor, left to right.
pub open spec fn unwrap_seq(x: Seq<int>, p: int) -> Seq<int>
    decreases x.len(),
{
    if x.len() <= 1 {
        x
    } else {
        let y = unwrap_seq(x.drop_last(), p);
        y.push(unwrap_step(y.last(), x.last(), p))
    }
}

pub proof fn lemma_unwrap_seq_len(x: Seq<int>, p: int)
    ensures
        unwrap_seq(x, p).len() == x.len(),
    decreases x.len(),
{
    if x.len() > 1 {
        lemma_unwrap_seq_len(x.drop_last(), p);
    }
}

/// Unwrapping never changes the first element.
pub proof fn lemma_unwrap_seq_first(x: Seq<int>, p: int)
    requires
        x.len() >= 1,
    ensures
        unwrap_seq(x, p)[0] == x[0],
    decreases x.len(),
{
    if x.len() > 1 {
        lemma_unwrap_seq_first(x.drop_last(), p);
        lemma_unwrap_seq_len(x.drop_last(), p);
    }
}

/// Unwrapping a longer sequence extends the unwrapping of its prefix by one
/// corrected element.
pub proof fn lemma_unwrap_seq_take_step(x: Seq<int>, p: int, i: int)
    requires
        1 <= i < x.len(),
    ensures
        unwrap_seq(x.take(i + 1), p) == unwrap_seq(x.take(i), p).push(
            unwrap_step(unwrap_seq(x.take(i), p).last(), x[i], p),
        ),
{
    let t = x.take(i + 1);
    assert(t.drop_last() =~= x.take(i));
    assert(t.last() == x[i]);
}

/// The wrapped difference lies in `[-p, p]` and differs from `diff` by a
/// whole number of periods.
pub proof fn lemma_wrap_diff_basics(diff: int, p: int)
    requires
        p >= 1,
    ensures
        -p <= wrap_diff(diff, p) <= p,
        wrap_diff(diff, p) % (2 * p) == diff % (2 * p),
{
    let m = 2 * p;
    let dm0 = (diff + p) % m - p;
    lemma_mod_bound(diff + p, m);
    // dm0 is congruent to diff: reducing modulo m and then subtracting p
    // undoes the earlier addition of p.
    lemma_mod_twice(diff + p, m);
    lemma_small_mod(p as nat, m as nat);
    lemma_sub_mod_noop((diff + p) % m, p, m);
    lemma_sub_mod_noop(diff + p, p, m);
    assert(dm0 % m == diff % m);
    if dm0 == -p && diff > 0 {
        lemma_mod_add_multiples_vanish(dm0, m);
        assert((m + dm0) % m == dm0 % m);
        assert(wrap_diff(diff, p) == m + dm0);
    }
}

/// One unwrap step keeps the sample's residue modulo the period.
pub proof fn lemma_unwrap_step_residue(prev: int, cur: int, p: int)
    requires
        p >= 1,
    ensures
        unwrap_step(prev, cur, p) % (2 * p) == cur % (2 * p),
{
    let m = 2 * p;
    let diff = cur - prev;
    if !(-p < diff && diff < p) {
        let wd = wrap_diff(diff, p);
        lemma_wrap_diff_basics(diff, p);
        lemma_add_mod_noop(prev, wd, m);
        lemma_add_mod_noop(prev, diff, m);
        assert((prev % m + wd % m) % m == (prev + wd) % m);
        assert((prev % m + diff % m) % m == (prev + diff) % m);
        assert(prev + diff == cur);
    }
}

/// Unwrapping keeps every element's residue modulo the period.
pub proof fn lemma_unwrap_seq_residues(x: Seq<int>, p: int)
    requires
        p >= 1,
    ensures
        unwrap_seq(x, p).len() == x.len(),
        forall|k: int|
            0 <= k < x.len() ==> #[trigger] unwrap_seq(x, p)[k] % (2 * p) == x[k] % (2 * p),
    decreases x.len(),
{
    lemma_unwrap_seq_len(x, p);
    if x.len() > 1 {
        let y0 = unwrap_seq(x.drop_last(), p);
        lemma_unwrap_seq_residues(x.drop_last(), p);
        lemma_unwrap_step_residue(y0.last(), x.last(), p);
        assert forall|k: int| 0 <= k < x.len() implies #[trigger] unwrap_seq(x, p)[k] % (2 * p)
            == x[k] % (2 * p) by {
            if k < x.len() - 1 {
                assert(unwrap_seq(x, p)[k] == y0[k]);
                assert(x.drop_last()[k] == x[k]);
            }
        }
    }
}

/// Every unwrapped element stays within the input magnitude bound plus one
/// half period for each element.
pub proof fn lemma_unwrap_seq_bound(x: Seq<int>, p: int, b: int)
    requires
        p >= 1,
        b >= 0,
        forall|k: int| 0 <= k < x.len() ==> -b <= #[trigger] x[k] <= b,
    ensures
        forall|k: int|
            0 <= k < x.len() ==> -(b + x.len() * p) <= #[trigger] unwrap_seq(x, p)[k] <= b
                + x.len() * p,
    decreases x.len(),
{
    lemma_unwrap_seq_len(x, p);
    if x.len() > 1 {
        let n = x.len() as int;
        let y0 = unwrap_seq(x.drop_last(), p);
        assert(forall|k: int| 0 <= k < n - 1 ==> -b <= #[trigger] x.drop_last()[k] <= b);
        lemma_unwrap_seq_bound(x.drop_last(), p, b);
        lemma_mul_inequality(n - 1, n, p);
        assert((n - 1) * p + p == n * p) by (nonlinear_arith);
        let v = unwrap_step(y0.last(), x.last(), p);
        lemma_wrap_diff_basics(x.last() - y0.last(), p);
        assert(-(b + n * p) <= v <= b + n * p);
        assert forall|k: int| 0 <= k < n implies -(b + n * p) <= #[trigger] unwrap_seq(x, p)[k]
            <= b + n * p by {
            if k < n - 1 {
                assert(unwrap_seq(x, p)[k] == y0[k]);
            }
        }
    }
}

/// A sample already within one half period of its corrected predecessor is a
/// fixed point of the unwrap step.
pub proof fn lemma_unwrap_step_fixed(prev: int, d: int, p: int)
    requires
        p >= 1,
        -p <= d <= p,
    ensures
        unwrap_step(prev, prev + d, p) == prev + d,
{
    let m = 2 * p;
    if d == p {
        lemma_mod_self_0(m);
        assert((p + p) % m == 0);
    } else if d == -p {
        lemma_small_mod(0nat, m as nat);
        assert((-p + p) % m == 0);
    }
}

/// Unwrap idempotence: unwrapping an already unwrapped sequence changes
/// nothing, whatever the input was.
pub proof fn lemma_unwrap_idempotent(x: Seq<int>, p: int)
    requires
        p >= 1,
    ensures
        unwrap_seq(unwrap_seq(x, p), p) == unwrap_seq(x, p),
    decreases x.len(),
{
    if x.len() > 1 {
        let y1 = unwrap_seq(x.drop_last(), p);
        lemma_unwrap_idempotent(x.drop_last(), p);
        lemma_unwrap_seq_len(x.drop_last(), p);
        let prev = y1.last();
        let diff = x.last() - prev;
        let v = unwrap_step(prev, x.last(), p);
        let y = unwrap_seq(x, p);
        assert(y.drop_last() =~= y1);
        if -p < diff && diff < p {
            lemma_unwrap_step_fixed(prev, diff, p);
            assert(v == prev + diff);
        } else {
            lemma_wrap_diff_basics(diff, p);
            lemma_unwrap_step_fixed(prev, wrap_diff(diff, p), p);
        }
        assert(unwrap_seq(y, p) =~= y);
    }
}

/// Unwrap continuity: every jump in the output is smaller than the half
/// period unless the matching jump in the input already reached it — no new
/// discontinuity is introduced, and none below the threshold is removed.
pub proof fn lemma_unwrap_continuity(x: Seq<int>, p: int)
    requires
        p >= 1,
    ensures
        unwrap_seq(x, p).len() == x.len(),
        forall|i: int|
            1 <= i < x.len() ==> (-p < #[trigger] unwrap_seq(x, p)[i] - unwrap_seq(x, p)[i - 1]
                < p) || x[i] - x[i - 1] >= p || x[i] - x[i - 1] <= -p,
    decreases x.len(),
{
    lemma_unwrap_seq_len(x, p);
    if x.len() > 1 {
        let m = 2 * p;
        let n = x.len() as int;
        let y = unwrap_seq(x, p);
        let y1 = unwrap_seq(x.drop_last(), p);
        lemma_unwrap_continuity(x.drop_last(), p);
        lemma_unwrap_seq_residues(x.drop_last(), p);
        assert forall|i: int|
            1 <= i < n implies (-p < #[trigger] y[i] - y[i - 1] < p) || x[i] - x[i - 1] >= p || x[i]
            - x[i - 1] <= -p by {
            if i < n - 1 {
                assert(y[i] == y1[i]);
                assert(y[i - 1] == y1[i - 1]);
                assert(x.drop_last()[i] == x[i]);
                assert(x.drop_last()[i - 1] == x[i - 1]);
            } else {
                let prev = y1.last();
                let diff = x.last() - prev;
                assert(y[i - 1] == prev);
                if -p < diff && diff < p {
                    assert(y[i] == x.last());
                } else {
                    let wd = wrap_diff(diff, p);
                    lemma_wrap_diff_basics(diff, p);
                    assert(y[i] - y[i - 1] == wd);
                    if wd == p || wd == -p {
                        // The wrapped jump sits exactly on the boundary, so the
                        // original jump was a whole number of periods past it.
                        lemma_small_mod(p as nat, m as nat);
                        lemma_fundamental_div_mod_converse(-p, m, -1, p);
                        assert(wd % m == p);
                        assert(diff % m == p);
                        let orig = x[i] - x[i - 1];
                        assert(prev % m == x[i - 1] % m);
                        lemma_sub_mod_noop(x[i], prev, m);
                        lemma_sub_mod_noop(x[i], x[i - 1], m);
                        assert(orig % m == p);
                        if -p < orig < p {
                            if 0 <= orig {
                                lemma_small_mod(orig as nat, m as nat);
                                assert(false);
                            } else {
                                lemma_fundamental_div_mod_converse(orig, m, -1, orig + m);
                                assert(false);
                            }
                        }
                    }
                }
            }
        }
    }
}

/// A sequence with no jump reaching the half period is left untouched.
pub proof fn lemma_unwrap_no_wraps_identity(x: Seq<int>, p: int)
    requires
        p >= 1,
        forall|i: int| 1 <= i < x.len() ==> -p < #[trigger] (x[i] - x[i - 1]) < p,
    ensures
        unwrap_seq(x, p) == x,
    decreases x.len(),
{
    if x.len() > 1 {
        let n = x.len() as int;
        assert(forall|i: int|
            1 <= i < n - 1 ==> -p < #[trigger] (x.drop_last()[i] - x.drop_last()[i - 1]) < p);
        lemma_unwrap_no_wraps_identity(x.drop_last(), p);
        assert(x[n - 1] - x[n - 2] == x.last() - x.drop_last().last());
        assert(unwrap_seq(x, p) =~= x);
    }
}

/// Magnitude bound accepted by [`unwrap_angles_in_place`]: twice
/// [`ANGLE_LIMIT`], so the unwrap kernel composes with the forward
/// differencer, whose outputs span twice the input range.
pub open spec fn unwrap_input_ok(x: Seq<i64>, half_period: i64) -> bool {
    &&& 1 <= half_period
    &&& x.len() * half_period <= ANGLE_LIMIT
    &&& forall|k: int| 0 <= k < x.len() ==> -2 * ANGLE_LIMIT <= #[trigger] x[k] <= 2 * ANGLE_LIMIT
}

/// Corrects wrap discontinuities in place: a single left-to-right pass that
/// leaves element 0 alone and moves each later element by whole periods until
/// it sits within one half period of its corrected predecessor, unless the
/// jump was already smaller than the half period.
pub fn unwrap_angles_in_place(x: &mut Vec<i64>, half_period: i64)
    requires
        old(x)@.len() >= 1,
        unwrap_input_ok(old(x)@, half_period),
    ensures
        final(x)@.len() == old(x)@.len(),
        as_ints(final(x)@) == unwrap_seq(as_ints(old(x)@), half_period as int),
{
    let ghost xs = as_ints(old(x)@);
    let ghost p = half_period as int;
    let n: usize = x.len();
    proof {
        lemma_mul_inequality(1, xs.len() as int, p);
    }
    let period: i64 = 2 * half_period;
    let mut i: usize = 1;
    while i < n
        invariant
            1 <= i <= n,
            x@.len() == n,
            n == xs.len(),
            xs == as_ints(old(x)@),
            unwrap_input_ok(old(x)@, half_period),
            1 <= half_period <= ANGLE_LIMIT,
            p == half_period as int,
            period == 2 * half_period,
            forall|k: int| i <= k < n ==> x@[k] == old(x)@[k],
            as_ints(x@).take(i as int) == unwrap_seq(xs.take(i as int), p),
        decreases n - i,
    {
        proof {
            lemma_unwrap_seq_len(xs.take(i as int), p);
            assert(forall|k: int|
                0 <= k < i ==> -2 * ANGLE_LIMIT <= #[trigger] xs.take(i as int)[k] <= 2
                    * ANGLE_LIMIT);
            lemma_unwrap_seq_bound(xs.take(i as int), p, 2 * ANGLE_LIMIT);
            lemma_mul_inequality(i as int, n as int, p);
            assert(as_ints(x@)[i - 1] == x@[i - 1] as int);
            assert(as_ints(x@).take(i as int)[i - 1] == as_ints(x@)[i - 1]);
            assert(unwrap_seq(xs.take(i as int), p)[i - 1] == x@[i - 1] as int);
        }
        let prev: i64 = x[i - 1];
        let cur: i64 = x[i];
        assert(-3 * ANGLE_LIMIT <= prev <= 3 * ANGLE_LIMIT);
        let diff: i64 = cur - prev;
        let shifted: i64 = diff + half_period;
        let rem: i64 = shifted.checked_rem_euclid(period).unwrap();
        proof {
            lemma_mod_bound(shifted as int, period as int);
        }
        let dm0: i64 = rem - half_period;
        let dm: i64 = if dm0 == -half_period && diff > 0 {
            half_period
        } else {
            dm0
        };
        let newv: i64 = if -half_period < diff && diff < half_period {
            cur
        } else {
            prev + dm
        };
        proof {
            assert(newv as int == unwrap_step(prev as int, cur as int, p));
        }
        x.set(i, newv);
        proof {
            lemma_unwrap_seq_take_step(xs, p, i as int);
            assert(unwrap_seq(xs.take(i as int), p).last() == prev as int);
            assert(xs[i as int] == cur as int);
            assert(as_ints(x@).take(i as int + 1) =~= unwrap_seq(xs.take(i as int), p).push(
                newv as int,
            ));
        }
        i = i + 1;
    }
    proof {
        assert(xs.take(n as int) =~= xs);
        assert(as_ints(x@).take(n as int) =~= as_ints(x@));
    }
}

/// Unwraps a copy of the input, rejecting an empty sequence.
///
/// Succeeds on every non-empty input the magnitude bound admits; an empty
/// input is the one contract violation it reports rather than touching any
/// buffer.
pub fn unwrap_angles_impl(x: &Vec<i64>, half_period: i64) -> (r: Result<Vec<i64>, KernelError>)
    requires
        unwrap_input_ok(x@, half_period),
    ensures
        match r {
            Ok(y) => x@.len() >= 1 && y@.len() == x@.len() && as_ints(y@) == unwrap_seq(
                as_ints(x@),
                half_period as int,
            ),
            Err(e) => e == KernelError::EmptyInput && x@.len() == 0,
        },
{
    if x.len() == 0 {
        return Err(KernelError::EmptyInput);
    }
    let n: usize = x.len();
    let mut y: Vec<i64> = Vec::new();
    let mut i: usize = 0;
    while i < n
        invariant
            0 <= i <= n,
            n == x@.len(),
            y@.len() == i,
            forall|k: int| 0 <= k < i ==> y@[k] == x@[k],
        decreases n - i,
    {
        y.push(x[i]);
        i = i + 1;
    }
    proof {
        assert(y@ =~= x@);
    }
    unwrap_angles_in_place(&mut y, half_period);
    Ok(y)
}

/// Reduces every element in place into `[0, 2 * half_period)` by whole
/// periods: the range normalization applied after differencing, and the
/// per-pair wrap of the fast demodulation path.
pub fn normalize_angles_in_place(x: &mut Vec<i64>, half_period: i64)
    requires
        1 <= half_period <= ANGLE_LIMIT,
        forall|k: int|
            0 <= k < old(x)@.len() ==> -4 * ANGLE_LIMIT <= #[trigger] old(x)@[k] <= 4 * ANGLE_LIMIT,
    ensures
        final(x)@.len() == old(x)@.len(),
        forall|k: int|
            0 <= k < old(x)@.len() ==> #[trigger] final(x)@[k] == old(x)@[k] as int % (2
                * half_period as int),
        forall|k: int| 0 <= k < old(x)@.len() ==> 0 <= #[trigger] final(x)@[k] < 2 * half_period,
{
    let n: usize = x.len();
    let period: i64 = 2 * half_period;
    let mut i: usize = 0;
    while i < n
        invariant
            0 <= i <= n,
            x@.len() == n,
            n == old(x)@.len(),
            1 <= half_period <= ANGLE_LIMIT,
            period == 2 * half_period,
            forall|k: int| i <= k < n ==> x@[k] == old(x)@[k],
            forall|k: int|
                0 <= k < n ==> -4 * ANGLE_LIMIT <= #[trigger] old(x)@[k] <= 4 * ANGLE_LIMIT,
            forall|k: int|
                0 <= k < i ==> #[trigger] x@[k] == old(x)@[k] as int % (2 * half_period as int),
            forall|k: int| 0 <= k < i ==> 0 <= #[trigger] x@[k] < period,
        decreases n - i,
    {
        let v: i64 = x[i];
        let r: i64 = v.checked_rem_euclid(period).unwrap();
        proof {
            lemma_mod_bound(v as int, period as int);
        }
        x.set(i, r);
        i = i + 1;
    }
}

} // verus!
