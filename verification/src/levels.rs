//! Synchronization-pulse level estimation over a demodulated sequence.

use vstd::prelude::*;

use vstd::arithmetic::div_mod::{lemma_div_pos_is_pos, lemma_div_nonincreasing};

use crate::as_ints;
use crate::ANGLE_LIMIT;

verus! {

/// Largest per-sample magnitude the level estimator accepts; together with
/// the sequence-length bound it keeps every window sum within `i64`.
pub const LEVEL_LIMIT: i64 = 0x8000_0000;

/// A pulse length lies strictly inside the length band.
pub open spec fn in_band(len: int, min_len: int, max_len: int) -> bool {
    min_len < len && len < max_len
}

/// The indices, in input order, of the pulses whose length lies strictly
/// inside the band.
pub open spec fn selected_locs(pulses: Seq<(i64, i64)>, min_len: int, max_len: int) -> Seq<int>
    decreases pulses.len(),
{
    if pulses.len() == 0 {
        Seq::empty()
    } else {
        let rest = selected_locs(pulses.drop_last(), min_len, max_len);
        if in_band(pulses.last().1 as int, min_len, max_len) {
            rest.push(pulses.len() - 1)
        } else {
            rest
        }
    }
}

/// The sum of a sequence of sample values.
pub open spec fn range_sum(s: Seq<int>) -> int
    decreases s.len(),
{
    if s.len() == 0 {
        0
    } else {
        range_sum(s.drop_last()) + s.last()
    }
}

/// The sum of the samples with indices in `[a, b)`.
pub open spec fn window_sum(demod: Seq<int>, a: int, b: int) -> int {
    range_sum(demod.subrange(a, b))
}

/// Selecting from one more pulse either appends its index or leaves the
/// selection unchanged.
pub proof fn lemma_selected_locs_take_step(
    pulses: Seq<(i64, i64)>,
    min_len: int,
    max_len: int,
    i: int,
)
    requires
        0 <= i < pulses.len(),
    ensures
        selected_locs(pulses.take(i + 1), min_len, max_len) == if in_band(
            pulses[i].1 as int,
            min_len,
            max_len,
        ) {
            selected_locs(pulses.take(i), min_len, max_len).push(i)
        } else {
            selected_locs(pulses.take(i), min_len, max_len)
        },
{
    let t = pulses.take(i + 1);
    assert(t.drop_last() =~= pulses.take(i));
    assert(t.last() == pulses[i]);
}

/// Every selected index points at a pulse of the input whose length lies in
/// the band.
pub proof fn lemma_selected_locs_in_range(pulses: Seq<(i64, i64)>, min_len: int, max_len: int)
    ensures
        forall|j: int|
            0 <= j < selected_locs(pulses, min_len, max_len).len() ==> {
                let loc = #[trigger] selected_locs(pulses, min_len, max_len)[j];
                0 <= loc < pulses.len() && in_band(pulses[loc].1 as int, min_len, max_len)
            },
    decreases pulses.len(),
{
    if pulses.len() > 0 {
        lemma_selected_locs_in_range(pulses.drop_last(), min_len, max_len);
        let rest = selected_locs(pulses.drop_last(), min_len, max_len);
        assert(forall|j: int|
            0 <= j < rest.len() ==> pulses.drop_last()[#[trigger] rest[j]] == pulses[rest[j]]);
    }
}

/// Selects every pulse whose length lies strictly inside `(min_len, max_len)`
/// and returns, in input order, the selected indices and the exact mean of
/// the demodulated samples over each pulse's guard-trimmed window
/// `[start + margin, start + length - margin)`, as a (sum, count) ratio. The
/// margin is `sample_freq_mhz`, used directly as a sample count.
///
/// A selected pulse whose trimmed window is empty or leaves the sequence is a
/// contract violation from the upstream pulse detector, excluded here rather
/// than handled.
pub fn fallback_vsync_loc_means_impl(
    demod: &Vec<i64>,
    pulses: &Vec<(i64, i64)>,
    sample_freq_mhz: i64,
    min_len: i64,
    max_len: i64,
) -> (r: (Vec<usize>, Vec<(i64, i64)>))
    requires
        0 <= sample_freq_mhz,
        demod@.len() <= 0x8000_0000,
        forall|k: int|
            0 <= k < demod@.len() ==> -LEVEL_LIMIT <= #[trigger] demod@[k] <= LEVEL_LIMIT,
        forall|j: int|
            0 <= j < pulses@.len() && in_band(
                (#[trigger] pulses@[j]).1 as int,
                min_len as int,
                max_len as int,
            ) ==> {
                let s = pulses@[j].0 as int;
                let l = pulses@[j].1 as int;
                0 <= s && s + sample_freq_mhz < s + l - sample_freq_mhz <= demod@.len()
            },
    ensures
        ({
            let sel = selected_locs(pulses@, min_len as int, max_len as int);
            let mg = sample_freq_mhz as int;
            &&& r.0@.map_values(|v: usize| v as int) == sel
            &&& r.1@.len() == sel.len()
            &&& forall|j: int|
                0 <= j < sel.len() ==> 0 <= #[trigger] sel[j] < pulses@.len() && in_band(
                    pulses@[sel[j]].1 as int,
                    min_len as int,
                    max_len as int,
                )
            &&& forall|j: int|
                0 <= j < sel.len() ==> {
                    let s = pulses@[sel[j]].0 as int;
                    let l = pulses@[sel[j]].1 as int;
                    (#[trigger] r.1@[j]).0 == window_sum(as_ints(demod@), s + mg, s + l - mg)
                        && r.1@[j].1 == l - 2 * mg
                }
        }),
{
    let ghost mg = sample_freq_mhz as int;
    let ghost ds = as_ints(demod@);
    let np: usize = pulses.len();
    let mut locs: Vec<usize> = Vec::new();
    let mut means: Vec<(i64, i64)> = Vec::new();
    let mut i: usize = 0;
    while i < np
        invariant
            0 <= i <= np,
            np == pulses@.len(),
            ds == as_ints(demod@),
            mg == sample_freq_mhz as int,
            0 <= sample_freq_mhz,
            demod@.len() <= 0x8000_0000,
            forall|k: int|
                0 <= k < demod@.len() ==> -LEVEL_LIMIT <= #[trigger] demod@[k] <= LEVEL_LIMIT,
            forall|j: int|
                0 <= j < pulses@.len() && in_band(
                    (#[trigger] pulses@[j]).1 as int,
                    min_len as int,
                    max_len as int,
                ) ==> {
                    let s = pulses@[j].0 as int;
                    let l = pulses@[j].1 as int;
                    0 <= s && s + sample_freq_mhz < s + l - sample_freq_mhz <= demod@.len()
                },
            locs@.map_values(|v: usize| v as int) == selected_locs(
                pulses@.take(i as int),
                min_len as int,
                max_len as int,
            ),
            means@.len() == locs@.len(),
            forall|j: int|
                0 <= j < means@.len() ==> {
                    let sel = selected_locs(pulses@.take(i as int), min_len as int, max_len as int);
                    let s = pulses@[sel[j]].0 as int;
                    let l = pulses@[sel[j]].1 as int;
                    (#[trigger] means@[j]).0 == window_sum(ds, s + mg, s + l - mg) && means@[j].1
                        == l - 2 * mg
                },
        decreases np - i,
    {
        let ghost sel_before = selected_locs(pulses@.take(i as int), min_len as int, max_len as int);
        proof {
            lemma_selected_locs_take_step(pulses@, min_len as int, max_len as int, i as int);
        }
        let pulse: (i64, i64) = pulses[i];
        let s0: i64 = pulse.0;
        let l0: i64 = pulse.1;
        if min_len < l0 && l0 < max_len {
            let a64: i64 = s0 + sample_freq_mhz;
            let b64: i64 = s0 + l0 - sample_freq_mhz;
            let a: usize = a64 as usize;
            let b: usize = b64 as usize;
            let mut sum: i64 = 0;
            let mut j: usize = a;
            while j < b
                invariant
                    a <= j <= b,
                    b <= demod@.len(),
                    ds == as_ints(demod@),
                    forall|k: int|
                        0 <= k < demod@.len() ==> -LEVEL_LIMIT <= #[trigger] demod@[k]
                            <= LEVEL_LIMIT,
                    demod@.len() <= 0x8000_0000,
                    sum == window_sum(ds, a as int, j as int),
                    -(j - a) * LEVEL_LIMIT <= sum <= (j - a) * LEVEL_LIMIT,
                decreases b - j,
            {
                proof {
                    assert(ds.subrange(a as int, j as int + 1).drop_last() =~= ds.subrange(
                        a as int,
                        j as int,
                    ));
                    assert(ds.subrange(a as int, j as int + 1).last() == demod@[j as int] as int);
                }
                sum = sum + demod[j];
                j = j + 1;
            }
            locs.push(i);
            means.push((sum, b64 - a64));
            proof {
                assert(locs@.map_values(|v: usize| v as int) =~= sel_before.push(i as int));
            }
        }
        i = i + 1;
    }
    proof {
        assert(pulses@.take(np as int) =~= pulses@);
        lemma_selected_locs_in_range(pulses@, min_len as int, max_len as int);
    }
    (locs, means)
}

/// Truncating integer division, as the host language's division operator
/// rounds it.
pub open spec fn div_trunc(a: int, b: int) -> int {
    if a == 0 {
        0
    } else if a > 0 && b > 0 {
        a / b
    } else if a < 0 && b < 0 {
        (-a) / (-b)
    } else if a < 0 {
        -((-a) / b)
    } else {
        -(a / (-b))
    }
}

/// Converts a raw frequency level to IRE units against the system's zero-IRE
/// frequency and hertz-per-IRE slope, rounding toward zero.
#[allow(nonstandard_style)]
pub fn _hz_to_ire(sys_params_hz_ire: i64, sys_params_ire0: i64, hz: i64, ire0: Option<i64>) -> (r:
    i64)
    requires
        sys_params_hz_ire != 0,
        -ANGLE_LIMIT <= sys_params_ire0 <= ANGLE_LIMIT,
        -ANGLE_LIMIT <= hz <= ANGLE_LIMIT,
        ire0 is Some ==> -ANGLE_LIMIT <= ire0.unwrap() <= ANGLE_LIMIT,
    ensures
        r == div_trunc(
            hz - (match ire0 {
                Some(v) => v,
                None => sys_params_ire0,
            }),
            sys_params_hz_ire as int,
        ),
{
    let zero: i64 = match ire0 {
        Some(v) => v,
        None => sys_params_ire0,
    };
    let num: i64 = hz - zero;
    proof {
        let a = num as int;
        let b = sys_params_hz_ire as int;
        let aa = if a < 0 { -a } else { a };
        let bb = if b < 0 { -b } else { b };
        lemma_div_pos_is_pos(aa, bb);
        lemma_div_nonincreasing(aa, bb);
    }
    num.checked_div(sys_params_hz_ire).unwrap()
}

/// Converts an IRE level to a raw frequency against the system's zero-IRE
/// frequency and hertz-per-IRE slope.
#[allow(nonstandard_style)]
pub fn _ire_to_hz(sys_params_ire0: i64, sys_params_hz_ire: i64, ire: i64) -> (r: i64)
    requires
        -ANGLE_LIMIT <= sys_params_ire0 <= ANGLE_LIMIT,
        -ANGLE_LIMIT <= sys_params_hz_ire * ire <= ANGLE_LIMIT,
    ensures
        r == sys_params_ire0 + sys_params_hz_ire * ire,
{
    sys_params_ire0 + sys_params_hz_ire * ire
}

} // verus!
