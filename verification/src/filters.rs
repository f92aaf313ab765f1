//! Layout and validation of second-order-section filter cascades.
//!
//! A collaborator supplies a cascade as a flat buffer of six coefficients per
//! section, in `(b0, b1, b2, a0, a1, a2)` order. The grouping into sections
//! is exact and element-kind-agnostic; running the sections over samples is
//! the host's floating-point work.

use vstd::prelude::*;

use vstd::arithmetic::div_mod::{lemma_fundamental_div_mod, lemma_fundamental_div_mod_converse};

use crate::KernelError;

verus! {

/// One second-order stage of an IIR cascade: feed-forward coefficients
/// `b0, b1, b2` and feedback coefficients `a0, a1, a2`.
#[derive(Clone, Copy, Debug, PartialEq)]
pub struct FilterSection<T> {
    pub b0: T,
    pub b1: T,
    pub b2: T,
    pub a0: T,
    pub a1: T,
    pub a2: T,
}

/// Groups a flat coefficient buffer into `order` filter sections, six
/// consecutive coefficients per section, rejecting any buffer whose length is
/// not exactly `order * 6` before any section is built.
pub fn from_scipy_dyn_slice<T: Copy>(order: usize, sos: &Vec<T>) -> (r: Result<
    Vec<FilterSection<T>>,
    KernelError,
>)
    ensures
        match r {
            Ok(sections) => sos@.len() == order * 6 && sections@.len() == order && (forall|i: int|
                0 <= i < order ==> {
                    let sec = #[trigger] sections@[i];
                    &&& sec.b0 == sos@[6 * i]
                    &&& sec.b1 == sos@[6 * i + 1]
                    &&& sec.b2 == sos@[6 * i + 2]
                    &&& sec.a0 == sos@[6 * i + 3]
                    &&& sec.a1 == sos@[6 * i + 4]
                    &&& sec.a2 == sos@[6 * i + 5]
                }),
            Err(e) => e == KernelError::CoefficientLengthMismatch && sos@.len() != order * 6,
        },
{
    let n: usize = sos.len();
    if n % 6 != 0 || n / 6 != order {
        proof {
            if sos@.len() == order * 6 {
                lemma_fundamental_div_mod_converse(n as int, 6, order as int, 0);
            }
        }
        return Err(KernelError::CoefficientLengthMismatch);
    }
    proof {
        lemma_fundamental_div_mod(n as int, 6);
    }
    let mut sections: Vec<FilterSection<T>> = Vec::new();
    let mut i: usize = 0;
    while i < order
        invariant
            0 <= i <= order,
            n == sos@.len(),
            n == order * 6,
            sections@.len() == i,
            forall|k: int|
                0 <= k < i ==> {
                    let sec = #[trigger] sections@[k];
                    &&& sec.b0 == sos@[6 * k]
                    &&& sec.b1 == sos@[6 * k + 1]
                    &&& sec.b2 == sos@[6 * k + 2]
                    &&& sec.a0 == sos@[6 * k + 3]
                    &&& sec.a1 == sos@[6 * k + 4]
                    &&& sec.a2 == sos@[6 * k + 5]
                },
        decreases order - i,
    {
        proof {
            assert(6 * (i + 1) <= 6 * order) by (nonlinear_arith)
                requires
                    i + 1 <= order,
            ;
        }
        let base: usize = 6 * i;
        let sec = FilterSection {
            b0: sos[base],
            b1: sos[base + 1],
            b2: sos[base + 2],
            a0: sos[base + 3],
            a1: sos[base + 4],
            a2: sos[base + 5],
        };
        sections.push(sec);
        i = i + 1;
    }
    Ok(sections)
}

} // verus!
