//! Fixed-point kernels for demodulating and conditioning sampled FM signals.
//!
//! The kernels operate on angle samples held in a caller-chosen fixed-point
//! scale: the caller picks how many integer units stand for the half period
//! of the angle domain (the angle `pi`), and every sequence element is a
//! signed count of those units. All transforms here are exact integer
//! arithmetic, so each function states precisely what it computes. The
//! floating-point edges of the pipeline (arctangent extraction, filtering by
//! an outside filter crate, the final scale from angle units to hertz) live
//! with the host, which converts between its samples and this fixed-point
//! domain.

use vstd::prelude::*;

pub mod demod;
pub mod diff;
pub mod filters;
pub mod levels;
pub mod phase;

verus! {

/// Largest magnitude, in fixed-point angle units, that the angle kernels
/// accept for their inputs; it leaves headroom in `i64` for the corrections
/// the kernels add.
pub const ANGLE_LIMIT: i64 = 0x1000_0000_0000_0000;

/// The mathematical values of a sequence of fixed-point samples.
pub open spec fn as_ints(s: Seq<i64>) -> Seq<int> {
    s.map_values(|v: i64| v as int)
}

/// How a kernel rejects an input that breaks its documented shape.
#[derive(Clone, Copy, Debug, PartialEq, Eq, Structural)]
pub enum KernelError {
    /// An angle kernel was handed an empty sequence.
    EmptyInput,
    /// A flat coefficient buffer does not hold exactly six coefficients
    /// for each stated second-order section.
    CoefficientLengthMismatch,
}

} // verus!
