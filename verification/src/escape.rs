//! What the escape-time test says of one point of the plane.

use vstd::prelude::*;
use crate::scalar::Scalar;

verus! {

/// The escape radius of an evaluation that names none.
pub const DEFAULT_ESCAPE_RADIUS: u32 = 2;

/// The escape radius with which an image is rendered: wider than the
/// default, so that the continuous index runs smoothly.
pub const RENDER_ESCAPE_RADIUS: u32 = 8;

/// The outcome of the escape-time test.
#[derive(Clone, Copy, Debug, PartialEq, Eq, Structural)]
pub enum EscapeResult {
    /// The orbit left the escape radius; the continuous index says how soon.
    Escaped(Scalar),
    /// The orbit stayed inside for the whole budget, or the point lies in a
    /// region known to be interior.
    Bounded,
}

impl EscapeResult {
    /// A continuous index is a finite number that is not below zero.
    pub open spec fn well_formed(self) -> bool {
        match self {
            EscapeResult::Escaped(index) => index.ordinal(),
            EscapeResult::Bounded => true,
        }
    }

    /// The index kept for an escape at a step: the smooth one where it is
    /// a finite number not below zero, else the plain step, else zero.
    pub open spec fn guarded_index(smooth: Scalar, step: Scalar) -> Scalar {
        if smooth.ordinal() {
            smooth
        } else if step.ordinal() {
            step
        } else {
            Scalar { bits: 0 }
        }
    }

    /// The result for an orbit that escaped. `smooth` is the normalized
    /// iteration count, `step` the plain count of the step at which the orbit
    /// left. The logarithms behind `smooth` are undefined on some orbits; it
    /// is kept only where it came out finite and not below zero, and the
    /// plain step stands in for it otherwise.
    pub fn escaped(smooth: Scalar, step: Scalar) -> (result: EscapeResult)
        ensures
            result == EscapeResult::Escaped(EscapeResult::guarded_index(smooth, step)),
            result.well_formed(),
    {
        if smooth.is_ordinal() {
            EscapeResult::Escaped(smooth)
        } else if step.is_ordinal() {
            EscapeResult::Escaped(step)
        } else {
            EscapeResult::Escaped(Scalar { bits: 0 })
        }
    }

    /// Whether the point counts as a member of the set.
    pub fn is_bounded(&self) -> (b: bool)
        ensures
            b == (*self == EscapeResult::Bounded),
    {
        match self {
            EscapeResult::Bounded => true,
            EscapeResult::Escaped(_) => false,
        }
    }

    /// Whether the result is one that `escaped` hands out or `Bounded`.
    pub fn is_well_formed(&self) -> (b: bool)
        ensures
            b == self.well_formed(),
    {
        match self {
            EscapeResult::Bounded => true,
            EscapeResult::Escaped(index) => index.is_ordinal(),
        }
    }
}

/// The escape radius of an evaluation: the one named, or the default.
pub open spec fn radius_of(escape_point: Option<u32>) -> u32 {
    match escape_point {
        Some(value) => value,
        None => DEFAULT_ESCAPE_RADIUS,
    }
}

/// The escape radius of an evaluation: the one named, or the default.
pub fn escape_radius(escape_point: Option<u32>) -> (radius: u32)
    ensures
        radius == radius_of(escape_point),
{
    match escape_point {
        Some(value) => value,
        None => DEFAULT_ESCAPE_RADIUS,
    }
}

} // verus!
