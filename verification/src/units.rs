//! Discrete measures: simulated time in ticks, lengths in centimetres,
//! speeds in centimetres per second, and chances as a ratio.

use vstd::prelude::*;

verus! {

/// Simulated time, as a count of ticks. One step of the simulation advances
/// time by one tick, which stands for a tenth of a second.
#[derive(Clone, Copy, Debug, PartialEq, Eq, Hash, PartialOrd, Ord, Structural)]
pub struct Tick(pub u64);

/// The number of ticks in one simulated second.
pub const TICKS_PER_SECOND: u64 = 10;

/// A length in centimetres.
#[derive(Clone, Copy, Debug, PartialEq, Eq, Hash, PartialOrd, Ord, Structural)]
pub struct Distance(pub u64);

/// A speed in centimetres per second.
#[derive(Clone, Copy, Debug, PartialEq, Eq, Hash, PartialOrd, Ord, Structural)]
pub struct Speed(pub u64);

/// A chance of `numerator` in `denominator`.
#[derive(Clone, Copy, Debug, PartialEq, Eq, Structural)]
pub struct Probability {
    pub numerator: u32,
    pub denominator: u32,
}

impl Tick {
    pub open spec fn spec_zero() -> Tick {
        Tick(0)
    }

    /// The start of simulated time.
    #[verifier::when_used_as_spec(spec_zero)]
    pub fn zero() -> (t: Tick)
        ensures
            t == Tick(0),
    {
        Tick(0)
    }
}

impl Probability {
    /// A chance is valid when it lies between never and always.
    pub open spec fn wf(self) -> bool {
        0 < self.denominator && self.numerator <= self.denominator
    }

    pub fn never() -> (p: Probability)
        ensures
            p.wf(),
            p.numerator == 0,
    {
        Probability { numerator: 0, denominator: 1 }
    }

    pub fn always() -> (p: Probability)
        ensures
            p.wf(),
            p.numerator == p.denominator,
    {
        Probability { numerator: 1, denominator: 1 }
    }

    /// Whether the ratio is a valid chance.
    pub fn is_valid(&self) -> (ok: bool)
        ensures
            ok == self.wf(),
    {
        0 < self.denominator && self.numerator <= self.denominator
    }
}

} // verus!
