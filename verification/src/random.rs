//! The random stream, and the draws the demand generator makes from it.
//!
//! The generator itself is the xorshift generator of `rand_xorshift`; the
//! draws are those of `rand`. Nothing here says which value a draw gives:
//! the contracts state what holds of every value it can give.

use vstd::prelude::*;
use rand::distributions::Distribution;
use rand::distributions::WeightedIndex;
use rand::seq::SliceRandom;
use rand::Rng;
use rand::RngCore;
use rand::SeedableRng;
use rand_xorshift::XorShiftRng;
use crate::trips::{
    BIKE_MAX_SPEED, MAX_BIKE_LENGTH, MAX_CAR_LENGTH, MIN_BIKE_LENGTH, MIN_CAR_LENGTH, VehicleSpec,
    VehicleType,
};
use crate::units::{Distance, Speed, Tick};

verus! {

/// `rand_xorshift::XorShiftRng`, carried through as an opaque value.
#[verifier::external_type_specification]
#[verifier::external_body]
pub struct ExXorShiftRng(XorShiftRng);

/// `SeedableRng::from_seed` of `XorShiftRng`, on a seed of sixteen equal
/// bytes. Nothing is claimed of the generator that comes back.
#[verifier::external_body]
pub(crate) fn seeded_generator(seed: u8) -> XorShiftRng {
    XorShiftRng::from_seed([seed; 16])
}

/// `RngCore::next_u32` of `XorShiftRng`: the next word of the stream.
/// Nothing is claimed of the word.
#[verifier::external_body]
pub(crate) fn next_word(rng: &mut XorShiftRng) -> u32 {
    rng.next_u32()
}

/// `Rng::gen_range` on `u64`. The outside function panics unless
/// `low < high`; its result lies in `[low, high)`.
#[verifier::external_body]
pub(crate) fn draw_in_range(rng: &mut XorShiftRng, low: u64, high: u64) -> (r: u64)
    requires
        low < high,
    ensures
        low <= r < high,
{
    rng.gen_range(low, high)
}

/// `Rng::gen_ratio`. The outside function panics if the denominator is
/// zero or the numerator exceeds it; it always gives `true` for a chance
/// of one and `false` for a chance of zero.
#[verifier::external_body]
pub(crate) fn draw_ratio(rng: &mut XorShiftRng, numerator: u32, denominator: u32) -> (b: bool)
    requires
        0 < denominator,
        numerator <= denominator,
    ensures
        numerator == denominator ==> b,
        numerator == 0 ==> !b,
{
    rng.gen_ratio(numerator, denominator)
}

/// `SliceRandom::choose` on a slice: `None` exactly when the slice is
/// empty, else one of its elements.
#[verifier::external_body]
pub(crate) fn choose_one<'a, T>(items: &'a Vec<T>, rng: &mut XorShiftRng) -> (r: Option<&'a T>)
    ensures
        r is None <==> items.len() == 0,
        r matches Some(x) ==> items@.contains(*x),
{
    items.as_slice().choose(rng)
}

/// `SliceRandom::shuffle` on a slice: the elements are swapped among
/// themselves, so the slice holds what it held, in some order.
#[verifier::external_body]
pub(crate) fn shuffle_in_place<T>(items: &mut Vec<T>, rng: &mut XorShiftRng)
    ensures
        final(items)@.to_multiset() == old(items)@.to_multiset(),
{
    items.as_mut_slice().shuffle(rng)
}

/// `WeightedIndex::new` on the weights, then `Distribution::sample` of the
/// distribution it gives. `new` fails when there is no weight or all are
/// zero, and adds the weights up in `usize`; `sample` gives the index of a
/// weight that is not zero.
#[verifier::external_body]
pub(crate) fn draw_weighted(weights: &Vec<usize>, rng: &mut XorShiftRng) -> (r: Option<usize>)
    requires
        total_weight(weights@) <= usize::MAX,
    ensures
        r is Some <==> total_weight(weights@) > 0,
        r matches Some(i) ==> i < weights.len() && weights[i as int] > 0,
{
    WeightedIndex::new(weights).ok().map(|d| d.sample(rng))
}

/// The sum of the weights.
pub open spec fn total_weight(weights: Seq<usize>) -> nat
    decreases weights.len(),
{
    if weights.len() == 0 {
        0
    } else {
        total_weight(weights.drop_last()) + weights.last() as nat
    }
}

/// Derives an independent child stream from `base_rng`. The parent
/// advances by one word; the child is seeded from that word alone, so
/// what is later drawn from the child does not move the parent.
pub fn fork_rng(base_rng: &mut XorShiftRng) -> XorShiftRng {
    let word = next_word(base_rng);
    seeded_generator((word & 0xff) as u8)
}

/// A time drawn from `[low, high)`.
pub fn rand_time(rng: &mut XorShiftRng, low: Tick, high: Tick) -> (t: Tick)
    requires
        low.0 < high.0,
    ensures
        low.0 <= t.0 < high.0,
{
    Tick(draw_in_range(rng, low.0, high.0))
}

/// A length drawn from `[low, high)`.
pub fn rand_dist(rng: &mut XorShiftRng, low: Distance, high: Distance) -> (d: Distance)
    requires
        low.0 < high.0,
    ensures
        low.0 <= d.0 < high.0,
{
    Distance(draw_in_range(rng, low.0, high.0))
}

/// Whether `v` can come out of `rand_car`.
pub open spec fn is_random_car(v: VehicleSpec) -> bool {
    &&& v.vehicle_type == VehicleType::Car
    &&& MIN_CAR_LENGTH <= v.length.0 < MAX_CAR_LENGTH
    &&& v.max_speed is None
}

/// Whether `v` can come out of `rand_bike`.
pub open spec fn is_random_bike(v: VehicleSpec) -> bool {
    &&& v.vehicle_type == VehicleType::Bike
    &&& MIN_BIKE_LENGTH <= v.length.0 < MAX_BIKE_LENGTH
    &&& v.max_speed == Some(Speed(BIKE_MAX_SPEED))
}

/// A car of a random length, with no limit on its speed.
pub fn rand_car(rng: &mut XorShiftRng) -> (v: VehicleSpec)
    ensures
        is_random_car(v),
{
    let length = rand_dist(rng, Distance(MIN_CAR_LENGTH), Distance(MAX_CAR_LENGTH));
    VehicleSpec { vehicle_type: VehicleType::Car, length, max_speed: None }
}

/// A bike of a random length, with the top speed of a bike.
pub fn rand_bike(rng: &mut XorShiftRng) -> (v: VehicleSpec)
    ensures
        is_random_bike(v),
{
    let length = rand_dist(rng, Distance(MIN_BIKE_LENGTH), Distance(MAX_BIKE_LENGTH));
    VehicleSpec { vehicle_type: VehicleType::Bike, length, max_speed: Some(Speed(BIKE_MAX_SPEED)) }
}

/// A distribution over `0, 1, 2, ..`: the chance of `i` is in proportion
/// to `weights[i]`.
#[derive(Clone, Debug)]
pub struct WeightedUsizeChoice {
    pub weights: Vec<usize>,
}

impl WeightedUsizeChoice {
    /// There is something to draw: some weight is not zero, and the
    /// weights can be added up.
    pub open spec fn wf(&self) -> bool {
        0 < total_weight(self.weights@) <= usize::MAX
    }

    /// Whether a draw can be made.
    pub fn is_valid(&self) -> (ok: bool)
        ensures
            ok == self.wf(),
    {
        let mut total: usize = 0;
        let mut k: usize = 0;
        while k < self.weights.len()
            invariant
                k <= self.weights.len(),
                total == total_weight(self.weights@.take(k as int)),
            decreases self.weights.len() - k,
        {
            proof {
                assert(self.weights@.take(k + 1).drop_last() == self.weights@.take(k as int));
                lemma_total_weight_grows(self.weights@, k + 1);
            }
            if self.weights[k] > usize::MAX - total {
                return false;
            }
            total = total + self.weights[k];
            k += 1;
        }
        proof {
            assert(self.weights@.take(k as int) == self.weights@);
        }
        total > 0
    }

    /// Draws a value: an index of a weight that is not zero.
    pub fn sample(&self, rng: &mut XorShiftRng) -> (n: usize)
        requires
            self.wf(),
        ensures
            n < self.weights.len(),
            self.weights[n as int] > 0,
    {
        match draw_weighted(&self.weights, rng) {
            Some(n) => n,
            None => 0,
        }
    }
}

/// The sum of a prefix is at most the sum of the whole.
pub proof fn lemma_total_weight_grows(weights: Seq<usize>, k: int)
    requires
        0 <= k <= weights.len(),
    ensures
        total_weight(weights.take(k)) <= total_weight(weights),
    decreases weights.len() - k,
{
    if k < weights.len() {
        assert(weights.take(k + 1).drop_last() == weights.take(k));
        lemma_total_weight_grows(weights, k + 1);
    } else {
        assert(weights.take(k) == weights);
    }
}

} // verus!
