//! What the agents of neighborhoods come to is decided by what is drawn
//! for them and by which cars are parked where: the length of a parked
//! car, which is drawn when it is seeded, plays no part.

use vstd::prelude::*;
use crate::demand::SpawnOverTime;
use crate::ids::{BuildingID, LaneID};
use crate::map::RoadMap;
use crate::parking::{ParkingSimState, Slot, all_cars_upto, cars_upto, owned_by};
use crate::scenario::spawn_fold;
use crate::seeding::same_but_length;
use crate::spawning::{AgentDraws, Spawned, first_unreserved};
use crate::trips::{ParkedCar, ParkingSpot};

verus! {

/// Two lists of cars hold the same cars in the same order, but for the
/// lengths of the cars.
pub open spec fn same_cars(a: Seq<ParkedCar>, b: Seq<ParkedCar>) -> bool {
    &&& a.len() == b.len()
    &&& forall|k: int| 0 <= k < a.len() ==> same_but_length(Some(#[trigger] a[k]), Some(b[k]))
}

/// Two rows of slots hold the same cars in the same slots, but for the
/// lengths of the cars.
pub open spec fn same_row(a: Seq<Slot>, b: Seq<Slot>) -> bool {
    &&& a.len() == b.len()
    &&& forall|i: int| 0 <= i < a.len() ==> same_but_length(#[trigger] a[i], b[i])
}

/// Two parking subsystems hold the same cars in the same spots, but for
/// the lengths of the cars.
pub open spec fn same_parking(a: &ParkingSimState, b: &ParkingSimState) -> bool {
    &&& a.lanes.len() == b.lanes.len()
    &&& forall|l: int| 0 <= l < a.lanes.len() ==> same_row((#[trigger] a.lanes[l])@, b.lanes[l]@)
}

/// Subsystems with the same spots, each with the same car or with none,
/// hold the same cars.
pub proof fn lemma_same_spots(a: &ParkingSimState, b: &ParkingSimState)
    requires
        a.lanes.len() == b.lanes.len(),
        forall|l: int| 0 <= l < a.lanes.len() ==> (#[trigger] a.lanes[l]).len() == b.lanes[l].len(),
        forall|spot: ParkingSpot|
            a.has_spot(spot) ==> same_but_length(#[trigger] a.at(spot), b.at(spot)),
    ensures
        same_parking(a, b),
{
    assert forall|l: int| 0 <= l < a.lanes.len() implies same_row(
        (#[trigger] a.lanes[l])@,
        b.lanes[l]@,
    ) by {
        assert forall|i: int| 0 <= i < a.lanes[l]@.len() implies same_but_length(
            #[trigger] a.lanes[l]@[i],
            b.lanes[l]@[i],
        ) by {
            let spot = ParkingSpot { lane: LaneID(l as usize), idx: i as usize };
            assert(a.has_spot(spot));
            assert(same_but_length(a.at(spot), b.at(spot)));
        }
    }
}

/// Rows that hold the same cars give the same cars, slot by slot.
pub proof fn lemma_same_row(a: Seq<Slot>, b: Seq<Slot>, n: int)
    requires
        same_row(a, b),
        0 <= n <= a.len(),
    ensures
        same_cars(cars_upto(a, n), cars_upto(b, n)),
    decreases n,
{
    if n > 0 {
        lemma_same_row(a, b, n - 1);
        assert(same_but_length(a[n - 1], b[n - 1]));
    }
}

/// Subsystems that hold the same cars give the same cars, lane by lane.
pub proof fn lemma_same_lanes(a: &ParkingSimState, b: &ParkingSimState, k: int)
    requires
        same_parking(a, b),
        0 <= k <= a.lanes.len(),
    ensures
        same_cars(all_cars_upto(a.lanes@, k), all_cars_upto(b.lanes@, k)),
    decreases k,
{
    if k > 0 {
        lemma_same_lanes(a, b, k - 1);
        assert(same_row(a.lanes[k - 1]@, b.lanes[k - 1]@));
        lemma_same_row(a.lanes[k - 1]@, b.lanes[k - 1]@, a.lanes[k - 1]@.len() as int);
    }
}

/// The same cars have the same cars of an owner.
pub proof fn lemma_same_owned(a: Seq<ParkedCar>, b: Seq<ParkedCar>, owner: BuildingID)
    requires
        same_cars(a, b),
    ensures
        same_cars(owned_by(a, owner), owned_by(b, owner)),
    decreases a.len(),
{
    if a.len() > 0 {
        assert(same_but_length(Some(a[a.len() - 1]), Some(b[b.len() - 1])));
        assert forall|k: int| 0 <= k < a.drop_last().len() implies same_but_length(
            Some(#[trigger] a.drop_last()[k]),
            Some(b.drop_last()[k]),
        ) by {
            assert(same_but_length(Some(a[k]), Some(b[k])));
        }
        lemma_same_owned(a.drop_last(), b.drop_last(), owner);
    }
}

/// Among the same cars the first that is not reserved is the same.
pub proof fn lemma_same_first(a: Seq<ParkedCar>, b: Seq<ParkedCar>, reserved: Set<usize>, n: int)
    requires
        same_cars(a, b),
        0 <= n <= a.len(),
    ensures
        same_but_length(first_unreserved(a, reserved, n), first_unreserved(b, reserved, n)),
    decreases n,
{
    if n > 0 {
        lemma_same_first(a, b, reserved, n - 1);
        assert(same_but_length(Some(a[n - 1]), Some(b[n - 1])));
    }
}

impl SpawnOverTime {
    /// The plan for an agent is the same on subsystems that hold the
    /// same cars.
    pub proof fn lemma_same_plan(
        &self,
        a: &ParkingSimState,
        b: &ParkingSimState,
        reserved: Set<usize>,
        map: &RoadMap,
        d: AgentDraws,
    )
        requires
            same_parking(a, b),
        ensures
            self.spec_plan(a, reserved, map, d) == self.spec_plan(b, reserved, map, d),
    {
        lemma_same_lanes(a, b, a.lanes.len() as int);
        lemma_same_owned(a.all_cars(), b.all_cars(), d.from_bldg);
        let owned_a = a.spec_parked_cars_by_owner(d.from_bldg);
        let owned_b = b.spec_parked_cars_by_owner(d.from_bldg);
        lemma_same_first(owned_a, owned_b, reserved, owned_a.len() as int);
    }

    /// The agents of a request come to the same on subsystems that hold
    /// the same cars, if the same is drawn for them.
    pub proof fn lemma_same_spawn(
        &self,
        a: &ParkingSimState,
        b: &ParkingSimState,
        map: &RoadMap,
        start: Spawned,
        draws: Seq<AgentDraws>,
        n: int,
    )
        requires
            same_parking(a, b),
        ensures
            self.spec_spawn(a, map, start, draws, n) == self.spec_spawn(b, map, start, draws, n),
        decreases n,
    {
        if n > 0 {
            self.lemma_same_spawn(a, b, map, start, draws, n - 1);
            let before = self.spec_spawn(a, map, start, draws, n - 1);
            self.lemma_same_plan(a, b, before.reserved, map, draws[n - 1]);
        }
    }
}

/// What the agents of neighborhoods come to is decided by what is drawn.
/// Two runs that draw the same for every agent, on parking subsystems
/// that hold the same cars in the same spots, schedule the same trips in
/// the same order, reserve the same cars and record the same warnings.
pub proof fn lemma_same_draws_same_trips(
    spawns: Seq<SpawnOverTime>,
    a: &ParkingSimState,
    b: &ParkingSimState,
    map: &RoadMap,
    start: Spawned,
    all_draws: Seq<Seq<AgentDraws>>,
    n: int,
)
    requires
        same_parking(a, b),
    ensures
        spawn_fold(spawns, a, map, start, all_draws, n) == spawn_fold(
            spawns,
            b,
            map,
            start,
            all_draws,
            n,
        ),
    decreases n,
{
    if n > 0 {
        lemma_same_draws_same_trips(spawns, a, b, map, start, all_draws, n - 1);
        spawns[n - 1].lemma_same_spawn(
            a,
            b,
            map,
            spawn_fold(spawns, a, map, start, all_draws, n - 1),
            all_draws[n - 1],
            all_draws[n - 1].len() as int,
        );
    }
}

} // verus!
