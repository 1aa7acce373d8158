//! The parking allocator: places new vehicles in the free parking spots of
//! a neighborhood, as near to the buildings that ask for them as can be.

use vstd::prelude::*;
use rand_xorshift::XorShiftRng;
use std::collections::BTreeSet;
use crate::allot::{
    Seeded, filled_as, filled_one, lemma_filled_join, lemma_filled_push, lemma_serve_all_prefix,
    lemma_serve_building_shift, members, seeded_for, serve_all, serve_building, serve_request,
    spots_of, sum_draws,
};
use crate::ids::{BuildingID, LaneID, RoadID};
use crate::map::{LaneType, RoadMap};
use crate::parking::{ParkingSimState, Slot, free_upto};
use crate::random::{WeightedUsizeChoice, fork_rng, shuffle_in_place};
use crate::report::{Note, Timer, Warning, count_no_room};
use crate::search::{
    OpenSpots, find_spot_near_building, first_road_with_spot, gave_up, lemma_total_update,
    roads_in,
};
use crate::sim::Sim;
use crate::trips::{MAX_CAR_LENGTH, MIN_CAR_LENGTH, ParkingSpot, VehicleType};

verus! {

broadcast use {
    vstd::std_specs::hash::group_hash_axioms,
    vstd::std_specs::btree::group_btree_axioms,
};

/// The free spots on those of the first `n` lanes of `lanes` that are
/// parking lanes, lane by lane.
pub open spec fn free_on_lanes(
    parking: &ParkingSimState,
    map: &RoadMap,
    lanes: Seq<LaneID>,
    n: int,
) -> Seq<ParkingSpot>
    decreases n,
{
    if n <= 0 {
        Seq::empty()
    } else if map.lanes[lanes[n - 1].0 as int].lane_type == LaneType::Parking {
        free_on_lanes(parking, map, lanes, n - 1) + parking.spec_free_spots(lanes[n - 1])
    } else {
        free_on_lanes(parking, map, lanes, n - 1)
    }
}

/// The free spots on the parking lanes of a road, in both directions.
pub open spec fn free_on_road(parking: &ParkingSimState, map: &RoadMap, road: RoadID) -> Seq<
    ParkingSpot,
> {
    let lanes = map.roads[road.0 as int].all_lanes();
    free_on_lanes(parking, map, lanes, lanes.len() as int)
}

/// How many free spots the first `k` roads of `roads` have.
pub open spec fn free_in_roads(
    parking: &ParkingSimState,
    map: &RoadMap,
    roads: Seq<RoadID>,
    k: int,
) -> nat
    decreases k,
{
    if k <= 0 {
        0
    } else {
        free_in_roads(parking, map, roads, k - 1) + free_on_road(parking, map, roads[k - 1]).len()
    }
}

/// A spot of the table is good when it is free, and lies on a lane of the
/// road under which the table has it.
pub open spec fn spot_ok(parking: &ParkingSimState, map: &RoadMap, s: ParkingSpot, r: int) -> bool {
    &&& parking.spec_is_free(s)
    &&& s.lane.0 < map.lanes.len()
    &&& map.lanes[s.lane.0 as int].parent.0 == r
}

/// The table holds good spots only, none of them twice, and only under
/// roads of the neighborhood `roads`.
pub open spec fn table_ok(
    open: &OpenSpots,
    parking: &ParkingSimState,
    map: &RoadMap,
    roads: Seq<RoadID>,
) -> bool {
    &&& open.wf(map)
    &&& forall|r: int, j: int|
        0 <= r < open.stacks().len() && 0 <= j < open.stacks()[r].len() ==> spot_ok(
            parking,
            map,
            #[trigger] open.stacks()[r][j],
            r,
        )
    &&& forall|r: int|
        0 <= r < open.stacks().len() ==> (#[trigger] open.stacks()[r]).no_duplicates()
    &&& forall|r: int|
        0 <= r < open.stacks().len() && (#[trigger] open.stacks()[r]).len() > 0 ==> roads.contains(
            RoadID(r as usize),
        )
}

/// The free spots among the first `n` of a lane lie on that lane, are
/// free, and come in the order of their slots.
pub proof fn lemma_free_upto(slots: Seq<Slot>, lane: LaneID, n: int)
    requires
        0 <= n <= slots.len(),
        n <= usize::MAX,
    ensures
        forall|j: int|
            0 <= j < free_upto(slots, lane, n).len() ==> {
                let s = #[trigger] free_upto(slots, lane, n)[j];
                s.lane == lane && s.idx < n && slots[s.idx as int] is None
            },
        forall|i: int, j: int|
            0 <= i < j < free_upto(slots, lane, n).len() ==> (#[trigger] free_upto(
                slots,
                lane,
                n,
            )[i]).idx < (#[trigger] free_upto(slots, lane, n)[j]).idx,
        free_upto(slots, lane, n).len() <= n,
    decreases n,
{
    if n > 0 {
        lemma_free_upto(slots, lane, n - 1);
        let before = free_upto(slots, lane, n - 1);
        let now = free_upto(slots, lane, n);
        assert forall|j: int| 0 <= j < now.len() implies ({
            let s = #[trigger] now[j];
            s.lane == lane && s.idx < n && slots[s.idx as int] is None
        }) by {
            if j < before.len() {
                assert(now[j] == before[j]);
            }
        }
        assert forall|i: int, j: int| 0 <= i < j < now.len() implies (#[trigger] now[i]).idx < (
        #[trigger] now[j]).idx by {
            assert(now[i] == before[i]);
            if j < before.len() {
                assert(now[j] == before[j]);
            }
        }
    }
}

/// The free spots collected from lanes of a road are good spots of that
/// road, none of them twice.
pub proof fn lemma_free_on_lanes(
    parking: &ParkingSimState,
    map: &RoadMap,
    lanes: Seq<LaneID>,
    road: RoadID,
    n: int,
)
    requires
        crate::map::children_of(lanes, map.lanes@, road),
        lanes.no_duplicates(),
        parking.lanes.len() == map.lanes.len(),
        0 <= n <= lanes.len(),
    ensures
        forall|j: int|
            0 <= j < free_on_lanes(parking, map, lanes, n).len() ==> {
                let s = #[trigger] free_on_lanes(parking, map, lanes, n)[j];
                spot_ok(parking, map, s, road.0 as int) && exists|k: int|
                    0 <= k < n && lanes[k] == s.lane
            },
        free_on_lanes(parking, map, lanes, n).no_duplicates(),
    decreases n,
{
    if n > 0 {
        lemma_free_on_lanes(parking, map, lanes, road, n - 1);
        let rest = free_on_lanes(parking, map, lanes, n - 1);
        let lane = lanes[n - 1];
        if map.lanes[lane.0 as int].lane_type == LaneType::Parking {
            let slots = parking.lanes[lane.0 as int]@;
            let here = parking.spec_free_spots(lane);
            lemma_free_upto(slots, lane, slots.len() as int);
            assert forall|i: int, j: int| 0 <= i < rest.len() && 0 <= j < here.len() implies rest[i]
                != here[j] by {
                let k = choose|k: int| 0 <= k < n - 1 && lanes[k] == rest[i].lane;
                assert(lanes[k] != lanes[n - 1]);
            }
            vstd::seq_lib::lemma_no_dup_in_concat(rest, here);
            let all = rest + here;
            assert forall|j: int| 0 <= j < all.len() implies ({
                let s = #[trigger] all[j];
                spot_ok(parking, map, s, road.0 as int) && exists|k: int|
                    0 <= k < n && lanes[k] == s.lane
            }) by {
                if j < rest.len() {
                    let k = choose|k: int| 0 <= k < n - 1 && lanes[k] == rest[j].lane;
                    assert(0 <= k < n && lanes[k] == all[j].lane);
                } else {
                    let s = here[j - rest.len()];
                    assert(all[j] == s);
                    assert(0 <= n - 1 < n && lanes[n - 1] == s.lane);
                }
            }
        } else {
            assert forall|j: int| 0 <= j < rest.len() implies ({
                let s = #[trigger] rest[j];
                spot_ok(parking, map, s, road.0 as int) && exists|k: int|
                    0 <= k < n && lanes[k] == s.lane
            }) by {
                let k = choose|k: int| 0 <= k < n - 1 && lanes[k] == rest[j].lane;
                assert(0 <= k < n && lanes[k] == rest[j].lane);
            }
        }
    }
}

/// Two sequences that hold the same things as often as each other are as
/// long as each other, have the same members, and have duplicates
/// together or not at all.
pub proof fn lemma_same_elements<A>(a: Seq<A>, b: Seq<A>)
    requires
        a.to_multiset() == b.to_multiset(),
    ensures
        a.len() == b.len(),
        forall|x: A| a.contains(x) <==> b.contains(x),
        a.no_duplicates() ==> b.no_duplicates(),
{
    a.to_multiset_ensures();
    b.to_multiset_ensures();
    assert forall|x: A| a.contains(x) <==> b.contains(x) by {
        vstd::seq_lib::to_multiset_contains(a, x);
        vstd::seq_lib::to_multiset_contains(b, x);
    }
    if a.no_duplicates() {
        a.lemma_multiset_has_no_duplicates();
        b.lemma_multiset_has_no_duplicates_conv();
    }
}

/// The free spots on the parking lanes of a road, in both directions.
pub fn collect_free_spots(sim: &Sim, map: &RoadMap, road: RoadID) -> (spots: Vec<ParkingSpot>)
    requires
        map.wf(),
        map.has_road(road),
    ensures
        spots@ == free_on_road(&sim.parking_state, map, road),
{
    let r = map.get_r(road);
    let ghost lanes = r.all_lanes();
    let mut spots: Vec<ParkingSpot> = Vec::new();
    let mut i: usize = 0;
    while i < r.children_forwards.len()
        invariant
            map.wf(),
            *r == map.roads[road.0 as int],
            r.wf(map.roads.len() as int, map.lanes@),
            lanes == r.all_lanes(),
            i <= r.children_forwards.len(),
            spots@ == free_on_lanes(&sim.parking_state, map, lanes, i as int),
        decreases r.children_forwards.len() - i,
    {
        let lane = r.children_forwards[i];
        assert(lanes[i as int] == lane);
        if map.get_l(lane).lane_type == LaneType::Parking {
            let mut more = sim.get_free_spots(lane);
            spots.append(&mut more);
        }
        i += 1;
    }
    let ghost fwd = r.children_forwards.len() as int;
    let mut j: usize = 0;
    while j < r.children_backwards.len()
        invariant
            map.wf(),
            *r == map.roads[road.0 as int],
            r.wf(map.roads.len() as int, map.lanes@),
            lanes == r.all_lanes(),
            fwd == r.children_forwards.len(),
            j <= r.children_backwards.len(),
            spots@ == free_on_lanes(&sim.parking_state, map, lanes, fwd + j),
        decreases r.children_backwards.len() - j,
    {
        let lane = r.children_backwards[j];
        assert(lanes[fwd + j] == lane);
        if map.get_l(lane).lane_type == LaneType::Parking {
            let mut more = sim.get_free_spots(lane);
            spots.append(&mut more);
        }
        j += 1;
    }
    spots
}

/// What one pass of seeding did.
#[derive(Clone, Copy, Debug, PartialEq, Eq, Structural)]
pub struct SeedingReport {
    /// How many vehicles were placed.
    pub placed: usize,
    /// How many vehicles the buildings asked for.
    pub requested: usize,
    /// How many free spots the neighborhood had before the pass.
    pub total_spots: u128,
}

/// Whether `c` in `spot` is a car that a pass of seeding can have put
/// there: a random car with an identifier from `lo` up to `hi`, owned by
/// one of `owners`.
pub open spec fn is_seeded_car(
    c: crate::trips::ParkedCar,
    spot: ParkingSpot,
    owners: Seq<BuildingID>,
    lo: int,
    hi: int,
) -> bool {
    &&& c.spot == spot
    &&& c.owner is Some
    &&& owners.contains(c.owner.unwrap())
    &&& lo <= c.vehicle.id.0 < hi
    &&& c.vehicle.vehicle_type == VehicleType::Car
    &&& MIN_CAR_LENGTH <= c.vehicle.length.0 < MAX_CAR_LENGTH
    &&& c.vehicle.max_speed is None
}

/// The table of the free spots of a neighborhood: for each of its roads,
/// the free spots on the road's parking lanes, shuffled with a stream
/// forked from `base_rng`. Also counts the spots.
pub fn build_open_spots(
    sim: &Sim,
    neighborhoods_roads: &Vec<RoadID>,
    base_rng: &mut XorShiftRng,
    map: &RoadMap,
) -> (out: (OpenSpots, u128))
    requires
        map.wf(),
        sim.fits(map),
        roads_in(neighborhoods_roads@, map.roads.len() as int),
        neighborhoods_roads@.no_duplicates(),
    ensures
        table_ok(&out.0, &sim.parking_state, map, neighborhoods_roads@),
        out.1 == out.0.total(),
        out.1 == free_in_roads(
            &sim.parking_state,
            map,
            neighborhoods_roads@,
            neighborhoods_roads.len() as int,
        ),
        forall|r: int|
            0 <= r < map.roads.len() ==> ((#[trigger] out.0.member()[r])
                <==> neighborhoods_roads@.contains(RoadID(r as usize))),
        forall|r: int|
            0 <= r < map.roads.len() && out.0.member()[r] ==> (#[trigger] out.0.stacks()[r]).to_multiset()
                == free_on_road(&sim.parking_state, map, RoadID(r as usize)).to_multiset(),
        forall|r: int|
            0 <= r < map.roads.len() && !out.0.member()[r] ==> (#[trigger] out.0.stacks()[r]).len()
                == 0,
{
    let mut open = OpenSpots::new(map);
    let mut total_spots: u128 = 0;
    let mut k: usize = 0;
    while k < neighborhoods_roads.len()
        invariant
            map.wf(),
            sim.fits(map),
            roads_in(neighborhoods_roads@, map.roads.len() as int),
            neighborhoods_roads@.no_duplicates(),
            k <= neighborhoods_roads.len(),
            table_ok(&open, &sim.parking_state, map, neighborhoods_roads@),
            total_spots == open.total(),
            total_spots == free_in_roads(&sim.parking_state, map, neighborhoods_roads@, k as int),
            total_spots <= k * usize::MAX,
            forall|r: int|
                0 <= r < map.roads.len() ==> ((#[trigger] open.member()[r])
                    <==> neighborhoods_roads@.take(k as int).contains(RoadID(r as usize))),
            forall|r: int|
                0 <= r < map.roads.len() && open.member()[r] ==> (
                #[trigger] open.stacks()[r]).to_multiset() == free_on_road(
                    &sim.parking_state,
                    map,
                    RoadID(r as usize),
                ).to_multiset(),
            forall|r: int|
                0 <= r < map.roads.len() && !open.member()[r] ==> (#[trigger] open.stacks()[r]).len()
                    == 0,
        decreases neighborhoods_roads.len() - k,
    {
        let id = neighborhoods_roads[k];
        let ghost before = open;
        let ghost done = neighborhoods_roads@.take(k as int);
        let mut spots = collect_free_spots(sim, map, id);
        let ghost collected = spots@;
        proof {
            assert(!done.contains(id)) by {
                if done.contains(id) {
                    let j = choose|j: int| 0 <= j < done.len() && done[j] == id;
                    assert(neighborhoods_roads@[j] == neighborhoods_roads@[k as int]);
                }
            }
            assert(!open.member()[id.0 as int]);
            assert(open.stacks()[id.0 as int].len() == 0);
            assert((k + 1) * usize::MAX <= usize::MAX * usize::MAX) by (nonlinear_arith)
                requires
                    k + 1 <= usize::MAX,
            ;
            assert(k * usize::MAX + usize::MAX == (k + 1) * usize::MAX) by (nonlinear_arith);
            assert(usize::MAX * usize::MAX <= u128::MAX) by (nonlinear_arith)
                requires
                    usize::MAX <= 0xffff_ffff_ffff_ffff,
            ;
        }
        total_spots = total_spots + spots.len() as u128;
        let mut forked_rng = fork_rng(base_rng);
        shuffle_in_place(&mut spots, &mut forked_rng);
        open.per_road.insert(id.0, spots);
        proof {
            let road = map.roads[id.0 as int];
            lemma_free_on_lanes(
                &sim.parking_state,
                map,
                road.all_lanes(),
                id,
                road.all_lanes().len() as int,
            );
            lemma_same_elements(collected, spots@);
            assert(open.stacks() =~= before.stacks().update(id.0 as int, spots@));
            lemma_total_update(before.stacks(), id.0 as int, spots@, before.stacks().len() as int);
            assert(neighborhoods_roads@.take(k + 1) == done.push(id));
            assert forall|r: int| 0 <= r < map.roads.len() implies ((#[trigger] open.member()[r])
                <==> neighborhoods_roads@.take(k + 1).contains(RoadID(r as usize))) by {
                if r == id.0 {
                    assert(done.push(id)[k as int] == id);
                } else {
                    assert(open.member()[r] == before.member()[r]);
                    if done.contains(RoadID(r as usize)) {
                        let j = choose|j: int| 0 <= j < done.len() && done[j] == RoadID(r as usize);
                        assert(done.push(id)[j] == RoadID(r as usize));
                    }
                    if done.push(id).contains(RoadID(r as usize)) {
                        let j = choose|j: int|
                            0 <= j < done.push(id).len() && done.push(id)[j] == RoadID(r as usize);
                        assert(j < done.len());
                        assert(done[j] == RoadID(r as usize));
                    }
                }
            }
            assert forall|r: int, j: int|
                0 <= r < open.stacks().len() && 0 <= j < open.stacks()[r].len() implies spot_ok(
                &sim.parking_state,
                map,
                #[trigger] open.stacks()[r][j],
                r,
            ) by {
                if r == id.0 {
                    assert(spots@.contains(spots@[j]));
                    assert(collected.contains(spots@[j]));
                    let i = choose|i: int| 0 <= i < collected.len() && collected[i] == spots@[j];
                    assert(spot_ok(&sim.parking_state, map, collected[i], id.0 as int));
                } else {
                    assert(open.stacks()[r] == before.stacks()[r]);
                }
            }
            assert forall|r: int| 0 <= r < open.stacks().len() implies (
            #[trigger] open.stacks()[r]).no_duplicates() by {
                if r != id.0 {
                    assert(open.stacks()[r] == before.stacks()[r]);
                }
            }
            assert forall|r: int|
                0 <= r < open.stacks().len() && (#[trigger] open.stacks()[r]).len()
                    > 0 implies neighborhoods_roads@.contains(RoadID(r as usize)) by {
                if r != id.0 {
                    assert(open.stacks()[r] == before.stacks()[r]);
                } else {
                    assert(neighborhoods_roads@[k as int] == id);
                }
            }
            assert forall|r: int| 0 <= r < map.roads.len() && open.member()[r] implies (
            #[trigger] open.stacks()[r]).to_multiset() == free_on_road(
                &sim.parking_state,
                map,
                RoadID(r as usize),
            ).to_multiset() by {
                if r != id.0 {
                    assert(open.stacks()[r] == before.stacks()[r]);
                    assert(open.member()[r] == before.member()[r]);
                }
            }
            assert forall|r: int| 0 <= r < map.roads.len() && !open.member()[r] implies (
            #[trigger] open.stacks()[r]).len() == 0 by {
                assert(open.stacks()[r] == before.stacks()[r]);
                assert(open.member()[r] == before.member()[r]);
            }
        }
        k += 1;
    }
    proof {
        assert(neighborhoods_roads@.take(k as int) == neighborhoods_roads@);
    }
    (open, total_spots)
}

/// The parking subsystem of `after` differs from that of `before` in the
/// one spot `spot`, and nothing else of the simulation differs.
pub open spec fn parked_one(before: &Sim, after: &Sim, spot: ParkingSpot) -> bool {
    &&& after.car_id_counter == before.car_id_counter + 1
    &&& after.parking_state.num_parked == before.parking_state.num_parked + 1
    &&& after.parking_state.lanes.len() == before.parking_state.lanes.len()
    &&& forall|l: int|
        0 <= l < before.parking_state.lanes.len() ==> (#[trigger] after.parking_state.lanes[l]).len()
            == before.parking_state.lanes[l].len()
    &&& forall|other: ParkingSpot|
        before.parking_state.has_spot(other) && other != spot ==> after.parking_state.at(other)
            == before.parking_state.at(other)
    &&& same_but_parking(before, after)
}

/// Nothing but the parking subsystem and the count of vehicles differs
/// between `before` and `after`; the random stream of the simulation is
/// among what stays.
pub open spec fn same_but_parking(before: &Sim, after: &Sim) -> bool {
    &&& after.rng == before.rng
    &&& after.time == before.time
    &&& after.ped_id_counter == before.ped_id_counter
    &&& after.debug == before.debug
    &&& after.driving_state == before.driving_state
    &&& after.walking_state == before.walking_state
    &&& after.queued_trips == before.queued_trips
    &&& after.realized_trips == before.realized_trips
}

/// Serves one request of building `b` for a vehicle: looks for a spot
/// near the building and, if there is one, parks a new random car there,
/// owned by the building. If there is none, two warnings are recorded,
/// one of the search and one that names the building, and nothing else
/// changes. Says whether a car was placed.
pub fn place_car(
    sim: &mut Sim,
    open_spots: &mut OpenSpots,
    b: BuildingID,
    neighborhoods_roads: &Vec<RoadID>,
    base_rng: &mut XorShiftRng,
    map: &RoadMap,
    timer: &mut Timer,
    total_spots: u128,
    most_each: usize,
    buildings: usize,
    new_cars: usize,
) -> (placed: bool)
    requires
        map.wf(),
        map.has_building(b),
        old(sim).wf(),
        old(sim).fits(map),
        old(sim).car_id_counter < usize::MAX,
        table_ok(old(open_spots), &old(sim).parking_state, map, neighborhoods_roads@),
    ensures
        final(sim).wf(),
        final(sim).fits(map),
        table_ok(final(open_spots), &final(sim).parking_state, map, neighborhoods_roads@),
        final(open_spots).member() == old(open_spots).member(),
        final(timer).notes == old(timer).notes,
        match first_road_with_spot(map, old(open_spots).stacks(), old(open_spots).member(), b) {
            Some(r) => {
                let spot = old(open_spots).stacks()[r.0 as int].last();
                &&& placed
                &&& r.0 < map.roads.len()
                &&& old(open_spots).stacks()[r.0 as int].len() > 0
                &&& final(open_spots).stacks() == old(open_spots).stacks().update(
                    r.0 as int,
                    old(open_spots).stacks()[r.0 as int].drop_last(),
                )
                &&& final(open_spots).total() + 1 == old(open_spots).total()
                &&& parked_one(old(sim), final(sim), spot)
                &&& final(sim).parking_state.at(spot) is Some
                &&& is_seeded_car(
                    final(sim).parking_state.at(spot).unwrap(),
                    spot,
                    seq![b],
                    old(sim).car_id_counter as int,
                    old(sim).car_id_counter + 1,
                )
                &&& final(timer).warnings == old(timer).warnings
            },
            None => {
                &&& !placed
                &&& *final(sim) == *old(sim)
                &&& final(open_spots).stacks() == old(open_spots).stacks()
                &&& final(timer).warnings@ == old(timer).warnings@.push(
                    gave_up(map, old(open_spots).stacks(), old(open_spots).member(), b),
                ).push(Warning::NoRoomToSeed { building: b, total_spots, most_each, buildings, new_cars })
            },
        },
{
    let mut forked_rng = fork_rng(base_rng);
    let ghost table = *open_spots;
    let ghost before = *sim;
    match find_spot_near_building(b, open_spots, map, timer) {
        Some(spot) => {
            let ghost r = first_road_with_spot(map, table.stacks(), table.member(), b).unwrap().0 as int;
            proof {
                assert(table.stacks()[r][table.stacks()[r].len() - 1] == spot);
                assert(spot_ok(&sim.parking_state, map, spot, r));
                lemma_total_update(
                    table.stacks(),
                    r,
                    table.stacks()[r].drop_last(),
                    table.stacks().len() as int,
                );
            }
            let car = crate::random::rand_car(&mut forked_rng);
            sim.seed_parked_car(car, spot, Some(b));
            proof {
                assert(seq![b][0] == b);
                assert forall|x: int, j: int|
                    0 <= x < open_spots.stacks().len() && 0 <= j
                        < open_spots.stacks()[x].len() implies spot_ok(
                    &sim.parking_state,
                    map,
                    #[trigger] open_spots.stacks()[x][j],
                    x,
                ) by {
                    let s = open_spots.stacks()[x][j];
                    assert(open_spots.stacks()[x] == open_spots.stacks()[x]);
                    assert(table.stacks()[x] == table.stacks()[x]);
                    if x == r {
                        assert(s == table.stacks()[r][j]);
                        assert(table.stacks()[r][j] != table.stacks()[r][table.stacks()[r].len() - 1]);
                    } else {
                        assert(s == table.stacks()[x][j]);
                        assert(spot_ok(&before.parking_state, map, table.stacks()[x][j], x));
                    }
                    assert(spot_ok(&before.parking_state, map, s, x));
                    assert(s != spot);
                    assert(sim.parking_state.at(s) == before.parking_state.at(s));
                }
                assert forall|x: int| 0 <= x < open_spots.stacks().len() implies (
                #[trigger] open_spots.stacks()[x]).no_duplicates() by {
                    assert(open_spots.stacks()[x] == open_spots.stacks()[x]);
                    assert(table.stacks()[x] == table.stacks()[x]);
                    assert(table.stacks()[x].no_duplicates());
                }
                assert forall|x: int|
                    0 <= x < open_spots.stacks().len() && (#[trigger] open_spots.stacks()[x]).len()
                        > 0 implies neighborhoods_roads@.contains(RoadID(x as usize)) by {
                    assert(open_spots.stacks()[x] == open_spots.stacks()[x]);
                    assert(table.stacks()[x] == table.stacks()[x]);
                    assert(table.stacks()[x].len() > 0);
                }
            }
            true
        },
        None => {
            timer.warn(Warning::NoRoomToSeed { building: b, total_spots, most_each, buildings, new_cars });
            proof {
                assert forall|x: int, j: int|
                    0 <= x < open_spots.stacks().len() && 0 <= j
                        < open_spots.stacks()[x].len() implies spot_ok(
                    &sim.parking_state,
                    map,
                    #[trigger] open_spots.stacks()[x][j],
                    x,
                ) by {
                    assert(open_spots.stacks()[x] == open_spots.stacks()[x]);
                    assert(table.stacks()[x] == table.stacks()[x]);
                    assert(open_spots.stacks()[x][j] == table.stacks()[x][j]);
                }
                assert forall|x: int| 0 <= x < open_spots.stacks().len() implies (
                #[trigger] open_spots.stacks()[x]).no_duplicates() by {
                    assert(open_spots.stacks()[x] == open_spots.stacks()[x]);
                    assert(table.stacks()[x] == table.stacks()[x]);
                    assert(table.stacks()[x].no_duplicates());
                }
                assert forall|x: int|
                    0 <= x < open_spots.stacks().len() && (#[trigger] open_spots.stacks()[x]).len()
                        > 0 implies neighborhoods_roads@.contains(RoadID(x as usize)) by {
                    assert(open_spots.stacks()[x] == open_spots.stacks()[x]);
                    assert(table.stacks()[x] == table.stacks()[x]);
                    assert(table.stacks()[x].len() > 0);
                }
            }
            false
        },
    }
}

/// One more warning is one more warning of no room exactly if it is one
/// of no room.
pub proof fn lemma_count_no_room_push(warnings: Seq<Warning>, w: Warning)
    ensures
        count_no_room(warnings.push(w)) == count_no_room(warnings) + if w is NoRoomToSeed {
            1nat
        } else {
            0nat
        },
{
    assert(warnings.push(w).drop_last() == warnings);
}

/// What holds between the start of a pass of seeding and any point in
/// it: `new_cars` cars were placed, each on a spot that was free, on a
/// road of the neighborhood; each other spot is as it was; the table
/// holds the free spots that are left.
pub open spec fn seeding_progress(
    before: &Sim,
    now: &Sim,
    open: &OpenSpots,
    map: &RoadMap,
    roads: Seq<RoadID>,
    owners: Seq<BuildingID>,
    new_cars: int,
    total_spots: int,
) -> bool {
    &&& now.wf()
    &&& now.fits(map)
    &&& table_ok(open, &now.parking_state, map, roads)
    &&& same_but_parking(before, now)
    &&& 0 <= new_cars
    &&& now.car_id_counter == before.car_id_counter + new_cars
    &&& now.parking_state.num_parked == before.parking_state.num_parked + new_cars
    &&& new_cars + open.total() == total_spots
    &&& placed_only(before, now, map, roads, owners)
}

/// The parking subsystem of `now` has the spots of `before`. Each spot
/// that held a vehicle holds it still; each spot that was free is free,
/// or holds a car seeded for one of `owners` on a road of `roads`.
pub open spec fn placed_only(
    before: &Sim,
    now: &Sim,
    map: &RoadMap,
    roads: Seq<RoadID>,
    owners: Seq<BuildingID>,
) -> bool {
    &&& now.parking_state.lanes.len() == before.parking_state.lanes.len()
    &&& forall|l: int|
        0 <= l < before.parking_state.lanes.len() ==> (#[trigger] now.parking_state.lanes[l]).len()
            == before.parking_state.lanes[l].len()
    &&& forall|spot: ParkingSpot|
        before.parking_state.has_spot(spot) && (#[trigger] before.parking_state.at(spot)) is Some
            ==> now.parking_state.at(spot) == before.parking_state.at(spot)
    &&& forall|spot: ParkingSpot|
        before.parking_state.has_spot(spot) && before.parking_state.at(spot) is None && (
        #[trigger] now.parking_state.at(spot)) is Some ==> is_seeded_car(
            now.parking_state.at(spot).unwrap(),
            spot,
            owners,
            before.car_id_counter as int,
            now.car_id_counter as int,
        ) && spot.lane.0 < map.lanes.len() && roads.contains(map.lanes[spot.lane.0 as int].parent)
}

/// What is placed over one stretch and over the next is placed over
/// both: for buildings of `owners` over the first and for the building
/// `b`, which is one of them, over the second.
pub proof fn lemma_placed_only_trans(
    a: &Sim,
    b: &Sim,
    c: &Sim,
    map: &RoadMap,
    roads: Seq<RoadID>,
    owners: Seq<BuildingID>,
    building: BuildingID,
)
    requires
        placed_only(a, b, map, roads, owners),
        placed_only(b, c, map, roads, seq![building]),
        owners.contains(building),
        a.car_id_counter <= b.car_id_counter <= c.car_id_counter,
    ensures
        placed_only(a, c, map, roads, owners),
{
    assert forall|spot: ParkingSpot|
        a.parking_state.has_spot(spot) && (#[trigger] a.parking_state.at(spot))
            is Some implies c.parking_state.at(spot) == a.parking_state.at(spot) by {
        assert(b.parking_state.has_spot(spot));
        assert(b.parking_state.at(spot) == a.parking_state.at(spot));
    }
    assert forall|spot: ParkingSpot|
        a.parking_state.has_spot(spot) && a.parking_state.at(spot) is None && (
        #[trigger] c.parking_state.at(spot)) is Some implies is_seeded_car(
        c.parking_state.at(spot).unwrap(),
        spot,
        owners,
        a.car_id_counter as int,
        c.car_id_counter as int,
    ) && spot.lane.0 < map.lanes.len() && roads.contains(
        map.lanes[spot.lane.0 as int].parent,
    ) by {
        assert(b.parking_state.has_spot(spot));
        if b.parking_state.at(spot) is Some {
            assert(c.parking_state.at(spot) == b.parking_state.at(spot));
        } else {
            let x = c.parking_state.at(spot).unwrap();
            assert(is_seeded_car(
                x,
                spot,
                seq![building],
                b.car_id_counter as int,
                c.car_id_counter as int,
            ));
            let k = choose|k: int| 0 <= k < seq![building].len() && seq![building][k] == x.owner.unwrap();
            assert(x.owner.unwrap() == building);
        }
    }
}

/// Serves the requests of one building for `n_cars` vehicles, one after
/// the other, each by `place_car`. Says how many cars were placed; for
/// each of the others a warning names the building. `most_each` is the
/// most cars that a building can ask for in this pass, `buildings` the
/// number of buildings that the pass serves, `new_cars` the number of
/// cars that it has placed before.
pub fn seed_building(
    sim: &mut Sim,
    open_spots: &mut OpenSpots,
    b: BuildingID,
    n_cars: usize,
    neighborhoods_roads: &Vec<RoadID>,
    base_rng: &mut XorShiftRng,
    map: &RoadMap,
    timer: &mut Timer,
    total_spots: u128,
    most_each: usize,
    buildings: usize,
    new_cars: usize,
) -> (placed: usize)
    requires
        map.wf(),
        map.has_building(b),
        old(sim).wf(),
        old(sim).fits(map),
        table_ok(old(open_spots), &old(sim).parking_state, map, neighborhoods_roads@),
        old(sim).car_id_counter + n_cars <= usize::MAX,
        new_cars + n_cars <= usize::MAX,
    ensures
        final(sim).wf(),
        final(sim).fits(map),
        table_ok(final(open_spots), &final(sim).parking_state, map, neighborhoods_roads@),
        final(open_spots).member() == old(open_spots).member(),
        ({
            let end = serve_building(
                map,
                old(open_spots).member(),
                (Seeded {
                    stacks: old(open_spots).stacks(),
                    filled: Seq::empty(),
                    warnings: old(timer).warnings@,
                }),
                b,
                n_cars as int,
                total_spots,
                most_each,
                buildings,
                new_cars as int,
            );
            &&& final(open_spots).stacks() == end.stacks
            &&& final(timer).warnings@ == end.warnings
            &&& placed == end.filled.len()
            &&& filled_as(old(sim), final(sim), end.filled)
        }),
        placed == n_cars || first_road_with_spot(
            map,
            final(open_spots).stacks(),
            final(open_spots).member(),
            b,
        ) is None,
        placed <= n_cars,
        placed + count_no_room(final(timer).warnings@) == n_cars + count_no_room(
            old(timer).warnings@,
        ),
        final(open_spots).total() + placed == old(open_spots).total(),
        same_but_parking(old(sim), final(sim)),
        placed_only(old(sim), final(sim), map, neighborhoods_roads@, seq![b]),
        final(sim).car_id_counter == old(sim).car_id_counter + placed,
        final(sim).parking_state.num_parked == old(sim).parking_state.num_parked + placed,
        old(timer).warnings@.len() <= final(timer).warnings@.len(),
        final(timer).warnings@.subrange(0, old(timer).warnings@.len() as int) == old(timer).warnings@,
        final(timer).notes == old(timer).notes,
{
    let ghost roads = neighborhoods_roads@;
    let ghost owners = seq![b];
    let ghost warned = old(timer).warnings@;
    let ghost total = open_spots.total();
    let ghost member = open_spots.member();
    let ghost start = Seeded {
        stacks: open_spots.stacks(),
        filled: Seq::empty(),
        warnings: timer.warnings@,
    };
    let ghost cur = start;
    let mut placed: usize = 0;
    let mut j: usize = 0;
    proof {
        assert(filled_as(old(sim), sim, cur.filled));
        assert(timer.warnings@.subrange(0, warned.len() as int) == warned);
        assert(owners[0] == b);
    }
    while j < n_cars
        invariant
            map.wf(),
            map.has_building(b),
            roads == neighborhoods_roads@,
            owners == seq![b],
            warned == old(timer).warnings@,
            total == old(open_spots).total(),
            old(sim).car_id_counter + n_cars <= usize::MAX,
            new_cars + n_cars <= usize::MAX,
            placed <= j <= n_cars,
            member == old(open_spots).member(),
            start == (Seeded {
                stacks: old(open_spots).stacks(),
                filled: Seq::empty(),
                warnings: old(timer).warnings@,
            }),
            cur == serve_building(
                map,
                member,
                start,
                b,
                j as int,
                total_spots,
                most_each,
                buildings,
                new_cars as int,
            ),
            cur.stacks == open_spots.stacks(),
            cur.warnings == timer.warnings@,
            cur.filled.len() == placed,
            filled_as(old(sim), sim, cur.filled),
            placed == j || first_road_with_spot(map, open_spots.stacks(), member, b) is None,
            open_spots.member() == old(open_spots).member(),
            seeding_progress(
                old(sim),
                sim,
                open_spots,
                map,
                roads,
                owners,
                placed as int,
                total as int,
            ),
            placed + count_no_room(timer.warnings@) == j + count_no_room(warned),
            warned.len() <= timer.warnings@.len(),
            timer.warnings@.subrange(0, warned.len() as int) == warned,
            timer.notes == old(timer).notes,
        decreases n_cars - j,
    {
        let ghost mid = *sim;
        let ghost table = *open_spots;
        let ghost warned_mid = timer.warnings@;
        let was_placed = place_car(
            sim,
            open_spots,
            b,
            neighborhoods_roads,
            base_rng,
            map,
            timer,
            total_spots,
            most_each,
            buildings,
            new_cars + placed,
        );
        proof {
            let found = first_road_with_spot(map, table.stacks(), table.member(), b);
            if was_placed {
                let r = found.unwrap().0 as int;
                let spot = table.stacks()[r].last();
                assert(table.stacks()[r][table.stacks()[r].len() - 1] == spot);
                assert(spot_ok(&mid.parking_state, map, spot, r));
                assert(roads.contains(RoadID(r as usize)));
                assert(map.lanes[spot.lane.0 as int].parent == RoadID(r as usize));
                assert(owners.contains(b));
                assert(old(sim).parking_state.has_spot(spot));
                assert(old(sim).parking_state.at(spot) is None) by {
                    if old(sim).parking_state.at(spot) is Some {
                        assert(mid.parking_state.at(spot) == old(sim).parking_state.at(spot));
                    }
                }
                assert forall|s: ParkingSpot|
                    old(sim).parking_state.has_spot(s) && (#[trigger] old(sim).parking_state.at(s))
                        is Some implies sim.parking_state.at(s) == old(sim).parking_state.at(
                    s,
                ) by {
                    assert(mid.parking_state.has_spot(s));
                    assert(mid.parking_state.at(s) == old(sim).parking_state.at(s));
                }
                assert forall|s: ParkingSpot|
                    old(sim).parking_state.has_spot(s) && old(sim).parking_state.at(s) is None && (
                    #[trigger] sim.parking_state.at(s)) is Some implies is_seeded_car(
                    sim.parking_state.at(s).unwrap(),
                    s,
                    owners,
                    old(sim).car_id_counter as int,
                    sim.car_id_counter as int,
                ) && s.lane.0 < map.lanes.len() && roads.contains(
                    map.lanes[s.lane.0 as int].parent,
                ) by {
                    assert(mid.parking_state.has_spot(s));
                    if s != spot {
                        assert(sim.parking_state.at(s) == mid.parking_state.at(s));
                    }
                }
            } else {
                lemma_count_no_room_push(warned_mid, gave_up(map, table.stacks(), table.member(), b));
                lemma_count_no_room_push(
                    warned_mid.push(gave_up(map, table.stacks(), table.member(), b)),
                    Warning::NoRoomToSeed {
                        building: b,
                        total_spots,
                        most_each,
                        buildings,
                        new_cars: (new_cars + placed) as usize,
                    },
                );
            }
            let next = serve_request(
                map,
                member,
                cur,
                b,
                total_spots,
                most_each,
                buildings,
                new_cars as int,
            );
            if was_placed {
                let r = found.unwrap().0 as int;
                let spot = table.stacks()[r].last();
                let car = sim.parking_state.at(spot).unwrap();
                assert(seq![b].contains(car.owner.unwrap()));
                let x = choose|x: int| 0 <= x < seq![b].len() && seq![b][x] == car.owner.unwrap();
                assert(car.owner == Some(b));
                assert(seeded_for(car, spot, b, mid.car_id_counter as int));
                assert(mid.parking_state.has_spot(spot));
                assert(mid.parking_state.at(spot) is None);
                assert(filled_one(&mid, sim, (b, spot), 0));
                assert(seq![(b, spot)][0] == (b, spot));
                assert(spots_of(seq![(b, spot)])[0] == spot);
                assert forall|s: ParkingSpot|
                    mid.parking_state.has_spot(s) && mid.parking_state.at(s) is None && (
                    #[trigger] sim.parking_state.at(s)) is Some implies spots_of(
                    seq![(b, spot)],
                ).contains(s) by {
                    if s != spot {
                        assert(sim.parking_state.at(s) == mid.parking_state.at(s));
                    }
                }
                assert(filled_as(&mid, sim, seq![(b, spot)]));
                lemma_filled_push(old(sim), &mid, sim, cur.filled, (b, spot));
                assert(table.stacks()[r] == table.stacks()[r]);
            }
            assert(next.stacks == open_spots.stacks());
            assert(next.warnings == timer.warnings@);
            cur = next;
            assert(timer.warnings@.subrange(0, warned.len() as int) =~= warned);
        }
        if was_placed {
            placed = placed + 1;
        }
        j += 1;
    }
    placed
}

/// The stack of the road with the number `r` in a table made for the
/// roads `roads`: the free spots of the road in some order, if the road
/// is one of `roads`, and nothing if it is not.
pub open spec fn stack_made(
    parking: &ParkingSimState,
    map: &RoadMap,
    roads: Seq<RoadID>,
    stack: Seq<ParkingSpot>,
    r: int,
) -> bool {
    if roads.contains(RoadID(r as usize)) {
        stack.to_multiset() == free_on_road(parking, map, RoadID(r as usize)).to_multiset()
    } else {
        stack.len() == 0
    }
}

/// What a pass of seeding comes to, where `table` is the table of free
/// spots as it was shuffled and `draws` holds the number of cars that
/// each building was given to ask for. Each draw is one that the
/// distribution `weights` can give; the report's request is their sum.
/// The table holds for each road of `roads` its free spots in some
/// order. The buildings are served in their order, each with its
/// requests one after the other; what they come to are the cars that
/// are parked in `after`, the warnings that were added, and the number
/// that the report gives as placed.
pub open spec fn seeded(
    before: &Sim,
    after: &Sim,
    map: &RoadMap,
    weights: Seq<usize>,
    owners: Seq<BuildingID>,
    roads: Seq<RoadID>,
    warned_before: Seq<Warning>,
    warned_after: Seq<Warning>,
    report: SeedingReport,
    draws: Seq<usize>,
    table: Seq<Seq<ParkingSpot>>,
) -> bool {
    let end = serve_all(
        map,
        members(map, roads),
        Seeded { stacks: table, filled: Seq::empty(), warnings: warned_before },
        owners,
        draws,
        owners.len() as int,
        report.total_spots,
        (weights.len() - 1) as usize,
    );
    &&& draws.len() == owners.len()
    &&& forall|i: int|
        0 <= i < draws.len() ==> (#[trigger] draws[i]) < weights.len() && weights[draws[i] as int]
            > 0
    &&& report.requested == sum_draws(draws, draws.len() as int)
    &&& table.len() == map.roads.len()
    &&& forall|r: int|
        0 <= r < map.roads.len() ==> stack_made(
            &before.parking_state,
            map,
            roads,
            #[trigger] table[r],
            r,
        )
    &&& report.placed == end.filled.len()
    &&& warned_after == end.warnings
    &&& filled_as(before, after, end.filled)
}

/// Two slots hold nothing, or the same car but for its length.
pub open spec fn same_but_length(x: Slot, y: Slot) -> bool {
    match (x, y) {
        (None, None) => true,
        (Some(c), Some(d)) => {
            &&& c.spot == d.spot
            &&& c.owner == d.owner
            &&& c.vehicle.id == d.vehicle.id
            &&& c.vehicle.vehicle_type == d.vehicle.vehicle_type
            &&& c.vehicle.max_speed == d.vehicle.max_speed
        },
        _ => false,
    }
}

/// What a pass of seeding leaves is decided by what it draws. Two passes
/// from the same state that draw the same counts and shuffle the table
/// the same way report the same, record the same warnings, and leave
/// every spot with the same car or with none: the cars differ at most in
/// their lengths, which are drawn as well.
pub proof fn lemma_same_draws_same_parking(
    before: &Sim,
    one: &Sim,
    other: &Sim,
    map: &RoadMap,
    weights: Seq<usize>,
    owners: Seq<BuildingID>,
    roads: Seq<RoadID>,
    warned_before: Seq<Warning>,
    warned_one: Seq<Warning>,
    warned_other: Seq<Warning>,
    report_one: SeedingReport,
    report_other: SeedingReport,
    draws: Seq<usize>,
    table: Seq<Seq<ParkingSpot>>,
)
    requires
        seeded(
            before,
            one,
            map,
            weights,
            owners,
            roads,
            warned_before,
            warned_one,
            report_one,
            draws,
            table,
        ),
        seeded(
            before,
            other,
            map,
            weights,
            owners,
            roads,
            warned_before,
            warned_other,
            report_other,
            draws,
            table,
        ),
        report_one.total_spots == report_other.total_spots,
    ensures
        report_one == report_other,
        warned_one == warned_other,
        one.car_id_counter == other.car_id_counter,
        forall|spot: ParkingSpot|
            before.parking_state.has_spot(spot) ==> same_but_length(
                #[trigger] one.parking_state.at(spot),
                other.parking_state.at(spot),
            ),
        crate::decided::same_parking(&one.parking_state, &other.parking_state),
{
    let end = serve_all(
        map,
        members(map, roads),
        Seeded { stacks: table, filled: Seq::empty(), warnings: warned_before },
        owners,
        draws,
        owners.len() as int,
        report_one.total_spots,
        (weights.len() - 1) as usize,
    );
    let filled = end.filled;
    assert forall|spot: ParkingSpot| before.parking_state.has_spot(spot) implies same_but_length(
        #[trigger] one.parking_state.at(spot),
        other.parking_state.at(spot),
    ) by {
        if before.parking_state.at(spot) is Some {
            assert(one.parking_state.at(spot) == before.parking_state.at(spot));
            assert(other.parking_state.at(spot) == before.parking_state.at(spot));
        } else if one.parking_state.at(spot) is Some {
            assert(spots_of(filled).contains(spot));
            let k = choose|k: int| 0 <= k < spots_of(filled).len() && spots_of(filled)[k] == spot;
            assert(filled_one(before, one, filled[k], k));
            assert(filled_one(before, other, filled[k], k));
        } else if other.parking_state.at(spot) is Some {
            assert(spots_of(filled).contains(spot));
            let k = choose|k: int| 0 <= k < spots_of(filled).len() && spots_of(filled)[k] == spot;
            assert(filled_one(before, one, filled[k], k));
        }
    }
    assert forall|spot: ParkingSpot| one.parking_state.has_spot(spot) implies same_but_length(
        #[trigger] one.parking_state.at(spot),
        other.parking_state.at(spot),
    ) by {
        assert(before.parking_state.has_spot(spot));
    }
    crate::decided::lemma_same_spots(&one.parking_state, &other.parking_state);
}

/// The roads of a map with `n` roads whose numbers are in `set`, in the
/// order of their identifiers.
pub open spec fn roads_upto(set: Set<usize>, n: int) -> Seq<RoadID>
    decreases n,
{
    if n <= 0 {
        Seq::empty()
    } else if set.contains((n - 1) as usize) {
        roads_upto(set, n - 1).push(RoadID((n - 1) as usize))
    } else {
        roads_upto(set, n - 1)
    }
}

/// The roads of a set are roads of the map, each once, and they are the
/// roads of the map whose numbers the set holds.
pub proof fn lemma_roads_upto(set: Set<usize>, n: int)
    requires
        0 <= n <= usize::MAX,
    ensures
        roads_in(roads_upto(set, n), n),
        roads_upto(set, n).no_duplicates(),
        forall|r: usize|
            r < n ==> (roads_upto(set, n).contains(RoadID(r)) <==> #[trigger] set.contains(r)),
    decreases n,
{
    if n > 0 {
        lemma_roads_upto(set, n - 1);
        let before = roads_upto(set, n - 1);
        let now = roads_upto(set, n);
        assert forall|r: usize| r < n implies (now.contains(RoadID(r)) <==> #[trigger] set.contains(
            r,
        )) by {
            if now.contains(RoadID(r)) {
                let k = choose|k: int| 0 <= k < now.len() && now[k] == RoadID(r);
                if k < before.len() {
                    assert(before[k] == RoadID(r));
                    assert(before[k].0 < n - 1);
                }
            }
            if set.contains(r) {
                if r == n - 1 {
                    assert(now[before.len() as int] == RoadID(r));
                } else {
                    assert(before.contains(RoadID(r)));
                    let k = choose|k: int| 0 <= k < before.len() && before[k] == RoadID(r);
                    assert(now[k] == RoadID(r));
                }
            }
        }
    }
}

/// The roads of the neighborhood, in the order of their identifiers.
pub fn roads_in_order(roads: &BTreeSet<usize>, map: &RoadMap) -> (ordered: Vec<RoadID>)
    ensures
        ordered@ == roads_upto(roads@, map.roads.len() as int),
{
    let mut ordered: Vec<RoadID> = Vec::new();
    let mut r: usize = 0;
    while r < map.roads.len()
        invariant
            r <= map.roads.len(),
            ordered@ == roads_upto(roads@, r as int),
        decreases map.roads.len() - r,
    {
        if roads.contains(&r) {
            ordered.push(RoadID(r));
        }
        r += 1;
    }
    ordered
}

/// Seeds parked cars in a neighborhood. Each building of
/// `owner_buildings` asks for as many cars as a draw from
/// `cars_per_building` says, and finds its spots on the roads of
/// `neighborhoods_roads`, which are taken in the order of their
/// identifiers. A note records how many cars were asked for and how many
/// were placed.
pub fn seed_parked_cars(
    sim: &mut Sim,
    cars_per_building: &WeightedUsizeChoice,
    owner_buildings: &Vec<BuildingID>,
    neighborhoods_roads: &BTreeSet<usize>,
    base_rng: &mut XorShiftRng,
    map: &RoadMap,
    timer: &mut Timer,
) -> (report: SeedingReport)
    requires
        map.wf(),
        old(sim).wf(),
        old(sim).fits(map),
        cars_per_building.wf(),
        forall|i: int|
            0 <= i < owner_buildings.len() ==> map.has_building(#[trigger] owner_buildings[i]),
        old(sim).car_id_counter + owner_buildings.len() * cars_per_building.weights.len()
            <= usize::MAX,
    ensures
        final(sim).wf(),
        final(sim).fits(map),
        exists|draws: Seq<usize>, table: Seq<Seq<ParkingSpot>>|
            #[trigger] seeded(
                old(sim),
                final(sim),
                map,
                cars_per_building.weights@,
                owner_buildings@,
                roads_upto(neighborhoods_roads@, map.roads.len() as int),
                old(timer).warnings@,
                final(timer).warnings@,
                report,
                draws,
                table,
            ),
        same_but_parking(old(sim), final(sim)),
        placed_only(old(sim), final(sim), map, roads_upto(neighborhoods_roads@, map.roads.len() as int), owner_buildings@),
        final(sim).car_id_counter == old(sim).car_id_counter + report.placed,
        final(sim).parking_state.num_parked == old(sim).parking_state.num_parked + report.placed,
        report.placed + count_no_room(final(timer).warnings@) == report.requested + count_no_room(
            old(timer).warnings@,
        ),
        report.placed <= report.total_spots,
        report.placed <= report.requested,
        report.total_spots == free_in_roads(
            &old(sim).parking_state,
            map,
            roads_upto(neighborhoods_roads@, map.roads.len() as int),
            roads_upto(neighborhoods_roads@, map.roads.len() as int).len() as int,
        ),
        report.requested <= owner_buildings.len() * (cars_per_building.weights.len() - 1),
        old(timer).warnings@.len() <= final(timer).warnings@.len(),
        final(timer).warnings@.subrange(0, old(timer).warnings@.len() as int) == old(timer).warnings@,
        final(timer).notes@ == old(timer).notes@.push(
            Note::SeededParkedCars {
                placed: report.placed,
                requested: report.requested,
                total_spots: report.total_spots,
            },
        ),
{
    let roads = roads_in_order(neighborhoods_roads, map);
    proof {
        lemma_roads_upto(neighborhoods_roads@, map.roads.len() as int);
    }
    seed_on_roads(sim, cars_per_building, owner_buildings, &roads, base_rng, map, timer)
}

/// Seeds parked cars on the roads given, which are taken in their
/// order. Each building of `owner_buildings` asks for as many cars as a
/// draw from `cars_per_building` says, and is served by `seed_building`.
/// A note records how many were asked for and how many were placed.
pub fn seed_on_roads(
    sim: &mut Sim,
    cars_per_building: &WeightedUsizeChoice,
    owner_buildings: &Vec<BuildingID>,
    neighborhoods_roads: &Vec<RoadID>,
    base_rng: &mut XorShiftRng,
    map: &RoadMap,
    timer: &mut Timer,
) -> (report: SeedingReport)
    requires
        map.wf(),
        old(sim).wf(),
        old(sim).fits(map),
        cars_per_building.wf(),
        forall|i: int|
            0 <= i < owner_buildings.len() ==> map.has_building(#[trigger] owner_buildings[i]),
        roads_in(neighborhoods_roads@, map.roads.len() as int),
        neighborhoods_roads@.no_duplicates(),
        old(sim).car_id_counter + owner_buildings.len() * cars_per_building.weights.len()
            <= usize::MAX,
    ensures
        final(sim).wf(),
        final(sim).fits(map),
        exists|draws: Seq<usize>, table: Seq<Seq<ParkingSpot>>|
            #[trigger] seeded(
                old(sim),
                final(sim),
                map,
                cars_per_building.weights@,
                owner_buildings@,
                neighborhoods_roads@,
                old(timer).warnings@,
                final(timer).warnings@,
                report,
                draws,
                table,
            ),
        same_but_parking(old(sim), final(sim)),
        placed_only(old(sim), final(sim), map, neighborhoods_roads@, owner_buildings@),
        final(sim).car_id_counter == old(sim).car_id_counter + report.placed,
        final(sim).parking_state.num_parked == old(sim).parking_state.num_parked + report.placed,
        report.placed + count_no_room(final(timer).warnings@) == report.requested + count_no_room(
            old(timer).warnings@,
        ),
        report.placed <= report.total_spots,
        report.placed <= report.requested,
        report.total_spots == free_in_roads(
            &old(sim).parking_state,
            map,
            neighborhoods_roads@,
            neighborhoods_roads.len() as int,
        ),
        report.requested <= owner_buildings.len() * (cars_per_building.weights.len() - 1),
        old(timer).warnings@.len() <= final(timer).warnings@.len(),
        final(timer).warnings@.subrange(0, old(timer).warnings@.len() as int) == old(timer).warnings@,
        final(timer).notes@ == old(timer).notes@.push(
            Note::SeededParkedCars {
                placed: report.placed,
                requested: report.requested,
                total_spots: report.total_spots,
            },
        ),
{
    let (mut open, total_spots) = build_open_spots(sim, neighborhoods_roads, base_rng, map);
    let most_each: usize = cars_per_building.weights.len() - 1;
    let ghost wmax = cars_per_building.weights.len() - 1;
    let ghost len = owner_buildings.len() as int;
    let ghost roads = neighborhoods_roads@;
    let ghost owners = owner_buildings@;
    let ghost warned = old(timer).warnings@;
    let ghost mem = members(map, roads);
    let ghost table = open.stacks();
    let ghost start = Seeded { stacks: table, filled: Seq::empty(), warnings: warned };
    let ghost cur = start;
    let ghost draws: Seq<usize> = Seq::empty();
    let mut new_cars: usize = 0;
    let mut requested: usize = 0;
    let mut bi: usize = 0;
    proof {
        assert(open.member() =~= mem);
        assert forall|r: int| 0 <= r < map.roads.len() implies stack_made(
            &sim.parking_state,
            map,
            roads,
            #[trigger] table[r],
            r,
        ) by {
            assert(table[r] == open.stacks()[r]);
        }
        assert(len * wmax <= len * (wmax + 1)) by (nonlinear_arith)
            requires
                0 <= len,
                0 <= wmax,
        ;
        assert(timer.warnings@.subrange(0, warned.len() as int) == warned);
    }
    while bi < owner_buildings.len()
        invariant
            map.wf(),
            cars_per_building.wf(),
            wmax == cars_per_building.weights.len() - 1,
            len == owner_buildings.len(),
            roads == neighborhoods_roads@,
            owners == owner_buildings@,
            warned == old(timer).warnings@,
            forall|i: int|
                0 <= i < owner_buildings.len() ==> map.has_building(#[trigger] owner_buildings[i]),
            old(sim).car_id_counter + len * wmax <= usize::MAX,
            bi <= owner_buildings.len(),
            mem == members(map, roads),
            open.member() == mem,
            start == (Seeded { stacks: table, filled: Seq::empty(), warnings: warned }),
            table.len() == map.roads.len(),
            forall|r: int|
                0 <= r < map.roads.len() ==> stack_made(
                    &old(sim).parking_state,
                    map,
                    roads,
                    #[trigger] table[r],
                    r,
                ),
            draws.len() == bi,
            forall|i: int|
                0 <= i < draws.len() ==> (#[trigger] draws[i]) < cars_per_building.weights.len()
                    && cars_per_building.weights[draws[i] as int] > 0,
            requested == sum_draws(draws, bi as int),
            cur == serve_all(map, mem, start, owners, draws, bi as int, total_spots, most_each),
            cur.stacks == open.stacks(),
            cur.warnings == timer.warnings@,
            cur.filled.len() == new_cars,
            filled_as(old(sim), sim, cur.filled),
            seeding_progress(
                old(sim),
                sim,
                &open,
                map,
                roads,
                owners,
                new_cars as int,
                total_spots as int,
            ),
            new_cars + count_no_room(timer.warnings@) == requested + count_no_room(warned),
            new_cars <= requested,
            requested <= bi * wmax,
            warned.len() <= timer.warnings@.len(),
            timer.warnings@.subrange(0, warned.len() as int) == warned,
            timer.notes == old(timer).notes,
        decreases owner_buildings.len() - bi,
    {
        let b = owner_buildings[bi];
        let mut count_rng = fork_rng(base_rng);
        let n_cars = cars_per_building.sample(&mut count_rng);
        let ghost mid = *sim;
        let ghost warned_mid = timer.warnings@;
        proof {
            assert((bi + 1) * wmax == bi * wmax + wmax) by (nonlinear_arith);
            assert((bi + 1) * wmax <= len * wmax) by (nonlinear_arith)
                requires
                    bi + 1 <= len,
                    0 <= wmax,
            ;
        }
        let placed = seed_building(
            sim,
            &mut open,
            b,
            n_cars,
            neighborhoods_roads,
            base_rng,
            map,
            timer,
            total_spots,
            most_each,
            owner_buildings.len(),
            new_cars,
        );
        proof {
            let fresh = Seeded { stacks: cur.stacks, filled: Seq::empty(), warnings: warned_mid };
            let part = serve_building(
                map,
                mem,
                fresh,
                b,
                n_cars as int,
                total_spots,
                most_each,
                owner_buildings.len(),
                new_cars as int,
            );
            lemma_serve_building_shift(
                map,
                mem,
                cur,
                b,
                n_cars as int,
                total_spots,
                most_each,
                owner_buildings.len(),
            );
            lemma_filled_join(old(sim), &mid, sim, cur.filled, part.filled);
            lemma_serve_all_prefix(
                map,
                mem,
                start,
                owners,
                draws,
                draws.push(n_cars),
                bi as int,
                total_spots,
                most_each,
            );
            cur = serve_building(
                map,
                mem,
                cur,
                b,
                n_cars as int,
                total_spots,
                most_each,
                owner_buildings.len(),
                0,
            );
            draws = draws.push(n_cars);
            assert(owners.contains(b));
            lemma_placed_only_trans(old(sim), &mid, sim, map, roads, owners, b);
            assert(timer.warnings@.subrange(0, warned.len() as int) =~= warned_mid.subrange(
                0,
                warned.len() as int,
            ));
        }
        new_cars = new_cars + placed;
        requested = requested + n_cars;
        bi += 1;
    }
    timer.note(Note::SeededParkedCars { placed: new_cars, requested, total_spots });
    proof {
        assert(seeded(
            old(sim),
            sim,
            map,
            cars_per_building.weights@,
            owners,
            roads,
            warned,
            timer.warnings@,
            SeedingReport { placed: new_cars, requested, total_spots },
            draws,
            table,
        ));
        assert(len * wmax == owner_buildings.len() * (cars_per_building.weights.len() - 1));
        assert(requested <= bi * wmax);
    }
    SeedingReport { placed: new_cars, requested, total_spots }
}

} // verus!
