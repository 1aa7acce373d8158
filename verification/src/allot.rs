//! What a pass of the parking allocator comes to, request by request,
//! once the table of free spots and the number of cars that each
//! building asks for are given.

use vstd::prelude::*;
use crate::ids::{BuildingID, RoadID};
use crate::map::RoadMap;
use crate::report::Warning;
use crate::search::{first_road_with_spot, gave_up};
use crate::seeding::same_but_parking;
use crate::sim::Sim;
use crate::trips::{MAX_CAR_LENGTH, MIN_CAR_LENGTH, ParkedCar, ParkingSpot, VehicleType};

verus! {

/// How far a pass has come: the table of the free spots that are left,
/// the spots that were filled with the building that each car belongs
/// to, in the order in which they were filled, and the warnings.
pub struct Seeded {
    pub stacks: Seq<Seq<ParkingSpot>>,
    pub filled: Seq<(BuildingID, ParkingSpot)>,
    pub warnings: Seq<Warning>,
}

/// One request of building `b` for a vehicle. The search names the
/// first road near the building that has a spot left; the last spot of
/// that road's stack is filled for `b`. Without such a road two warnings
/// are added, one of the search and one that names the building, the
/// number of spots `total_spots`, the most cars `most_each` that a
/// building can ask for, the number of buildings `buildings` and the
/// number of cars placed so far, counted from `base`.
pub open spec fn serve_request(
    map: &RoadMap,
    member: Seq<bool>,
    s: Seeded,
    b: BuildingID,
    total_spots: u128,
    most_each: usize,
    buildings: usize,
    base: int,
) -> Seeded {
    match first_road_with_spot(map, s.stacks, member, b) {
        Some(r) => Seeded {
            stacks: s.stacks.update(r.0 as int, s.stacks[r.0 as int].drop_last()),
            filled: s.filled.push((b, s.stacks[r.0 as int].last())),
            warnings: s.warnings,
        },
        None => Seeded {
            stacks: s.stacks,
            filled: s.filled,
            warnings: s.warnings.push(gave_up(map, s.stacks, member, b)).push(
                Warning::NoRoomToSeed {
                    building: b,
                    total_spots,
                    most_each,
                    buildings,
                    new_cars: (base + s.filled.len()) as usize,
                },
            ),
        },
    }
}

/// `n` requests of building `b`, one after the other.
pub open spec fn serve_building(
    map: &RoadMap,
    member: Seq<bool>,
    s: Seeded,
    b: BuildingID,
    n: int,
    total_spots: u128,
    most_each: usize,
    buildings: usize,
    base: int,
) -> Seeded
    decreases n,
{
    if n <= 0 {
        s
    } else {
        serve_request(
            map,
            member,
            serve_building(map, member, s, b, n - 1, total_spots, most_each, buildings, base),
            b,
            total_spots,
            most_each,
            buildings,
            base,
        )
    }
}

/// The first `k` buildings of `owners`, one after the other, each with
/// as many requests as `draws` gives it.
pub open spec fn serve_all(
    map: &RoadMap,
    member: Seq<bool>,
    s: Seeded,
    owners: Seq<BuildingID>,
    draws: Seq<usize>,
    k: int,
    total_spots: u128,
    most_each: usize,
) -> Seeded
    decreases k,
{
    if k <= 0 {
        s
    } else {
        serve_building(
            map,
            member,
            serve_all(map, member, s, owners, draws, k - 1, total_spots, most_each),
            owners[k - 1],
            draws[k - 1] as int,
            total_spots,
            most_each,
            owners.len() as usize,
            0,
        )
    }
}

/// The sum of the first `n` draws.
pub open spec fn sum_draws(draws: Seq<usize>, n: int) -> int
    decreases n,
{
    if n <= 0 {
        0
    } else {
        sum_draws(draws, n - 1) + draws[n - 1]
    }
}

/// The spots that were filled, in order.
pub open spec fn spots_of(filled: Seq<(BuildingID, ParkingSpot)>) -> Seq<ParkingSpot> {
    Seq::new(filled.len(), |k: int| filled[k].1)
}

/// `c` is the car that a pass puts in `spot` for building `b` with the
/// identifier `id`: a random car that the building owns.
pub open spec fn seeded_for(c: ParkedCar, spot: ParkingSpot, b: BuildingID, id: int) -> bool {
    &&& c.spot == spot
    &&& c.owner == Some(b)
    &&& c.vehicle.id.0 == id
    &&& c.vehicle.vehicle_type == VehicleType::Car
    &&& MIN_CAR_LENGTH <= c.vehicle.length.0 < MAX_CAR_LENGTH
    &&& c.vehicle.max_speed is None
}

/// The entry with the number `k` of what was filled: its spot was free
/// in `before` and holds in `after` the car of its building, with the
/// `k`-th identifier after those of `before`.
pub open spec fn filled_one(
    before: &Sim,
    after: &Sim,
    entry: (BuildingID, ParkingSpot),
    k: int,
) -> bool {
    &&& before.parking_state.has_spot(entry.1)
    &&& before.parking_state.at(entry.1) is None
    &&& after.parking_state.at(entry.1) is Some
    &&& seeded_for(
        after.parking_state.at(entry.1).unwrap(),
        entry.1,
        entry.0,
        before.car_id_counter + k,
    )
}

/// `after` is `before` with the spots of `filled` filled, one new car
/// in each, in this order, and with nothing else changed: a spot that
/// held a vehicle holds it still, and no other spot holds one.
pub open spec fn filled_as(before: &Sim, after: &Sim, filled: Seq<(BuildingID, ParkingSpot)>) -> bool {
    &&& same_but_parking(before, after)
    &&& after.car_id_counter == before.car_id_counter + filled.len()
    &&& after.parking_state.num_parked == before.parking_state.num_parked + filled.len()
    &&& after.parking_state.lanes.len() == before.parking_state.lanes.len()
    &&& forall|l: int|
        0 <= l < before.parking_state.lanes.len() ==> (#[trigger] after.parking_state.lanes[l]).len()
            == before.parking_state.lanes[l].len()
    &&& forall|k: int| 0 <= k < filled.len() ==> filled_one(before, after, #[trigger] filled[k], k)
    &&& forall|spot: ParkingSpot|
        before.parking_state.has_spot(spot) && (#[trigger] before.parking_state.at(spot)) is Some
            ==> after.parking_state.at(spot) == before.parking_state.at(spot)
    &&& forall|spot: ParkingSpot|
        before.parking_state.has_spot(spot) && before.parking_state.at(spot) is None && (
        #[trigger] after.parking_state.at(spot)) is Some ==> spots_of(filled).contains(spot)
}

/// What is filled over one stretch and over the next is filled over
/// both.
pub proof fn lemma_filled_join(
    a: &Sim,
    b: &Sim,
    c: &Sim,
    f: Seq<(BuildingID, ParkingSpot)>,
    g: Seq<(BuildingID, ParkingSpot)>,
)
    requires
        filled_as(a, b, f),
        filled_as(b, c, g),
    ensures
        filled_as(a, c, f + g),
{
    let h = f + g;
    assert forall|k: int| 0 <= k < h.len() implies filled_one(a, c, #[trigger] h[k], k) by {
        if k < f.len() {
            assert(h[k] == f[k]);
            assert(filled_one(a, b, f[k], k));
            assert(b.parking_state.has_spot(f[k].1));
            assert(c.parking_state.at(f[k].1) == b.parking_state.at(f[k].1));
        } else {
            assert(h[k] == g[k - f.len()]);
            assert(filled_one(b, c, g[k - f.len()], k - f.len()));
            let spot = g[k - f.len()].1;
            assert(a.parking_state.has_spot(spot));
            if a.parking_state.at(spot) is Some {
                assert(b.parking_state.at(spot) == a.parking_state.at(spot));
            }
        }
    }
    assert forall|spot: ParkingSpot|
        a.parking_state.has_spot(spot) && (#[trigger] a.parking_state.at(spot))
            is Some implies c.parking_state.at(spot) == a.parking_state.at(spot) by {
        assert(b.parking_state.has_spot(spot));
        assert(b.parking_state.at(spot) == a.parking_state.at(spot));
    }
    assert forall|spot: ParkingSpot|
        a.parking_state.has_spot(spot) && a.parking_state.at(spot) is None && (
        #[trigger] c.parking_state.at(spot)) is Some implies spots_of(h).contains(spot) by {
        assert(b.parking_state.has_spot(spot));
        if b.parking_state.at(spot) is Some {
            assert(spots_of(f).contains(spot));
            let k = choose|k: int| 0 <= k < spots_of(f).len() && spots_of(f)[k] == spot;
            assert(spots_of(h)[k] == spot);
        } else {
            assert(spots_of(g).contains(spot));
            let k = choose|k: int| 0 <= k < spots_of(g).len() && spots_of(g)[k] == spot;
            assert(spots_of(h)[k + f.len()] == spot);
        }
    }
}

/// One spot filled after what was filled before.
pub proof fn lemma_filled_push(
    a: &Sim,
    b: &Sim,
    c: &Sim,
    f: Seq<(BuildingID, ParkingSpot)>,
    entry: (BuildingID, ParkingSpot),
)
    requires
        filled_as(a, b, f),
        filled_as(b, c, seq![entry]),
    ensures
        filled_as(a, c, f.push(entry)),
{
    lemma_filled_join(a, b, c, f, seq![entry]);
    assert(f.push(entry) =~= f + seq![entry]);
}

/// The requests of a building come to the same, whether the spots that
/// were filled before them are carried along or counted in `base`.
pub proof fn lemma_serve_building_shift(
    map: &RoadMap,
    member: Seq<bool>,
    s: Seeded,
    b: BuildingID,
    n: int,
    total_spots: u128,
    most_each: usize,
    buildings: usize,
)
    ensures
        ({
            let fresh = Seeded { stacks: s.stacks, filled: Seq::empty(), warnings: s.warnings };
            let whole = serve_building(map, member, s, b, n, total_spots, most_each, buildings, 0);
            let part = serve_building(
                map,
                member,
                fresh,
                b,
                n,
                total_spots,
                most_each,
                buildings,
                s.filled.len() as int,
            );
            &&& whole.stacks == part.stacks
            &&& whole.warnings == part.warnings
            &&& whole.filled == s.filled + part.filled
        }),
    decreases n,
{
    let fresh = Seeded { stacks: s.stacks, filled: Seq::empty(), warnings: s.warnings };
    if n > 0 {
        lemma_serve_building_shift(map, member, s, b, n - 1, total_spots, most_each, buildings);
        let whole = serve_building(map, member, s, b, n - 1, total_spots, most_each, buildings, 0);
        let part = serve_building(
            map,
            member,
            fresh,
            b,
            n - 1,
            total_spots,
            most_each,
            buildings,
            s.filled.len() as int,
        );
        let whole1 = serve_request(map, member, whole, b, total_spots, most_each, buildings, 0);
        let part1 = serve_request(
            map,
            member,
            part,
            b,
            total_spots,
            most_each,
            buildings,
            s.filled.len() as int,
        );
        assert(whole1.filled =~= s.filled + part1.filled);
    } else {
        assert(s.filled =~= s.filled + fresh.filled);
    }
}

/// What the first `k` buildings come to depends on the first `k` draws
/// only.
pub proof fn lemma_serve_all_prefix(
    map: &RoadMap,
    member: Seq<bool>,
    s: Seeded,
    owners: Seq<BuildingID>,
    a: Seq<usize>,
    b: Seq<usize>,
    k: int,
    total_spots: u128,
    most_each: usize,
)
    requires
        k <= a.len(),
        k <= b.len(),
        forall|i: int| 0 <= i < k ==> a[i] == b[i],
    ensures
        serve_all(map, member, s, owners, a, k, total_spots, most_each) == serve_all(
            map,
            member,
            s,
            owners,
            b,
            k,
            total_spots,
            most_each,
        ),
        sum_draws(a, k) == sum_draws(b, k),
    decreases k,
{
    if k > 0 {
        lemma_serve_all_prefix(map, member, s, owners, a, b, k - 1, total_spots, most_each);
    }
}

/// Whether the road with the number `r` is one of `roads`, for each
/// road of the map.
pub open spec fn members(map: &RoadMap, roads: Seq<RoadID>) -> Seq<bool> {
    Seq::new(map.roads.len() as nat, |r: int| roads.contains(RoadID(r as usize)))
}

} // verus!
