//! Whether a simulation is well formed, decided at run time. Its fields
//! are open to every caller, so a caller that has written to them can
//! ask before it calls a function that needs a well-formed simulation.

use vstd::prelude::*;
use crate::driving::{DrivingCar, DrivingSimState, cars_below, distinct_cars};
use crate::idset::IdSet;
use crate::ids::LaneID;
use crate::parking::{ParkingSimState, Slot, all_cars_upto, cars_upto};
use crate::sim::Sim;
use crate::starting::comes_before;
use crate::trips::ParkingSpot;
use crate::walking::{Pedestrian, WalkingSimState, distinct_peds, peds_below};

verus! {

/// Whether no number occurs twice.
pub fn ids_distinct(ids: &Vec<usize>) -> (ok: bool)
    ensures
        ok == ids@.no_duplicates(),
{
    let mut i: usize = 0;
    while i < ids.len()
        invariant
            i <= ids.len(),
            forall|a: int, b: int| 0 <= a < b < i ==> ids[a] != ids[b],
        decreases ids.len() - i,
    {
        let mut j: usize = 0;
        while j < i
            invariant
                j <= i < ids.len(),
                forall|a: int| 0 <= a < j ==> ids[a] != ids[i as int],
            decreases i - j,
        {
            if ids[j] == ids[i] {
                return false;
            }
            j += 1;
        }
        i += 1;
    }
    true
}

/// The identifiers of the vehicles on the road, in order.
pub fn car_ids(cars: &Vec<DrivingCar>) -> (ids: Vec<usize>)
    ensures
        ids.len() == cars.len(),
        forall|k: int| 0 <= k < cars.len() ==> ids[k] == (#[trigger] cars[k]).vehicle.id.0,
{
    let mut ids: Vec<usize> = Vec::new();
    let mut k: usize = 0;
    while k < cars.len()
        invariant
            k <= cars.len(),
            ids.len() == k,
            forall|j: int| 0 <= j < k ==> ids[j] == (#[trigger] cars[j]).vehicle.id.0,
        decreases cars.len() - k,
    {
        ids.push(cars[k].vehicle.id.0);
        k += 1;
    }
    ids
}

/// The identifiers of the pedestrians, in order.
pub fn ped_ids(peds: &Vec<Pedestrian>) -> (ids: Vec<usize>)
    ensures
        ids.len() == peds.len(),
        forall|k: int| 0 <= k < peds.len() ==> ids[k] == (#[trigger] peds[k]).id.0,
{
    let mut ids: Vec<usize> = Vec::new();
    let mut k: usize = 0;
    while k < peds.len()
        invariant
            k <= peds.len(),
            ids.len() == k,
            forall|j: int| 0 <= j < k ==> ids[j] == (#[trigger] peds[j]).id.0,
        decreases peds.len() - k,
    {
        ids.push(peds[k].id.0);
        k += 1;
    }
    ids
}

impl IdSet {
    /// Whether no member is listed twice.
    pub fn is_valid(&self) -> (ok: bool)
        ensures
            ok == self.wf(),
    {
        ids_distinct(&self.ids)
    }
}

impl DrivingSimState {
    /// Whether the state is well formed.
    pub fn is_valid(&self) -> (ok: bool)
        ensures
            ok == self.wf(),
    {
        let ids = car_ids(&self.cars);
        let distinct = ids_distinct(&ids);
        proof {
            if distinct {
                assert forall|i: int, j: int| 0 <= i < j < self.cars.len() implies (
                #[trigger] self.cars[i]).vehicle.id != (#[trigger] self.cars[j]).vehicle.id by {
                    assert(ids[i] != ids[j]);
                }
            } else {
                let (i, j) = choose|i: int, j: int|
                    0 <= i < ids.len() && 0 <= j < ids.len() && i != j && ids[i] == ids[j];
                if i < j {
                    assert(self.cars[i].vehicle.id == self.cars[j].vehicle.id);
                } else {
                    assert(self.cars[j].vehicle.id == self.cars[i].vehicle.id);
                }
            }
        }
        distinct && self.lanes.is_valid() && self.turns.is_valid()
    }
}

impl WalkingSimState {
    /// Whether the state is well formed.
    pub fn is_valid(&self) -> (ok: bool)
        ensures
            ok == self.wf(),
    {
        let ids = ped_ids(&self.peds);
        let distinct = ids_distinct(&ids);
        proof {
            if distinct {
                assert forall|i: int, j: int| 0 <= i < j < self.peds.len() implies (
                #[trigger] self.peds[i]).id != (#[trigger] self.peds[j]).id by {
                    assert(ids[i] != ids[j]);
                }
            } else {
                let (i, j) = choose|i: int, j: int|
                    0 <= i < ids.len() && 0 <= j < ids.len() && i != j && ids[i] == ids[j];
                if i < j {
                    assert(self.peds[i].id == self.peds[j].id);
                } else {
                    assert(self.peds[j].id == self.peds[i].id);
                }
            }
        }
        distinct && self.lanes.is_valid() && self.turns.is_valid()
    }
}

/// The more spots of a lane, the more cars.
pub proof fn lemma_cars_upto_grows(slots: Seq<Slot>, n: int, m: int)
    requires
        0 <= n <= m,
    ensures
        cars_upto(slots, n).len() <= cars_upto(slots, m).len(),
    decreases m,
{
    if n < m {
        lemma_cars_upto_grows(slots, n, m - 1);
    }
}

/// The more lanes, the more cars.
pub proof fn lemma_all_cars_grows(lanes: Seq<Vec<Slot>>, k: int, m: int)
    requires
        0 <= k <= m,
    ensures
        all_cars_upto(lanes, k).len() <= all_cars_upto(lanes, m).len(),
    decreases m,
{
    if k < m {
        lemma_all_cars_grows(lanes, k, m - 1);
    }
}

/// The cars up to a spot are among all cars.
pub proof fn lemma_partial_count(lanes: Seq<Vec<Slot>>, l: int, i: int)
    requires
        0 <= l < lanes.len(),
        0 <= i <= lanes[l].len(),
    ensures
        all_cars_upto(lanes, l).len() + cars_upto(lanes[l]@, i).len() <= all_cars_upto(
            lanes,
            lanes.len() as int,
        ).len(),
{
    lemma_cars_upto_grows(lanes[l]@, i, lanes[l]@.len() as int);
    lemma_all_cars_grows(lanes, l + 1, lanes.len() as int);
}

impl ParkingSimState {
    /// The spots before the spot `i` of the lane `l`, lane by lane and
    /// spot by spot, are in order: each car in them knows its spot, and
    /// no two of them hold cars with the same identifier.
    pub open spec fn sound_upto(&self, l: int, i: int) -> bool {
        &&& forall|s: ParkingSpot|
            self.has_spot(s) && comes_before(s.lane.0 as int, s.idx as int, l, i) && (
            #[trigger] self.at(s)) is Some ==> self.at(s).unwrap().spot == s
        &&& forall|s1: ParkingSpot, s2: ParkingSpot|
            self.has_spot(s1) && self.has_spot(s2) && comes_before(
                s1.lane.0 as int,
                s1.idx as int,
                l,
                i,
            ) && comes_before(s2.lane.0 as int, s2.idx as int, l, i) && s1 != s2 && (
            #[trigger] self.at(s1)) is Some && (#[trigger] self.at(s2)) is Some ==> self.at(
                s1,
            ).unwrap().vehicle.id != self.at(s2).unwrap().vehicle.id
    }

    /// `seen` holds the identifiers of the cars in the spots before the
    /// spot `i` of the lane `l`, and `places` the spot of each.
    pub open spec fn seen_upto(&self, seen: Seq<usize>, places: Seq<ParkingSpot>, l: int, i: int) -> bool {
        &&& places.len() == seen.len()
        &&& forall|k: int|
            0 <= k < seen.len() ==> {
                let s = #[trigger] places[k];
                &&& self.has_spot(s)
                &&& comes_before(s.lane.0 as int, s.idx as int, l, i)
                &&& self.at(s) is Some
                &&& self.at(s).unwrap().vehicle.id.0 == seen[k]
            }
        &&& forall|s: ParkingSpot|
            self.has_spot(s) && comes_before(s.lane.0 as int, s.idx as int, l, i) && (
            #[trigger] self.at(s)) is Some ==> seen.contains(self.at(s).unwrap().vehicle.id.0)
    }

    /// Whether the state is well formed.
    pub fn is_valid(&self) -> (ok: bool)
        ensures
            ok == self.wf(),
    {
        let mut seen: Vec<usize> = Vec::new();
        let ghost places: Seq<ParkingSpot> = Seq::empty();
        let mut l: usize = 0;
        while l < self.lanes.len()
            invariant
                l <= self.lanes.len(),
                seen.len() == all_cars_upto(self.lanes@, l as int).len(),
                seen.len() <= self.num_parked,
                self.sound_upto(l as int, 0),
                self.seen_upto(seen@, places, l as int, 0),
            decreases self.lanes.len() - l,
        {
            let mut i: usize = 0;
            while i < self.lanes[l].len()
                invariant
                    l < self.lanes.len(),
                    i <= self.lanes[l as int].len(),
                    seen.len() == all_cars_upto(self.lanes@, l as int).len() + cars_upto(
                        self.lanes[l as int]@,
                        i as int,
                    ).len(),
                    seen.len() <= self.num_parked,
                    self.sound_upto(l as int, i as int),
                    self.seen_upto(seen@, places, l as int, i as int),
                decreases self.lanes[l as int].len() - i,
            {
                let ghost spot = ParkingSpot { lane: LaneID(l), idx: i };
                proof {
                    assert(self.has_spot(spot));
                    assert(self.at(spot) == self.lanes[l as int][i as int]);
                }
                if let Some(c) = self.lanes[l][i] {
                    if c.spot.lane.0 != l || c.spot.idx != i {
                        proof {
                            assert(self.at(spot) is Some);
                        }
                        return false;
                    }
                    let mut k: usize = 0;
                    while k < seen.len()
                        invariant
                            k <= seen.len(),
                            forall|j: int| 0 <= j < k ==> seen[j] != c.vehicle.id.0,
                            spot == (ParkingSpot { lane: LaneID(l), idx: i }),
                            self.has_spot(spot),
                            self.at(spot) == Some(c),
                            self.seen_upto(seen@, places, l as int, i as int),
                        decreases seen.len() - k,
                    {
                        if seen[k] == c.vehicle.id.0 {
                            proof {
                                let other = places[k as int];
                                assert(self.at(other) is Some);
                                assert(self.at(spot) is Some);
                                assert(other != spot);
                            }
                            return false;
                        }
                        k += 1;
                    }
                    if seen.len() >= self.num_parked {
                        proof {
                            lemma_partial_count(self.lanes@, l as int, i + 1);
                        }
                        return false;
                    }
                    let ghost before = seen@;
                    seen.push(c.vehicle.id.0);
                    proof {
                        let was = places;
                        places = places.push(spot);
                        assert forall|k: int| 0 <= k < seen.len() implies ({
                            let s = #[trigger] places[k];
                            &&& self.has_spot(s)
                            &&& comes_before(s.lane.0 as int, s.idx as int, l as int, i + 1)
                            &&& self.at(s) is Some
                            &&& self.at(s).unwrap().vehicle.id.0 == seen[k]
                        }) by {
                            if k < was.len() {
                                assert(places[k] == was[k]);
                            }
                        }
                        assert forall|s: ParkingSpot|
                            self.has_spot(s) && comes_before(
                                s.lane.0 as int,
                                s.idx as int,
                                l as int,
                                i + 1,
                            ) && (#[trigger] self.at(s)) is Some implies seen@.contains(
                            self.at(s).unwrap().vehicle.id.0,
                        ) by {
                            if s == spot {
                                assert(seen@[before.len() as int] == c.vehicle.id.0);
                            } else {
                                assert(comes_before(
                                    s.lane.0 as int,
                                    s.idx as int,
                                    l as int,
                                    i as int,
                                ));
                                let id = self.at(s).unwrap().vehicle.id.0;
                                assert(before.contains(id));
                                let j = choose|j: int| 0 <= j < before.len() && before[j] == id;
                                assert(seen@[j] == id);
                            }
                        }
                        assert forall|s1: ParkingSpot, s2: ParkingSpot|
                            self.has_spot(s1) && self.has_spot(s2) && comes_before(
                                s1.lane.0 as int,
                                s1.idx as int,
                                l as int,
                                i + 1,
                            ) && comes_before(s2.lane.0 as int, s2.idx as int, l as int, i + 1)
                                && s1 != s2 && (#[trigger] self.at(s1)) is Some && (
                            #[trigger] self.at(s2)) is Some implies self.at(
                            s1,
                        ).unwrap().vehicle.id != self.at(s2).unwrap().vehicle.id by {
                            if s1 == spot {
                                assert(comes_before(
                                    s2.lane.0 as int,
                                    s2.idx as int,
                                    l as int,
                                    i as int,
                                ));
                                let id = self.at(s2).unwrap().vehicle.id.0;
                                assert(before.contains(id));
                                let j = choose|j: int| 0 <= j < before.len() && before[j] == id;
                            } else if s2 == spot {
                                assert(comes_before(
                                    s1.lane.0 as int,
                                    s1.idx as int,
                                    l as int,
                                    i as int,
                                ));
                                let id = self.at(s1).unwrap().vehicle.id.0;
                                assert(before.contains(id));
                                let j = choose|j: int| 0 <= j < before.len() && before[j] == id;
                            } else {
                                assert(comes_before(
                                    s1.lane.0 as int,
                                    s1.idx as int,
                                    l as int,
                                    i as int,
                                ));
                                assert(comes_before(
                                    s2.lane.0 as int,
                                    s2.idx as int,
                                    l as int,
                                    i as int,
                                ));
                            }
                        }
                        assert forall|s: ParkingSpot|
                            self.has_spot(s) && comes_before(
                                s.lane.0 as int,
                                s.idx as int,
                                l as int,
                                i + 1,
                            ) && (#[trigger] self.at(s)) is Some implies self.at(s).unwrap().spot
                            == s by {
                            if s != spot {
                                assert(comes_before(
                                    s.lane.0 as int,
                                    s.idx as int,
                                    l as int,
                                    i as int,
                                ));
                            }
                        }
                    }
                } else {
                    proof {
                        assert forall|s: ParkingSpot|
                            self.has_spot(s) && comes_before(
                                s.lane.0 as int,
                                s.idx as int,
                                l as int,
                                i + 1,
                            ) && (#[trigger] self.at(s)) is Some implies comes_before(
                            s.lane.0 as int,
                            s.idx as int,
                            l as int,
                            i as int,
                        ) by {
                            assert(s != spot);
                        }
                    }
                }
                i += 1;
            }
            proof {
                assert forall|s: ParkingSpot|
                    self.has_spot(s) && comes_before(s.lane.0 as int, s.idx as int, l + 1, 0)
                        implies comes_before(s.lane.0 as int, s.idx as int, l as int, i as int) by {}
            }
            l += 1;
        }
        proof {
            assert forall|s: ParkingSpot| self.has_spot(s) implies comes_before(
                s.lane.0 as int,
                s.idx as int,
                l as int,
                0,
            ) by {}
        }
        seen.len() == self.num_parked
    }
}

impl Sim {
    /// Every car in a spot before the spot `i` of the lane `l` has an
    /// identifier that was handed out, and is not on the road as well.
    pub open spec fn parked_apart_upto(&self, l: int, i: int) -> bool {
        &&& forall|s: ParkingSpot|
            self.parking_state.has_spot(s) && comes_before(s.lane.0 as int, s.idx as int, l, i)
                && (#[trigger] self.parking_state.at(s)) is Some ==> self.parking_state.at(
                s,
            ).unwrap().vehicle.id.0 < self.car_id_counter
        &&& forall|s: ParkingSpot, k: int|
            self.parking_state.has_spot(s) && comes_before(s.lane.0 as int, s.idx as int, l, i)
                && (#[trigger] self.parking_state.at(s)) is Some && 0 <= k
                < self.driving_state.cars.len() ==> self.parking_state.at(s).unwrap().vehicle.id
                != (#[trigger] self.driving_state.cars[k]).vehicle.id
    }

    /// Whether the simulation is well formed: what every function that
    /// works on a simulation asks of it.
    pub fn is_valid(&self) -> (ok: bool)
        ensures
            ok == self.wf(),
    {
        if !self.driving_state.is_valid() || !self.parking_state.is_valid()
            || !self.walking_state.is_valid() {
            return false;
        }
        if self.parking_state.num_parked > self.car_id_counter {
            return false;
        }
        let mut k: usize = 0;
        while k < self.driving_state.cars.len()
            invariant
                self.driving_state.wf(),
                self.parking_state.wf(),
                self.walking_state.wf(),
                self.parking_state.num_parked <= self.car_id_counter,
                k <= self.driving_state.cars.len(),
                forall|j: int|
                    0 <= j < k ==> (#[trigger] self.driving_state.cars[j]).vehicle.id.0
                        < self.car_id_counter,
            decreases self.driving_state.cars.len() - k,
        {
            if self.driving_state.cars[k].vehicle.id.0 >= self.car_id_counter {
                return false;
            }
            k += 1;
        }
        let mut p: usize = 0;
        while p < self.walking_state.peds.len()
            invariant
                self.driving_state.wf(),
                self.parking_state.wf(),
                self.walking_state.wf(),
                self.parking_state.num_parked <= self.car_id_counter,
                cars_below(self.driving_state.cars@, self.car_id_counter as int),
                p <= self.walking_state.peds.len(),
                forall|j: int|
                    0 <= j < p ==> (#[trigger] self.walking_state.peds[j]).id.0
                        < self.ped_id_counter,
            decreases self.walking_state.peds.len() - p,
        {
            if self.walking_state.peds[p].id.0 >= self.ped_id_counter {
                return false;
            }
            p += 1;
        }
        let mut l: usize = 0;
        while l < self.parking_state.lanes.len()
            invariant
                self.driving_state.wf(),
                self.parking_state.wf(),
                self.walking_state.wf(),
                self.parking_state.num_parked <= self.car_id_counter,
                cars_below(self.driving_state.cars@, self.car_id_counter as int),
                peds_below(self.walking_state.peds@, self.ped_id_counter as int),
                l <= self.parking_state.lanes.len(),
                self.parked_apart_upto(l as int, 0),
            decreases self.parking_state.lanes.len() - l,
        {
            let mut i: usize = 0;
            while i < self.parking_state.lanes[l].len()
                invariant
                    self.driving_state.wf(),
                    self.parking_state.wf(),
                    self.walking_state.wf(),
                    self.parking_state.num_parked <= self.car_id_counter,
                    cars_below(self.driving_state.cars@, self.car_id_counter as int),
                    peds_below(self.walking_state.peds@, self.ped_id_counter as int),
                    l < self.parking_state.lanes.len(),
                    i <= self.parking_state.lanes[l as int].len(),
                    self.parked_apart_upto(l as int, i as int),
                decreases self.parking_state.lanes[l as int].len() - i,
            {
                let ghost spot = ParkingSpot { lane: LaneID(l), idx: i };
                proof {
                    assert(self.parking_state.has_spot(spot));
                    assert(self.parking_state.at(spot) == self.parking_state.lanes[l as int][i as int]);
                }
                if let Some(c) = self.parking_state.lanes[l][i] {
                    if c.vehicle.id.0 >= self.car_id_counter {
                        proof {
                            assert(self.parking_state.at(spot) is Some);
                        }
                        return false;
                    }
                    let mut j: usize = 0;
                    while j < self.driving_state.cars.len()
                        invariant
                            j <= self.driving_state.cars.len(),
                            forall|k: int|
                                0 <= k < j ==> (#[trigger] self.driving_state.cars[k]).vehicle.id
                                    != c.vehicle.id,
                            self.parking_state.has_spot(spot),
                            self.parking_state.at(spot) == Some(c),
                        decreases self.driving_state.cars.len() - j,
                    {
                        if self.driving_state.cars[j].vehicle.id.0 == c.vehicle.id.0 {
                            proof {
                                assert(self.parking_state.at(spot) is Some);
                                assert(self.driving_state.cars[j as int].vehicle.id
                                    == c.vehicle.id);
                            }
                            return false;
                        }
                        j += 1;
                    }
                }
                proof {
                    assert forall|s: ParkingSpot|
                        self.parking_state.has_spot(s) && comes_before(
                            s.lane.0 as int,
                            s.idx as int,
                            l as int,
                            i + 1,
                        ) && s != spot implies comes_before(
                        s.lane.0 as int,
                        s.idx as int,
                        l as int,
                        i as int,
                    ) by {}
                }
                i += 1;
            }
            proof {
                assert forall|s: ParkingSpot|
                    self.parking_state.has_spot(s) && comes_before(
                        s.lane.0 as int,
                        s.idx as int,
                        l + 1,
                        0,
                    ) implies comes_before(s.lane.0 as int, s.idx as int, l as int, i as int) by {}
            }
            l += 1;
        }
        proof {
            assert forall|s: ParkingSpot| self.parking_state.has_spot(s) implies comes_before(
                s.lane.0 as int,
                s.idx as int,
                l as int,
                0,
            ) by {}
        }
        true
    }
}

} // verus!
