//! Starting agents by hand: a parked car drives off, a pedestrian sets
//! out, pedestrians are seeded on random sidewalks. Also the filling of
//! parking spots at random.

use vstd::prelude::*;
use rand_xorshift::XorShiftRng;
use crate::driving::{DrivingCar, On};
use crate::ids::{LaneID, PedestrianID};
use crate::map::{LaneType, Position, RoadMap};
use crate::parking::Slot;
use crate::random::{choose_one, draw_ratio, fork_rng, rand_car, shuffle_in_place};
use crate::seeding::seed_parked_cars;
use crate::sim::{Movement, Sim};
use crate::trips::{MAX_CAR_LENGTH, MIN_CAR_LENGTH, ParkedCar, ParkingSpot, VehicleType};
use crate::units::{Distance, Probability};
use crate::walking::Pedestrian;

verus! {

/// Nothing of the simulation differs between `before` and `after`, its
/// random stream included.
pub open spec fn unchanged(before: &Sim, after: &Sim) -> bool {
    &&& after.rng == before.rng
    &&& after.time == before.time
    &&& after.car_id_counter == before.car_id_counter
    &&& after.ped_id_counter == before.ped_id_counter
    &&& after.debug == before.debug
    &&& after.driving_state == before.driving_state
    &&& after.parking_state == before.parking_state
    &&& after.walking_state == before.walking_state
    &&& after.queued_trips == before.queued_trips
    &&& after.realized_trips == before.realized_trips
}

/// The parked car `car` has left its spot for the start of the driving
/// lane `lane`, and nothing else differs between `before` and `after`.
pub open spec fn drove_off(before: &Sim, after: &Sim, car: ParkedCar, lane: LaneID) -> bool {
    &&& after.parking_state.lanes.len() == before.parking_state.lanes.len()
    &&& forall|l: int|
        0 <= l < before.parking_state.lanes.len() ==> (#[trigger] after.parking_state.lanes[l]).len()
            == before.parking_state.lanes[l].len()
    &&& after.parking_state.at(car.spot) is None
    &&& forall|other: ParkingSpot|
        before.parking_state.has_spot(other) && other != car.spot ==> after.parking_state.at(other)
            == before.parking_state.at(other)
    &&& after.parking_state.num_parked == before.parking_state.num_parked - 1
    &&& after.driving_state.cars@ == before.driving_state.cars@.push(
        DrivingCar {
            vehicle: car.vehicle,
            on: On::Lane(lane),
            front: Distance(0),
            waiting_for: None,
            debug: false,
        },
    )
    &&& after.driving_state.lanes == before.driving_state.lanes
    &&& after.driving_state.turns == before.driving_state.turns
    &&& after.driving_state.stepped_at == before.driving_state.stepped_at
    &&& after.rng == before.rng
    &&& after.time == before.time
    &&& after.car_id_counter == before.car_id_counter
    &&& after.ped_id_counter == before.ped_id_counter
    &&& after.debug == before.debug
    &&& after.walking_state == before.walking_state
    &&& after.queued_trips == before.queued_trips
    &&& after.realized_trips == before.realized_trips
}

/// A new pedestrian has set out at the start of the sidewalk `lane`, and
/// nothing else differs between `before` and `after`.
pub open spec fn walked_off(before: &Sim, after: &Sim, lane: LaneID) -> bool {
    &&& after.walking_state.peds@ == before.walking_state.peds@.push(
        Pedestrian {
            id: PedestrianID(before.ped_id_counter),
            on: On::Lane(lane),
            dist_along: Distance(0),
        },
    )
    &&& after.walking_state.lanes == before.walking_state.lanes
    &&& after.walking_state.turns == before.walking_state.turns
    &&& after.ped_id_counter == before.ped_id_counter + 1
    &&& after.rng == before.rng
    &&& after.time == before.time
    &&& after.car_id_counter == before.car_id_counter
    &&& after.debug == before.debug
    &&& after.driving_state == before.driving_state
    &&& after.parking_state == before.parking_state
    &&& after.queued_trips == before.queued_trips
    &&& after.realized_trips == before.realized_trips
}

/// What starting a car comes to, for a driving lane and the parking lane
/// beside it, where `room` says whether the driving lane has room:
/// without a car on the parking lane, nothing; else the last car of the
/// parking lane drives off if there is room, and stays if there is none.
/// Only without a car is nothing said to have started.
pub open spec fn car_outcome(
    before: &Sim,
    after: &Sim,
    room: bool,
    started: bool,
    driving_lane: LaneID,
    parking_lane: LaneID,
) -> bool {
    match before.parking_state.spec_last_parked_car(parking_lane) {
        None => !started && unchanged(before, after),
        Some(car) => started && if room {
            drove_off(before, after, car, driving_lane)
        } else {
            unchanged(before, after)
        },
    }
}

/// What starting an agent on the lane `id` comes to, where `answer` is
/// what the movement said: for a sidewalk, whether the pedestrian finds
/// somewhere to go; for a car, whether the driving lane has room. On a
/// sidewalk a pedestrian sets out if the answer is yes, and else nothing
/// changes; on a driving lane or a parking lane that has the other kind
/// of lane beside it, `car_outcome` says what happens; everywhere else
/// nothing starts and nothing changes.
pub open spec fn agent_outcome(
    before: &Sim,
    after: &Sim,
    map: &RoadMap,
    id: LaneID,
    answer: bool,
    started: bool,
) -> bool {
    match map.lanes[id.0 as int].lane_type {
        LaneType::Sidewalk => started == answer && if answer {
            walked_off(before, after, id)
        } else {
            unchanged(before, after)
        },
        LaneType::Biking => !started && unchanged(before, after),
        LaneType::Driving => match map.spec_find_sibling(id, LaneType::Parking) {
            Some(parking) => car_outcome(before, after, answer, started, id, parking),
            None => !started && unchanged(before, after),
        },
        LaneType::Parking => match map.spec_find_sibling(id, LaneType::Driving) {
            Some(driving) => car_outcome(before, after, answer, started, driving, id),
            None => !started && unchanged(before, after),
        },
    }
}

/// What starting an agent on the lane `id` comes to, whatever the
/// movement answers.
pub open spec fn agent_started(
    before: &Sim,
    after: &Sim,
    map: &RoadMap,
    id: LaneID,
    started: bool,
) -> bool {
    agent_outcome(before, after, map, id, true, started) || agent_outcome(
        before,
        after,
        map,
        id,
        false,
        started,
    )
}

/// What trying one lane in a round of starts comes to: an agent is
/// started on it, unless no identifier is left for a pedestrian; then
/// the lane is passed over.
pub open spec fn lane_tried(
    before: &Sim,
    after: &Sim,
    map: &RoadMap,
    id: LaneID,
    started: bool,
) -> bool {
    if before.ped_id_counter < usize::MAX {
        agent_started(before, after, map, id, started)
    } else {
        !started && unchanged(before, after)
    }
}

/// The last of `k` lanes of a round: lane `k - 1` of `tried` leads from
/// `mid` to `after`.
pub open spec fn last_tried(
    mid: &Sim,
    after: &Sim,
    map: &RoadMap,
    tried: Seq<LaneID>,
    k: int,
    started: bool,
) -> bool {
    k > 0 && lane_tried(mid, after, map, tried[k - 1], started)
}

/// One more, where something started.
pub open spec fn one_if(started: bool) -> int {
    if started {
        1
    } else {
        0
    }
}

/// A round of starts: the first `k` lanes of `tried` are tried one after
/// the other, each on the state that the one before it left, and on
/// `count` of them something started.
pub open spec fn lanes_tried(
    before: &Sim,
    after: &Sim,
    map: &RoadMap,
    tried: Seq<LaneID>,
    k: int,
    count: int,
) -> bool
    decreases k,
{
    if k <= 0 {
        count == 0 && unchanged(before, after)
    } else {
        exists|mid: Sim, started: bool|
            {
                &&& #[trigger] last_tried(&mid, after, map, tried, k, started)
                &&& lanes_tried(before, &mid, map, tried, k - 1, count - one_if(started))
            }
    }
}

/// A round leaves the random stream as it was.
pub proof fn lemma_round_keeps_stream(
    before: &Sim,
    after: &Sim,
    map: &RoadMap,
    tried: Seq<LaneID>,
    k: int,
    count: int,
)
    requires
        lanes_tried(before, after, map, tried, k, count),
    ensures
        after.rng == before.rng,
    decreases k,
{
    if k > 0 {
        let (mid, started) = choose|mid: Sim, started: bool|
            {
                &&& #[trigger] last_tried(&mid, after, map, tried, k, started)
                &&& lanes_tried(before, &mid, map, tried, k - 1, count - one_if(started))
            };
        lemma_round_keeps_stream(before, &mid, map, tried, k - 1, count - one_if(started));
    }
}

/// The state `s` with the random stream `rng` in place of its own.
pub open spec fn with_stream(s: &Sim, rng: XorShiftRng) -> Sim {
    Sim {
        rng: rng,
        time: s.time,
        car_id_counter: s.car_id_counter,
        ped_id_counter: s.ped_id_counter,
        debug: s.debug,
        driving_state: s.driving_state,
        parking_state: s.parking_state,
        walking_state: s.walking_state,
        queued_trips: s.queued_trips,
        realized_trips: s.realized_trips,
    }
}

/// What `start_many_parked_cars` comes to, where `tried` is the order
/// in which it took the lanes: `tried` holds the empty lanes of the
/// beginning; without such a lane the random stream is untouched, else
/// it is drawn from for the order, once and before anything starts; and
/// the first `num_cars` lanes of `tried`, or all if they are fewer, were
/// tried in turn.
pub open spec fn many_started(
    before: &Sim,
    after: &Sim,
    map: &RoadMap,
    num_cars: int,
    actual: int,
    tried: Seq<LaneID>,
) -> bool {
    &&& tried.to_multiset() == before.spec_empty_lanes(map).to_multiset()
    &&& tried.len() == 0 ==> after.rng == before.rng
    &&& lanes_tried(
        &with_stream(before, after.rng),
        after,
        map,
        tried,
        if num_cars < tried.len() {
            num_cars
        } else {
            tried.len() as int
        },
        actual,
    )
}

impl Sim {
    /// The lanes open to driving, and on the map, on which no vehicle is,
    /// in the order in which they were opened.
    pub open spec fn spec_empty_lanes(&self, map: &RoadMap) -> Seq<LaneID> {
        empty_lanes_upto(
            self.driving_state.lanes.ids@,
            self.driving_state.cars@,
            map.lanes.len() as int,
            self.driving_state.lanes.ids.len() as int,
        )
    }

    /// The driving lane that a car would start on, for the lane `id`:
    /// the lane itself or the driving lane beside it, where the parking
    /// lane of the two holds a car.
    pub open spec fn spec_start_lane(&self, map: &RoadMap, id: LaneID) -> Option<LaneID> {
        match map.lanes[id.0 as int].lane_type {
            LaneType::Driving => match map.spec_find_sibling(id, LaneType::Parking) {
                Some(parking) => if self.parking_state.spec_last_parked_car(parking) is Some {
                    Some(id)
                } else {
                    None
                },
                None => None,
            },
            LaneType::Parking => match map.spec_find_sibling(id, LaneType::Driving) {
                Some(driving) => if self.parking_state.spec_last_parked_car(id) is Some {
                    Some(driving)
                } else {
                    None
                },
                None => None,
            },
            _ => None,
        }
    }

    /// The driving lane that a car would start on, for the lane `id`.
    pub fn start_lane(&self, map: &RoadMap, id: LaneID) -> (lane: Option<LaneID>)
        requires
            map.wf(),
            map.has_lane(id),
            self.wf(),
        ensures
            lane == self.spec_start_lane(map, id),
    {
        match map.get_l(id).lane_type {
            LaneType::Driving => match map.find_parking_lane(id) {
                Some(parking) => match self.parking_state.get_last_parked_car(parking) {
                    Some(_) => Some(id),
                    None => None,
                },
                None => None,
            },
            LaneType::Parking => match map.find_driving_lane(id) {
                Some(driving) => match self.parking_state.get_last_parked_car(id) {
                    Some(_) => Some(driving),
                    None => None,
                },
                None => None,
            },
            _ => None,
        }
    }

    /// Starts an agent on a lane.
    ///
    /// On a sidewalk a pedestrian sets out, if they find somewhere to
    /// go. On a driving lane the last car of the parking lane beside it
    /// drives off; on a parking lane its last car drives off onto the
    /// driving lane beside it. Nothing starts on a biking lane, nor where
    /// the lane beside is missing. The movement is asked once, where a
    /// pedestrian or a car is there to start, and `start_agent_given`
    /// does the rest with its answer.
    pub fn start_agent<M: Movement>(&mut self, map: &RoadMap, id: LaneID, movement: &mut M) -> (started:
        bool)
        requires
            map.wf(),
            map.has_lane(id),
            old(self).wf(),
            old(self).ped_id_counter < usize::MAX,
        ensures
            final(self).wf(),
            agent_started(old(self), final(self), map, id, started),
    {
        let answer = match map.get_l(id).lane_type {
            LaneType::Sidewalk => movement.finds_walk(map, id),
            _ => match self.start_lane(map, id) {
                Some(driving) => movement.has_room(self.time, map, driving, &self.driving_state.cars),
                None => false,
            },
        };
        self.start_agent_given(map, id, answer)
    }

    /// Starts an agent on a lane, given what the movement answered: for
    /// a sidewalk, whether the pedestrian finds somewhere to go; else,
    /// whether the driving lane has room for a car.
    pub fn start_agent_given(&mut self, map: &RoadMap, id: LaneID, answer: bool) -> (started: bool)
        requires
            map.wf(),
            map.has_lane(id),
            old(self).wf(),
            old(self).ped_id_counter < usize::MAX,
        ensures
            final(self).wf(),
            agent_outcome(old(self), final(self), map, id, answer, started),
    {
        let (driving_lane, parking_lane) = match map.get_l(id).lane_type {
            LaneType::Sidewalk => {
                if answer {
                    self.add_pedestrian(Position { lane: id, dist_along: Distance(0) });
                    return true;
                } else {
                    return false;
                }
            },
            LaneType::Driving => match map.find_parking_lane(id) {
                Some(parking) => (id, parking),
                None => {
                    return false;
                },
            },
            LaneType::Parking => match map.find_driving_lane(id) {
                Some(driving) => (driving, id),
                None => {
                    return false;
                },
            },
            LaneType::Biking => {
                return false;
            },
        };
        match self.parking_state.get_last_parked_car(parking_lane) {
            Some(car) => {
                proof {
                    let i = choose|i: int|
                        0 <= i < self.parking_state.lanes[parking_lane.0 as int].len() && (
                        #[trigger] self.parking_state.lanes[parking_lane.0 as int][i]) == Some(car);
                    let s = ParkingSpot { lane: parking_lane, idx: i as usize };
                    assert(self.parking_state.has_spot(s));
                    assert(self.parking_state.at(s) == Some(car));
                }
                if answer {
                    self.drive_off(car, driving_lane);
                }
                true
            },
            None => false,
        }
    }

    /// The parked car leaves its spot for the start of the driving lane.
    fn drive_off(&mut self, car: ParkedCar, lane: LaneID)
        requires
            old(self).wf(),
            old(self).parking_state.has_spot(car.spot),
            old(self).parking_state.at(car.spot) == Some(car),
        ensures
            final(self).wf(),
            drove_off(old(self), final(self), car, lane),
    {
        self.parking_state.remove_parked_car(car.spot);
        self.driving_state.cars.push(
            DrivingCar {
                vehicle: car.vehicle,
                on: On::Lane(lane),
                front: Distance(0),
                waiting_for: None,
                debug: false,
            },
        );
        proof {
            let before = old(self);
            assert(before.parking_state.at(car.spot).unwrap().vehicle.id.0 < before.car_id_counter);
            assert forall|i: int, j: int|
                0 <= i < j < self.driving_state.cars.len() implies (
            #[trigger] self.driving_state.cars[i]).vehicle.id != (
            #[trigger] self.driving_state.cars[j]).vehicle.id by {
                if j == self.driving_state.cars.len() - 1 {
                    assert(before.driving_state.cars[i].vehicle.id != before.parking_state.at(
                        car.spot,
                    ).unwrap().vehicle.id);
                }
            }
            assert forall|spot: ParkingSpot, i: int|
                self.parking_state.has_spot(spot) && (#[trigger] self.parking_state.at(spot))
                    is Some && 0 <= i < self.driving_state.cars.len() implies self.parking_state.at(
                spot,
            ).unwrap().vehicle.id != (#[trigger] self.driving_state.cars[i]).vehicle.id by {
                assert(before.parking_state.has_spot(spot));
                assert(spot != car.spot);
                assert(self.parking_state.at(spot) == before.parking_state.at(spot));
                if i == self.driving_state.cars.len() - 1 {
                    assert(before.parking_state.at(spot).unwrap().vehicle.id
                        != before.parking_state.at(car.spot).unwrap().vehicle.id);
                } else {
                    assert(before.driving_state.cars[i].vehicle.id != before.parking_state.at(
                        spot,
                    ).unwrap().vehicle.id);
                }
            }
            assert forall|spot: ParkingSpot|
                self.parking_state.has_spot(spot) && (#[trigger] self.parking_state.at(spot))
                    is Some implies self.parking_state.at(spot).unwrap().vehicle.id.0
                < self.car_id_counter by {
                assert(before.parking_state.has_spot(spot));
                assert(spot != car.spot);
                assert(self.parking_state.at(spot) == before.parking_state.at(spot));
            }
        }
    }

    /// The lanes open to driving, and on the map, on which no vehicle is,
    /// in the order in which they were opened.
    pub fn get_empty_lanes(&self, map: &RoadMap) -> (lanes: Vec<LaneID>)
        ensures
            lanes@ == self.spec_empty_lanes(map),
            forall|k: int| 0 <= k < lanes.len() ==> map.has_lane(#[trigger] lanes[k]),
    {
        let mut lanes: Vec<LaneID> = Vec::new();
        let mut k: usize = 0;
        while k < self.driving_state.lanes.ids.len()
            invariant
                k <= self.driving_state.lanes.ids.len(),
                lanes@ == empty_lanes_upto(
                    self.driving_state.lanes.ids@,
                    self.driving_state.cars@,
                    map.lanes.len() as int,
                    k as int,
                ),
                forall|j: int| 0 <= j < lanes.len() ==> map.has_lane(#[trigger] lanes[j]),
            decreases self.driving_state.lanes.ids.len() - k,
        {
            let l = LaneID(self.driving_state.lanes.ids[k]);
            if l.0 < map.lanes.len() {
                let mut taken = false;
                let mut i: usize = 0;
                while i < self.driving_state.cars.len() && !taken
                    invariant
                        i <= self.driving_state.cars.len(),
                        taken == is_taken(self.driving_state.cars@, l, i as int),
                    decreases self.driving_state.cars.len() - i,
                {
                    if self.driving_state.cars[i].on == On::Lane(l) {
                        taken = true;
                        proof {
                            lemma_taken_stays(
                                self.driving_state.cars@,
                                l,
                                i + 1,
                                self.driving_state.cars.len() as int,
                            );
                        }
                    }
                    i += 1;
                }
                proof {
                    if taken {
                        lemma_taken_stays(
                            self.driving_state.cars@,
                            l,
                            i as int,
                            self.driving_state.cars.len() as int,
                        );
                    }
                }
                if !taken {
                    lanes.push(l);
                }
            }
            k += 1;
        }
        lanes
    }

    /// Tries the first `n` of the lanes, one after the other: on each an
    /// agent is started, on the state that the lane before it left. Says
    /// on how many lanes something started.
    pub fn start_cars_on<M: Movement>(
        &mut self,
        map: &RoadMap,
        lanes: &Vec<LaneID>,
        n: usize,
        movement: &mut M,
    ) -> (actual: usize)
        requires
            map.wf(),
            old(self).wf(),
            n <= lanes.len(),
            forall|k: int| 0 <= k < lanes.len() ==> map.has_lane(#[trigger] lanes[k]),
        ensures
            final(self).wf(),
            actual <= n,
            lanes_tried(old(self), final(self), map, lanes@, n as int, actual as int),
            final(self).rng == old(self).rng,
            final(self).time == old(self).time,
            final(self).car_id_counter == old(self).car_id_counter,
            final(self).debug == old(self).debug,
            final(self).queued_trips == old(self).queued_trips,
            final(self).realized_trips == old(self).realized_trips,
            final(self).driving_state.lanes == old(self).driving_state.lanes,
            final(self).parking_state.num_parked + final(self).driving_state.cars.len() == old(self).parking_state.num_parked + old(self).driving_state.cars.len(),
    {
        let mut actual: usize = 0;
        let mut i: usize = 0;
        while i < n
            invariant
                map.wf(),
                self.wf(),
                i <= n <= lanes.len(),
                actual <= i,
                forall|k: int| 0 <= k < lanes.len() ==> map.has_lane(#[trigger] lanes[k]),
                lanes_tried(old(self), self, map, lanes@, i as int, actual as int),
                self.rng == old(self).rng,
                self.time == old(self).time,
                self.car_id_counter == old(self).car_id_counter,
                self.debug == old(self).debug,
                self.queued_trips == old(self).queued_trips,
                self.realized_trips == old(self).realized_trips,
                self.driving_state.lanes == old(self).driving_state.lanes,
                self.parking_state.num_parked + self.driving_state.cars.len() == old(self).parking_state.num_parked + old(self).driving_state.cars.len(),
            decreases n - i,
        {
            let ghost mid = *self;
            // A lane whose type was changed on the map since may start a
            // pedestrian, for whom an identifier is needed.
            let started = if self.ped_id_counter < usize::MAX {
                self.start_agent(map, lanes[i], movement)
            } else {
                false
            };
            if started {
                actual += 1;
            }
            proof {
                assert(last_tried(&mid, self, map, lanes@, i + 1, started));
            }
            i += 1;
        }
        actual
    }

    /// Starts up to `num_cars` parked cars, each beside another driving
    /// lane on which no vehicle is; the lanes are taken in a random
    /// order. Says for how many lanes a car was there to start.
    pub fn start_many_parked_cars<M: Movement>(
        &mut self,
        map: &RoadMap,
        num_cars: usize,
        movement: &mut M,
    ) -> (actual: usize)
        requires
            map.wf(),
            old(self).wf(),
        ensures
            final(self).wf(),
            actual <= num_cars,
            exists|tried: Seq<LaneID>|
                #[trigger] many_started(
                    old(self),
                    final(self),
                    map,
                    num_cars as int,
                    actual as int,
                    tried,
                ),
            final(self).time == old(self).time,
            final(self).car_id_counter == old(self).car_id_counter,
            final(self).debug == old(self).debug,
            final(self).queued_trips == old(self).queued_trips,
            final(self).realized_trips == old(self).realized_trips,
            final(self).driving_state.lanes == old(self).driving_state.lanes,
            final(self).parking_state.num_parked + final(self).driving_state.cars.len() == old(self).parking_state.num_parked + old(self).driving_state.cars.len(),
    {
        let mut driving_lanes = self.get_empty_lanes(map);
        let ghost found = driving_lanes@;
        if driving_lanes.len() > 0 {
            shuffle_in_place(&mut driving_lanes, &mut self.rng);
        }
        let ghost shuffled = *self;
        proof {
            crate::seeding::lemma_same_elements(found, driving_lanes@);
            assert forall|k: int| 0 <= k < driving_lanes.len() implies map.has_lane(
                #[trigger] driving_lanes[k],
            ) by {
                assert(driving_lanes@.contains(driving_lanes[k]));
                let j = choose|j: int| 0 <= j < found.len() && found[j] == driving_lanes[k];
                assert(map.has_lane(found[j]));
            }
        }
        let n = if num_cars < driving_lanes.len() {
            num_cars
        } else {
            driving_lanes.len()
        };
        let actual = self.start_cars_on(map, &driving_lanes, n, movement);
        proof {
            lemma_round_keeps_stream(
                &shuffled,
                self,
                map,
                driving_lanes@,
                n as int,
                actual as int,
            );
            assert(with_stream(old(self), self.rng) == shuffled);
            assert(many_started(
                old(self),
                self,
                map,
                num_cars as int,
                actual as int,
                driving_lanes@,
            ));
        }
        actual
    }
}

/// Whether one of the first `n` vehicles is on the lane.
pub open spec fn is_taken(cars: Seq<DrivingCar>, lane: LaneID, n: int) -> bool
    decreases n,
{
    if n <= 0 {
        false
    } else {
        cars[n - 1].on == On::Lane(lane) || is_taken(cars, lane, n - 1)
    }
}

/// A lane that one of the first `n` vehicles is on is one that one of the
/// first `m` is on, for every greater `m`.
pub proof fn lemma_taken_stays(cars: Seq<DrivingCar>, lane: LaneID, n: int, m: int)
    requires
        0 <= n <= m,
        is_taken(cars, lane, n),
    ensures
        is_taken(cars, lane, m),
    decreases m,
{
    if n < m {
        lemma_taken_stays(cars, lane, n, m - 1);
    }
}

/// Those of the first `k` lanes of `ids` that are lanes of a map with
/// `n_lanes` lanes and that no vehicle is on, in order.
pub open spec fn empty_lanes_upto(
    ids: Seq<usize>,
    cars: Seq<DrivingCar>,
    n_lanes: int,
    k: int,
) -> Seq<LaneID>
    decreases k,
{
    if k <= 0 {
        Seq::empty()
    } else if ids[k - 1] < n_lanes && !is_taken(cars, LaneID(ids[k - 1]), cars.len() as int) {
        empty_lanes_upto(ids, cars, n_lanes, k - 1).push(LaneID(ids[k - 1]))
    } else {
        empty_lanes_upto(ids, cars, n_lanes, k - 1)
    }
}

/// How many spots the first `k` lanes have.
pub open spec fn capacity_upto(lanes: Seq<Vec<Slot>>, k: int) -> int
    decreases k,
{
    if k <= 0 {
        0
    } else {
        capacity_upto(lanes, k - 1) + lanes[k - 1].len()
    }
}

/// The more lanes, the more spots.
pub proof fn lemma_capacity_grows(lanes: Seq<Vec<Slot>>, k: int, m: int)
    requires
        0 <= k <= m,
    ensures
        0 <= capacity_upto(lanes, k) <= capacity_upto(lanes, m),
    decreases m,
{
    if m > 0 {
        if k < m {
            lemma_capacity_grows(lanes, k, m - 1);
        } else {
            lemma_capacity_grows(lanes, k - 1, m - 1);
        }
    }
}

/// The spot with the number `idx` of the lane with the number `lane` comes,
/// lane by lane and spot by spot, in front of the spot `here` of the lane
/// `at`.
pub open spec fn comes_before(lane: int, idx: int, at: int, here: int) -> bool {
    lane < at || (lane == at && idx < here)
}

/// Nothing but the parking subsystem, the count of vehicles and the
/// random stream differs between `before` and `after`.
pub open spec fn same_but_parking_and_stream(before: &Sim, after: &Sim) -> bool {
    &&& after.time == before.time
    &&& after.ped_id_counter == before.ped_id_counter
    &&& after.debug == before.debug
    &&& after.driving_state == before.driving_state
    &&& after.walking_state == before.walking_state
    &&& after.queued_trips == before.queued_trips
    &&& after.realized_trips == before.realized_trips
}

impl Sim {
    /// Fills free parking spots at random: each free spot gets a new
    /// random car with the chance `percent`. A chance of zero parks
    /// nothing, a chance of one fills every spot.
    pub fn seed_parked_cars(&mut self, percent: Probability)
        requires
            old(self).wf(),
            percent.wf(),
            old(self).car_id_counter + capacity_upto(
                old(self).parking_state.lanes@,
                old(self).parking_state.lanes.len() as int,
            ) <= usize::MAX,
        ensures
            final(self).wf(),
            same_but_parking_and_stream(old(self), final(self)),
            final(self).parking_state.lanes.len() == old(self).parking_state.lanes.len(),
            forall|l: int|
                0 <= l < old(self).parking_state.lanes.len() ==> (
                #[trigger] final(self).parking_state.lanes[l]).len() == old(self).parking_state.lanes[l].len(),
            forall|spot: ParkingSpot|
                old(self).parking_state.has_spot(spot) && (#[trigger] old(self).parking_state.at(
                    spot,
                )) is Some ==> final(self).parking_state.at(spot) == old(self).parking_state.at(
                    spot,
                ),
            forall|spot: ParkingSpot|
                old(self).parking_state.has_spot(spot) && old(self).parking_state.at(spot) is None
                    && (#[trigger] final(self).parking_state.at(spot)) is Some ==> {
                    let c = final(self).parking_state.at(spot).unwrap();
                    &&& c.spot == spot
                    &&& c.owner is None
                    &&& c.vehicle.vehicle_type == VehicleType::Car
                    &&& MIN_CAR_LENGTH <= c.vehicle.length.0 < MAX_CAR_LENGTH
                    &&& c.vehicle.max_speed is None
                    &&& old(self).car_id_counter <= c.vehicle.id.0 < final(self).car_id_counter
                },
            final(self).car_id_counter - old(self).car_id_counter == final(self).parking_state.num_parked - old(self).parking_state.num_parked,
            percent.numerator == 0 ==> final(self).car_id_counter == old(self).car_id_counter,
            percent.numerator == percent.denominator ==> forall|spot: ParkingSpot|
                final(self).parking_state.has_spot(spot) ==> (#[trigger] final(self).parking_state.at(spot)) is Some,
    {
        let ghost first = *self;
        let mut l: usize = 0;
        while l < self.parking_state.lanes.len()
            invariant
                first == *old(self),
                percent.wf(),
                self.wf(),
                l <= self.parking_state.lanes.len(),
                same_but_parking_and_stream(&first, self),
                self.parking_state.lanes.len() == first.parking_state.lanes.len(),
                forall|k: int|
                    0 <= k < first.parking_state.lanes.len() ==> (
                    #[trigger] self.parking_state.lanes[k]).len()
                        == first.parking_state.lanes[k].len(),
                first.car_id_counter + capacity_upto(
                    first.parking_state.lanes@,
                    first.parking_state.lanes.len() as int,
                ) <= usize::MAX,
                first.car_id_counter <= self.car_id_counter <= first.car_id_counter
                    + capacity_upto(first.parking_state.lanes@, l as int),
                self.car_id_counter - first.car_id_counter == self.parking_state.num_parked
                    - first.parking_state.num_parked,
                percent.numerator == 0 ==> self.car_id_counter == first.car_id_counter,
                forall|spot: ParkingSpot|
                    first.parking_state.has_spot(spot) && (#[trigger] first.parking_state.at(spot))
                        is Some ==> self.parking_state.at(spot) == first.parking_state.at(spot),
                forall|spot: ParkingSpot|
                    first.parking_state.has_spot(spot) && first.parking_state.at(spot) is None && (
                    #[trigger] self.parking_state.at(spot)) is Some ==> {
                        let c = self.parking_state.at(spot).unwrap();
                        &&& c.spot == spot
                        &&& c.owner is None
                        &&& c.vehicle.vehicle_type == VehicleType::Car
                        &&& MIN_CAR_LENGTH <= c.vehicle.length.0 < MAX_CAR_LENGTH
                        &&& c.vehicle.max_speed is None
                        &&& first.car_id_counter <= c.vehicle.id.0 < self.car_id_counter
                    },
                percent.numerator == percent.denominator ==> forall|spot: ParkingSpot|
                    self.parking_state.has_spot(spot) && spot.lane.0 < l ==> (
                    #[trigger] self.parking_state.at(spot)) is Some,
            decreases self.parking_state.lanes.len() - l,
        {
            let n = self.parking_state.lanes[l].len();
            let mut i: usize = 0;
            proof {
                lemma_capacity_grows(
                    first.parking_state.lanes@,
                    l + 1,
                    first.parking_state.lanes.len() as int,
                );
            }
            while i < n
                invariant
                    first == *old(self),
                    percent.wf(),
                    self.wf(),
                    l < self.parking_state.lanes.len(),
                    n == self.parking_state.lanes[l as int].len(),
                    i <= n,
                    same_but_parking_and_stream(&first, self),
                    self.parking_state.lanes.len() == first.parking_state.lanes.len(),
                    forall|k: int|
                        0 <= k < first.parking_state.lanes.len() ==> (
                        #[trigger] self.parking_state.lanes[k]).len()
                            == first.parking_state.lanes[k].len(),
                    first.car_id_counter + capacity_upto(first.parking_state.lanes@, l + 1)
                        <= usize::MAX,
                    first.car_id_counter <= self.car_id_counter <= first.car_id_counter
                        + capacity_upto(first.parking_state.lanes@, l as int) + i,
                    self.car_id_counter - first.car_id_counter == self.parking_state.num_parked
                        - first.parking_state.num_parked,
                    percent.numerator == 0 ==> self.car_id_counter == first.car_id_counter,
                    forall|spot: ParkingSpot|
                        first.parking_state.has_spot(spot) && (#[trigger] first.parking_state.at(
                            spot,
                        )) is Some ==> self.parking_state.at(spot) == first.parking_state.at(spot),
                    forall|spot: ParkingSpot|
                        first.parking_state.has_spot(spot) && first.parking_state.at(spot) is None
                            && (#[trigger] self.parking_state.at(spot)) is Some ==> {
                            let c = self.parking_state.at(spot).unwrap();
                            &&& c.spot == spot
                            &&& c.owner is None
                            &&& c.vehicle.vehicle_type == VehicleType::Car
                            &&& MIN_CAR_LENGTH <= c.vehicle.length.0 < MAX_CAR_LENGTH
                            &&& c.vehicle.max_speed is None
                            &&& first.car_id_counter <= c.vehicle.id.0 < self.car_id_counter
                        },
                    percent.numerator == percent.denominator ==> forall|spot: ParkingSpot|
                        self.parking_state.has_spot(spot) && comes_before(
                            spot.lane.0 as int,
                            spot.idx as int,
                            l as int,
                            i as int,
                        ) ==> (#[trigger] self.parking_state.at(spot)) is Some,
                decreases n - i,
            {
                let spot = ParkingSpot { lane: LaneID(l), idx: i };
                if self.parking_state.is_free(spot) {
                    let mut chance_rng = fork_rng(&mut self.rng);
                    if draw_ratio(&mut chance_rng, percent.numerator, percent.denominator) {
                        let mut vehicle_rng = fork_rng(&mut self.rng);
                        let car = rand_car(&mut vehicle_rng);
                        let ghost mid = *self;
                        self.seed_parked_car(car, spot, None);
                        proof {
                            assert(first.parking_state.has_spot(spot));
                            assert(first.parking_state.at(spot) is None) by {
                                if first.parking_state.at(spot) is Some {
                                    assert(mid.parking_state.at(spot) == first.parking_state.at(
                                        spot,
                                    ));
                                }
                            }
                            assert forall|s: ParkingSpot|
                                first.parking_state.has_spot(s) && (
                                #[trigger] first.parking_state.at(s))
                                    is Some implies self.parking_state.at(s)
                                == first.parking_state.at(s) by {
                                assert(mid.parking_state.at(s) == first.parking_state.at(s));
                            }
                            assert forall|s: ParkingSpot|
                                first.parking_state.has_spot(s) && first.parking_state.at(s)
                                    is None && (#[trigger] self.parking_state.at(s))
                                    is Some implies ({
                                let c = self.parking_state.at(s).unwrap();
                                &&& c.spot == s
                                &&& c.owner is None
                                &&& c.vehicle.vehicle_type == VehicleType::Car
                                &&& MIN_CAR_LENGTH <= c.vehicle.length.0 < MAX_CAR_LENGTH
                                &&& c.vehicle.max_speed is None
                                &&& first.car_id_counter <= c.vehicle.id.0 < self.car_id_counter
                            }) by {
                                assert(mid.parking_state.has_spot(s));
                                if s != spot {
                                    assert(self.parking_state.at(s) == mid.parking_state.at(s));
                                }
                            }
                            if percent.numerator == percent.denominator {
                                assert forall|s: ParkingSpot|
                                    self.parking_state.has_spot(s) && comes_before(
                                        s.lane.0 as int,
                                        s.idx as int,
                                        l as int,
                                        i + 1,
                                    ) implies (#[trigger] self.parking_state.at(s)) is Some by {
                                    assert(mid.parking_state.has_spot(s));
                                    if s != spot {
                                        assert(self.parking_state.at(s) == mid.parking_state.at(s));
                                        assert(comes_before(
                                            s.lane.0 as int,
                                            s.idx as int,
                                            l as int,
                                            i as int,
                                        ));
                                    }
                                }
                            }
                        }
                    }
                } else {
                    proof {
                        if percent.numerator == percent.denominator {
                            assert forall|s: ParkingSpot|
                                self.parking_state.has_spot(s) && comes_before(
                                    s.lane.0 as int,
                                    s.idx as int,
                                    l as int,
                                    i + 1,
                                ) implies (#[trigger] self.parking_state.at(s)) is Some by {
                                if s != spot {
                                    assert(comes_before(
                                        s.lane.0 as int,
                                        s.idx as int,
                                        l as int,
                                        i as int,
                                    ));
                                }
                            }
                        }
                    }
                }
                i += 1;
            }
            proof {
                if percent.numerator == percent.denominator {
                    assert forall|s: ParkingSpot|
                        self.parking_state.has_spot(s) && s.lane.0 < l + 1 implies (
                    #[trigger] self.parking_state.at(s)) is Some by {
                        assert(comes_before(s.lane.0 as int, s.idx as int, l as int, n as int));
                    }
                }
            }
            l += 1;
        }
    }
}

/// One of `choices` that is not `except`, chosen at random. There are
/// at least two to choose from, and one of them is not `except`.
pub fn choose_different(rng: &mut XorShiftRng, choices: &Vec<LaneID>, except: LaneID) -> (choice:
    LaneID)
    requires
        choices.len() > 1,
        exists|i: int| 0 <= i < choices.len() && choices[i] != except,
    ensures
        choice != except,
        choices@.contains(choice),
{
    let mut others: Vec<LaneID> = Vec::new();
    let mut i: usize = 0;
    while i < choices.len()
        invariant
            i <= choices.len(),
            forall|k: int|
                0 <= k < others.len() ==> (#[trigger] others[k]) != except && choices@.contains(
                    others[k],
                ),
            forall|j: int| 0 <= j < i && choices[j] != except ==> others.len() > 0,
        decreases choices.len() - i,
    {
        if choices[i] != except {
            others.push(choices[i]);
        }
        i += 1;
    }
    match choose_one(&others, rng) {
        Some(c) => {
            proof {
                let k = choose|k: int| 0 <= k < others.len() && others[k] == *c;
                assert(others[k] != except && choices@.contains(others[k]));
            }
            *c
        },
        None => except,
    }
}

/// The sidewalks among the first `n` lanes of the map, in order.
pub open spec fn sidewalks_upto(lanes: Seq<crate::map::Lane>, n: int) -> Seq<LaneID>
    decreases n,
{
    if n <= 0 {
        Seq::empty()
    } else if lanes[n - 1].lane_type == LaneType::Sidewalk {
        sidewalks_upto(lanes, n - 1).push(lanes[n - 1].id)
    } else {
        sidewalks_upto(lanes, n - 1)
    }
}

/// The sidewalks among the first `n` lanes are sidewalks of the map, each
/// once.
pub proof fn lemma_sidewalks(map: &RoadMap, n: int)
    requires
        map.wf(),
        0 <= n <= map.lanes.len(),
    ensures
        forall|k: int|
            0 <= k < sidewalks_upto(map.lanes@, n).len() ==> {
                let l = #[trigger] sidewalks_upto(map.lanes@, n)[k];
                l.0 < n && map.lanes[l.0 as int].lane_type == LaneType::Sidewalk
            },
        sidewalks_upto(map.lanes@, n).no_duplicates(),
    decreases n,
{
    if n > 0 {
        lemma_sidewalks(map, n - 1);
        assert(map.lanes[n - 1].id.0 == n - 1);
    }
}

/// The pedestrians after the first `n` of the paths were looked at: each
/// path that was found, and has a first lane, puts a new pedestrian at
/// the start of that lane.
pub open spec fn seeded_peds(
    peds: Seq<Pedestrian>,
    next_ped: int,
    paths: Seq<Option<Vec<LaneID>>>,
    n: int,
) -> Seq<Pedestrian>
    decreases n,
{
    if n <= 0 {
        peds
    } else {
        let before = seeded_peds(peds, next_ped, paths, n - 1);
        match paths[n - 1] {
            Some(steps) => if steps.len() > 0 {
                before.push(
                    Pedestrian {
                        id: PedestrianID((next_ped + before.len() - peds.len()) as usize),
                        on: On::Lane(steps[0]),
                        dist_along: crate::units::Distance(0),
                    },
                )
            } else {
                before
            },
            None => before,
        }
    }
}

impl Sim {
    /// The sidewalks of the map, in order.
    pub fn all_sidewalks(map: &RoadMap) -> (sidewalks: Vec<LaneID>)
        ensures
            sidewalks@ == sidewalks_upto(map.lanes@, map.lanes.len() as int),
    {
        let mut sidewalks: Vec<LaneID> = Vec::new();
        let mut i: usize = 0;
        while i < map.lanes.len()
            invariant
                i <= map.lanes.len(),
                sidewalks@ == sidewalks_upto(map.lanes@, i as int),
            decreases map.lanes.len() - i,
        {
            if map.lanes[i].lane_type == LaneType::Sidewalk {
                sidewalks.push(map.lanes[i].id);
            }
            i += 1;
        }
        sidewalks
    }

    /// Draws where `num` pedestrians start and where they go: for each, a
    /// sidewalk of the map, and another one. The paths between them are
    /// for the caller to find; `seed_pedestrians` takes them.
    pub fn plan_pedestrians(&mut self, map: &RoadMap, num: usize) -> (requests: Vec<
        (LaneID, LaneID),
    >)
        requires
            map.wf(),
            num > 0 ==> sidewalks_upto(map.lanes@, map.lanes.len() as int).len() > 1,
        ensures
            requests.len() == num,
            forall|k: int|
                0 <= k < requests.len() ==> {
                    let (start, goal) = #[trigger] requests[k];
                    &&& start != goal
                    &&& map.has_lane(start)
                    &&& map.has_lane(goal)
                    &&& map.lanes[start.0 as int].lane_type == LaneType::Sidewalk
                    &&& map.lanes[goal.0 as int].lane_type == LaneType::Sidewalk
                },
            final(self).time == old(self).time,
            final(self).car_id_counter == old(self).car_id_counter,
            final(self).ped_id_counter == old(self).ped_id_counter,
            final(self).debug == old(self).debug,
            final(self).driving_state == old(self).driving_state,
            final(self).parking_state == old(self).parking_state,
            final(self).walking_state == old(self).walking_state,
            final(self).queued_trips == old(self).queued_trips,
            final(self).realized_trips == old(self).realized_trips,
            num == 0 ==> final(self).rng == old(self).rng,
    {
        let sidewalks = Sim::all_sidewalks(map);
        let mut requests: Vec<(LaneID, LaneID)> = Vec::new();
        proof {
            lemma_sidewalks(map, map.lanes.len() as int);
        }
        let mut i: usize = 0;
        while i < num
            invariant
                map.wf(),
                i <= num,
                i == 0 ==> self.rng == old(self).rng,
                num > 0 ==> sidewalks.len() > 1,
                sidewalks@ == sidewalks_upto(map.lanes@, map.lanes.len() as int),
                sidewalks@.no_duplicates(),
                forall|k: int|
                    0 <= k < sidewalks.len() ==> {
                        let l = #[trigger] sidewalks[k];
                        l.0 < map.lanes.len() && map.lanes[l.0 as int].lane_type
                            == LaneType::Sidewalk
                    },
                requests.len() == i,
                forall|k: int|
                    0 <= k < requests.len() ==> {
                        let (start, goal) = #[trigger] requests[k];
                        &&& start != goal
                        &&& map.has_lane(start)
                        &&& map.has_lane(goal)
                        &&& map.lanes[start.0 as int].lane_type == LaneType::Sidewalk
                        &&& map.lanes[goal.0 as int].lane_type == LaneType::Sidewalk
                    },
                self.time == old(self).time,
                self.car_id_counter == old(self).car_id_counter,
                self.ped_id_counter == old(self).ped_id_counter,
                self.debug == old(self).debug,
                self.driving_state == old(self).driving_state,
                self.parking_state == old(self).parking_state,
                self.walking_state == old(self).walking_state,
                self.queued_trips == old(self).queued_trips,
                self.realized_trips == old(self).realized_trips,
            decreases num - i,
        {
            let start = match choose_one(&sidewalks, &mut self.rng) {
                Some(l) => *l,
                None => LaneID(0),
            };
            proof {
                let a = choose|a: int| 0 <= a < sidewalks.len() && sidewalks[a] == start;
                let b = if a == 0 {
                    1int
                } else {
                    0int
                };
                assert(sidewalks[b] != sidewalks[a]);
            }
            let goal = choose_different(&mut self.rng, &sidewalks, start);
            proof {
                let g = choose|g: int| 0 <= g < sidewalks.len() && sidewalks[g] == goal;
                let a = choose|a: int| 0 <= a < sidewalks.len() && sidewalks[a] == start;
                assert(sidewalks[g].0 < map.lanes.len());
                assert(sidewalks[a].0 < map.lanes.len());
            }
            requests.push((start, goal));
            i += 1;
        }
        requests
    }

    /// Puts a pedestrian on the first lane of each path that was found.
    /// Says how many pedestrians that made.
    pub fn seed_pedestrians(&mut self, map: &RoadMap, paths: &Vec<Option<Vec<LaneID>>>) -> (actual:
        usize)
        requires
            old(self).wf(),
            old(self).ped_id_counter + paths.len() <= usize::MAX,
        ensures
            final(self).wf(),
            final(self).walking_state.peds@ == seeded_peds(
                old(self).walking_state.peds@,
                old(self).ped_id_counter as int,
                paths@,
                paths.len() as int,
            ),
            actual == final(self).walking_state.peds.len() - old(self).walking_state.peds.len(),
            final(self).ped_id_counter == old(self).ped_id_counter + actual,
            actual <= paths.len(),
            final(self).walking_state.lanes == old(self).walking_state.lanes,
            final(self).walking_state.turns == old(self).walking_state.turns,
            final(self).time == old(self).time,
            final(self).car_id_counter == old(self).car_id_counter,
            final(self).debug == old(self).debug,
            final(self).driving_state == old(self).driving_state,
            final(self).parking_state == old(self).parking_state,
            final(self).queued_trips == old(self).queued_trips,
            final(self).realized_trips == old(self).realized_trips,
            final(self).rng == old(self).rng,
    {
        let mut actual: usize = 0;
        let mut i: usize = 0;
        while i < paths.len()
            invariant
                i <= paths.len(),
                actual <= i,
                old(self).ped_id_counter + paths.len() <= usize::MAX,
                self.wf(),
                self.walking_state.peds@ == seeded_peds(
                    old(self).walking_state.peds@,
                    old(self).ped_id_counter as int,
                    paths@,
                    i as int,
                ),
                actual == self.walking_state.peds.len() - old(self).walking_state.peds.len(),
                self.ped_id_counter == old(self).ped_id_counter + actual,
                self.walking_state.lanes == old(self).walking_state.lanes,
                self.walking_state.turns == old(self).walking_state.turns,
                self.time == old(self).time,
                self.car_id_counter == old(self).car_id_counter,
                self.debug == old(self).debug,
                self.driving_state == old(self).driving_state,
                self.parking_state == old(self).parking_state,
                self.rng == old(self).rng,
                self.queued_trips == old(self).queued_trips,
                self.realized_trips == old(self).realized_trips,
            decreases paths.len() - i,
        {
            if let Some(steps) = &paths[i] {
                if steps.len() > 0 {
                    self.add_pedestrian(
                        crate::map::Position {
                            lane: steps[0],
                            dist_along: crate::units::Distance(0),
                        },
                    );
                    actual += 1;
                }
            }
            i += 1;
        }
        actual
    }
}

} // verus!
