//! The orchestrator: simulated time, the random stream, the allocation of
//! vehicle identifiers, the queue of scheduled trips, and the three
//! movement subsystems.

use vstd::prelude::*;
use rand_xorshift::XorShiftRng;
use crate::driving::{
    CarEvent, DrivingCar, DrivingSimState, On, apply_events, cars_below, has_vehicle,
    lemma_apply_events,
};
use crate::idset::{put_in, taken_out};
use crate::ids::{BuildingID, CarID, LaneID, TurnID};
use crate::map::{LaneType, RoadMap, Turn};
use crate::parking::{ParkingSimState, Slot};
use crate::random::seeded_generator;
use crate::trips::{ParkedCar, ParkingSpot, TripSpec, VehicleSpec};
use crate::units::Tick;
use crate::walking::{
    PedEvent, Pedestrian, WalkingSimState, apply_ped_events, lemma_apply_ped_events, peds_below,
};

verus! {

/// What a car is doing, as seen from outside the simulation.
#[derive(Clone, Copy, Debug, PartialEq, Eq, Structural)]
pub enum CarState {
    /// The car has an active driving record and nothing blocks it.
    Moving,
    /// The car has an active driving record and waits on something ahead.
    Stuck,
    /// The car has no active driving record.
    Parked,
}

pub struct Sim {
    pub rng: XorShiftRng,
    pub time: Tick,
    /// The identifier that the next new vehicle gets.
    pub car_id_counter: usize,
    /// The identifier that the next new pedestrian gets.
    pub ped_id_counter: usize,
    pub debug: Option<CarID>,
    pub driving_state: DrivingSimState,
    pub parking_state: ParkingSimState,
    pub walking_state: WalkingSimState,
    /// The trips that are scheduled and not yet realized, in the order in
    /// which they were scheduled.
    pub queued_trips: Vec<(Tick, TripSpec)>,
    /// The trips that were realized, in the order in which they were.
    pub realized_trips: Vec<(Tick, TripSpec)>,
}

impl Sim {
    /// The subsystems are well formed, every vehicle has an identifier
    /// that was handed out, and no vehicle is both parked and on the road.
    pub open spec fn wf(&self) -> bool {
        &&& self.driving_state.wf()
        &&& self.parking_state.wf()
        &&& self.walking_state.wf()
        &&& cars_below(self.driving_state.cars@, self.car_id_counter as int)
        &&& peds_below(self.walking_state.peds@, self.ped_id_counter as int)
        &&& forall|spot: ParkingSpot|
            self.parking_state.has_spot(spot) && (#[trigger] self.parking_state.at(spot)) is Some
                ==> self.parking_state.at(spot).unwrap().vehicle.id.0 < self.car_id_counter
        &&& forall|spot: ParkingSpot, i: int|
            self.parking_state.has_spot(spot) && (#[trigger] self.parking_state.at(spot)) is Some
                && 0 <= i < self.driving_state.cars.len() ==> self.parking_state.at(
                spot,
            ).unwrap().vehicle.id != (#[trigger] self.driving_state.cars[i]).vehicle.id
        &&& self.parking_state.num_parked <= self.car_id_counter
    }

    /// The parking subsystem has a row of spots for every lane of the map.
    pub open spec fn fits(&self, map: &RoadMap) -> bool {
        self.parking_state.lanes.len() == map.lanes.len()
    }

    /// A simulation of `map` at time zero, with nothing parked, nothing on
    /// the road and nobody out, whose random stream starts from `rng`.
    pub fn with_rng(map: &RoadMap, rng: XorShiftRng) -> (sim: Sim)
        ensures
            sim.wf(),
            sim.fits(map),
            sim.rng == rng,
            sim.time == Tick(0),
            sim.car_id_counter == 0,
            sim.ped_id_counter == 0,
            sim.debug is None,
            sim.queued_trips.len() == 0,
            sim.realized_trips.len() == 0,
            sim.driving_state.cars.len() == 0,
            sim.walking_state.peds.len() == 0,
            sim.parking_state.num_parked == 0,
            forall|spot: ParkingSpot|
                sim.parking_state.has_spot(spot) ==> sim.parking_state.spec_is_free(spot),
            forall|l: int|
                0 <= l < map.lanes.len() ==> (#[trigger] sim.parking_state.lanes[l]).len()
                    == crate::parking::spots_on(map.lanes[l]),
            forall|l: int|
                0 <= l < map.lanes.len() ==> (sim.driving_state.lanes@.contains(l as usize) <==> (
                #[trigger] map.lanes[l]).lane_type == LaneType::Driving),
            forall|l: int|
                0 <= l < map.lanes.len() ==> (sim.walking_state.lanes@.contains(l as usize) <==> (
                #[trigger] map.lanes[l]).lane_type == LaneType::Sidewalk),
            sim.driving_state.lanes.ids@ == lanes_typed(
                map.lanes@,
                LaneType::Driving,
                map.lanes.len() as int,
            ),
            sim.walking_state.lanes.ids@ == lanes_typed(
                map.lanes@,
                LaneType::Sidewalk,
                map.lanes.len() as int,
            ),
            sim.driving_state.turns.ids.len() == 0,
            sim.walking_state.turns.ids.len() == 0,
            sim.driving_state.stepped_at == Tick(0),
    {
        let mut driving_state = DrivingSimState::new();
        let mut walking_state = WalkingSimState::new();
        let mut l: usize = 0;
        while l < map.lanes.len()
            invariant
                l <= map.lanes.len(),
                driving_state.wf(),
                walking_state.wf(),
                driving_state.cars.len() == 0,
                walking_state.peds.len() == 0,
                driving_state.lanes.ids@ == lanes_typed(map.lanes@, LaneType::Driving, l as int),
                walking_state.lanes.ids@ == lanes_typed(map.lanes@, LaneType::Sidewalk, l as int),
                driving_state.turns.ids.len() == 0,
                walking_state.turns.ids.len() == 0,
                driving_state.stepped_at == Tick(0),
                forall|j: usize|
                    driving_state.lanes@.contains(j) <==> (j < l && (
                    #[trigger] map.lanes[j as int]).lane_type == LaneType::Driving),
                forall|j: usize|
                    walking_state.lanes@.contains(j) <==> (j < l && (
                    #[trigger] map.lanes[j as int]).lane_type == LaneType::Sidewalk),
            decreases map.lanes.len() - l,
        {
            match map.lanes[l].lane_type {
                LaneType::Driving => {
                    driving_state.edit_add_lane(LaneID(l));
                },
                LaneType::Sidewalk => {
                    walking_state.edit_add_lane(LaneID(l));
                },
                LaneType::Parking => {},
                LaneType::Biking => {},
            }
            l += 1;
        }
        Sim {
            rng,
            time: Tick(0),
            car_id_counter: 0,
            ped_id_counter: 0,
            debug: None,
            driving_state,
            parking_state: ParkingSimState::new(map),
            walking_state,
            queued_trips: Vec::new(),
            realized_trips: Vec::new(),
        }
    }

    /// A simulation of `map` at time zero, whose random stream is seeded
    /// with sixteen copies of `rng_seed`.
    pub fn new(map: &RoadMap, rng_seed: u8) -> (sim: Sim)
        ensures
            sim.wf(),
            sim.fits(map),
            sim.time == Tick(0),
            sim.car_id_counter == 0,
            sim.ped_id_counter == 0,
            sim.debug is None,
            sim.queued_trips.len() == 0,
            sim.realized_trips.len() == 0,
            sim.driving_state.cars.len() == 0,
            sim.walking_state.peds.len() == 0,
            sim.parking_state.num_parked == 0,
            forall|spot: ParkingSpot|
                sim.parking_state.has_spot(spot) ==> sim.parking_state.spec_is_free(spot),
            forall|l: int|
                0 <= l < map.lanes.len() ==> (#[trigger] sim.parking_state.lanes[l]).len()
                    == crate::parking::spots_on(map.lanes[l]),
            forall|l: int|
                0 <= l < map.lanes.len() ==> (sim.driving_state.lanes@.contains(l as usize) <==> (
                #[trigger] map.lanes[l]).lane_type == LaneType::Driving),
            forall|l: int|
                0 <= l < map.lanes.len() ==> (sim.walking_state.lanes@.contains(l as usize) <==> (
                #[trigger] map.lanes[l]).lane_type == LaneType::Sidewalk),
            sim.driving_state.lanes.ids@ == lanes_typed(
                map.lanes@,
                LaneType::Driving,
                map.lanes.len() as int,
            ),
            sim.walking_state.lanes.ids@ == lanes_typed(
                map.lanes@,
                LaneType::Sidewalk,
                map.lanes.len() as int,
            ),
            sim.driving_state.turns.ids.len() == 0,
            sim.walking_state.turns.ids.len() == 0,
            sim.driving_state.stepped_at == Tick(0),
    {
        Sim::with_rng(map, seeded_generator(rng_seed))
    }

    /// The simulated time.
    pub fn time(&self) -> (t: Tick)
        ensures
            t == self.time,
    {
        self.time
    }

    /// How many vehicle identifiers were handed out.
    pub fn total_cars(&self) -> (n: usize)
        ensures
            n == self.car_id_counter,
    {
        self.car_id_counter
    }

    /// The free spots of a lane, in order.
    pub fn get_free_spots(&self, lane: LaneID) -> (spots: Vec<ParkingSpot>)
        ensures
            spots@ == self.parking_state.spec_free_spots(lane),
    {
        self.parking_state.get_free_spots(lane)
    }

    /// The parked vehicles that a building owns.
    pub fn get_parked_cars_by_owner(&self, owner: BuildingID) -> (cars: Vec<ParkedCar>)
        ensures
            cars@ == self.parking_state.spec_parked_cars_by_owner(owner),
    {
        self.parking_state.get_parked_cars_by_owner(owner)
    }

    /// Makes a new vehicle and parks it in a free spot. The vehicle gets
    /// the next identifier.
    pub fn seed_parked_car(
        &mut self,
        vehicle: VehicleSpec,
        spot: ParkingSpot,
        owner: Option<BuildingID>,
    )
        requires
            old(self).wf(),
            old(self).parking_state.spec_is_free(spot),
            old(self).car_id_counter < usize::MAX,
        ensures
            final(self).wf(),
            final(self).car_id_counter == old(self).car_id_counter + 1,
            final(self).parking_state.at(spot) == Some(
                ParkedCar { vehicle: vehicle.make(CarID(old(self).car_id_counter)), spot, owner },
            ),
            forall|other: ParkingSpot|
                old(self).parking_state.has_spot(other) && other != spot ==> final(self).parking_state.at(other) == old(self).parking_state.at(other),
            final(self).parking_state.lanes.len() == old(self).parking_state.lanes.len(),
            forall|l: int|
                0 <= l < old(self).parking_state.lanes.len() ==> (
                #[trigger] final(self).parking_state.lanes[l]).len() == old(self).parking_state.lanes[l].len(),
            final(self).parking_state.num_parked == old(self).parking_state.num_parked + 1,
            final(self).time == old(self).time,
            final(self).ped_id_counter == old(self).ped_id_counter,
            final(self).debug == old(self).debug,
            final(self).driving_state == old(self).driving_state,
            final(self).walking_state == old(self).walking_state,
            final(self).queued_trips == old(self).queued_trips,
            final(self).realized_trips == old(self).realized_trips,
            final(self).rng == old(self).rng,
    {
        let id = CarID(self.car_id_counter);
        proof {
            assert(!self.parking_state.holds(id)) by {
                if self.parking_state.holds(id) {
                    let s = choose|s: ParkingSpot|
                        self.parking_state.has_spot(s) && (#[trigger] self.parking_state.at(s))
                            is Some && self.parking_state.at(s).unwrap().vehicle.id == id;
                    assert(self.parking_state.at(s).unwrap().vehicle.id.0 < self.car_id_counter);
                }
            }
        }
        let ghost before = *self;
        self.parking_state.add_parked_car(ParkedCar { vehicle: vehicle.make(id), spot, owner });
        self.car_id_counter = self.car_id_counter + 1;
        proof {
            assert forall|s: ParkingSpot|
                self.parking_state.has_spot(s) && (#[trigger] self.parking_state.at(s))
                    is Some implies self.parking_state.at(s).unwrap().vehicle.id.0
                < self.car_id_counter by {
                assert(before.parking_state.has_spot(s));
                if s != spot {
                    assert(self.parking_state.at(s) == before.parking_state.at(s));
                }
            }
            assert forall|s: ParkingSpot, i: int|
                self.parking_state.has_spot(s) && (#[trigger] self.parking_state.at(s)) is Some
                    && 0 <= i < self.driving_state.cars.len() implies self.parking_state.at(
                s,
            ).unwrap().vehicle.id != (#[trigger] self.driving_state.cars[i]).vehicle.id by {
                assert(before.parking_state.has_spot(s));
                if s != spot {
                    assert(self.parking_state.at(s) == before.parking_state.at(s));
                }
            }
        }
    }

    /// Puts a trip in the queue. Nothing is realized yet.
    pub fn schedule_trip(&mut self, start_time: Tick, spec: TripSpec)
        ensures
            final(self).queued_trips@ == old(self).queued_trips@.push((start_time, spec)),
            final(self).time == old(self).time,
            final(self).car_id_counter == old(self).car_id_counter,
            final(self).ped_id_counter == old(self).ped_id_counter,
            final(self).debug == old(self).debug,
            final(self).driving_state == old(self).driving_state,
            final(self).parking_state == old(self).parking_state,
            final(self).walking_state == old(self).walking_state,
            final(self).realized_trips == old(self).realized_trips,
            final(self).rng == old(self).rng,
    {
        self.queued_trips.push((start_time, spec));
    }
}

/// `std::time::Instant`, carried through as an opaque value.
#[verifier::external_type_specification]
#[verifier::external_body]
pub struct ExInstant(std::time::Instant);

/// `Instant::now`: the present moment of the machine's clock. Nothing is
/// claimed of it.
#[verifier::external_body]
pub(crate) fn clock_now() -> std::time::Instant {
    std::time::Instant::now()
}

/// `Instant::elapsed`: how much time has passed on the machine's clock
/// since the given moment. Nothing is claimed of it.
#[verifier::external_body]
pub(crate) fn clock_elapsed(since: &std::time::Instant) -> std::time::Duration {
    since.elapsed()
}

/// The order of `std::time::Duration`: whether `a` is at least as long as
/// `b`. Nothing is claimed of the answer.
#[verifier::external_body]
pub(crate) fn at_least(a: &std::time::Duration, b: &std::time::Duration) -> bool {
    a >= b
}

/// How agents move: what is not decided by the orchestrator. Each tick
/// the orchestrator shows the movement the records of the agents that
/// are out, and the movement reports what became of them.
pub trait Movement {
    /// What became of the vehicles on the road in the tick that ends at
    /// `now`.
    fn step_cars(&mut self, now: Tick, map: &RoadMap, cars: &Vec<DrivingCar>) -> Vec<CarEvent>;

    /// What became of the pedestrians in the tick that ends at `now`.
    fn step_peds(&mut self, now: Tick, map: &RoadMap, peds: &Vec<Pedestrian>) -> Vec<PedEvent>;

    /// Whether a vehicle can come onto the lane now, among the vehicles
    /// that are on the road.
    fn has_room(&mut self, now: Tick, map: &RoadMap, lane: LaneID, cars: &Vec<DrivingCar>) -> bool;

    /// Whether a pedestrian who starts on the sidewalk has somewhere to
    /// go, and a path to it.
    fn finds_walk(&mut self, map: &RoadMap, from: LaneID) -> bool;
}

/// The movement in which nothing ever moves.
pub struct Standstill {}

impl Movement for Standstill {
    fn step_cars(&mut self, now: Tick, map: &RoadMap, cars: &Vec<DrivingCar>) -> (events: Vec<
        CarEvent,
    >)
        ensures
            events@.len() == 0,
    {
        Vec::new()
    }

    fn step_peds(&mut self, now: Tick, map: &RoadMap, peds: &Vec<Pedestrian>) -> (events: Vec<
        PedEvent,
    >)
        ensures
            events@.len() == 0,
    {
        Vec::new()
    }

    fn has_room(&mut self, now: Tick, map: &RoadMap, lane: LaneID, cars: &Vec<DrivingCar>) -> (room:
        bool)
        ensures
            !room,
    {
        false
    }

    fn finds_walk(&mut self, map: &RoadMap, from: LaneID) -> (found: bool)
        ensures
            !found,
    {
        false
    }
}

/// What the movement reported in one step.
pub struct StepReport {
    pub car_events: Vec<CarEvent>,
    pub ped_events: Vec<PedEvent>,
}

/// What one step does: time advances by one tick, the reports of the
/// movement are applied to the vehicles on the road and to the
/// pedestrians, and nothing else changes. The parking subsystem does not
/// change with time.
pub open spec fn stepped(
    before: &Sim,
    after: &Sim,
    car_events: Seq<CarEvent>,
    ped_events: Seq<PedEvent>,
) -> bool {
    &&& after.time.0 == before.time.0 + 1
    &&& after.driving_state.cars@ == apply_events(
        before.driving_state.cars@,
        car_events,
        car_events.len() as int,
    )
    &&& after.driving_state.stepped_at == after.time
    &&& after.walking_state.peds@ == apply_ped_events(
        before.walking_state.peds@,
        ped_events,
        ped_events.len() as int,
    )
    &&& same_but_agents(before, after)
}

/// The numbers of those of the first `n` lanes that have the type, in
/// the order of the lanes.
pub open spec fn lanes_typed(lanes: Seq<crate::map::Lane>, lane_type: LaneType, n: int) -> Seq<usize>
    decreases n,
{
    if n <= 0 {
        Seq::empty()
    } else if lanes[n - 1].lane_type == lane_type {
        lanes_typed(lanes, lane_type, n - 1).push((n - 1) as usize)
    } else {
        lanes_typed(lanes, lane_type, n - 1)
    }
}

/// `after` is `before` after `n` steps, one after the other, each with
/// some report of the movement.
pub open spec fn stepped_times(before: &Sim, after: &Sim, n: int) -> bool
    decreases n,
{
    if n <= 0 {
        *after == *before
    } else {
        exists|mid: Sim, car_events: Seq<CarEvent>, ped_events: Seq<PedEvent>|
            stepped_times(before, &mid, n - 1) && #[trigger] stepped(
                &mid,
                after,
                car_events,
                ped_events,
            )
    }
}

/// Nothing but the time, the vehicles on the road and the pedestrians
/// differs between `before` and `after`.
pub open spec fn same_but_agents(before: &Sim, after: &Sim) -> bool {
    &&& after.rng == before.rng
    &&& after.car_id_counter == before.car_id_counter
    &&& after.ped_id_counter == before.ped_id_counter
    &&& after.debug == before.debug
    &&& after.parking_state == before.parking_state
    &&& after.driving_state.lanes == before.driving_state.lanes
    &&& after.driving_state.turns == before.driving_state.turns
    &&& after.walking_state.lanes == before.walking_state.lanes
    &&& after.walking_state.turns == before.walking_state.turns
    &&& after.queued_trips == before.queued_trips
    &&& after.realized_trips == before.realized_trips
}

/// Whether a fast-forward goes on: the time asked for has not passed,
/// and the budget of real time is not spent.
pub fn keep_stepping(now: Tick, end: Tick, budget_spent: bool) -> (go_on: bool)
    ensures
        go_on == (now.0 < end.0 && !budget_spent),
{
    now.0 < end.0 && !budget_spent
}

/// A line of figures on the simulation.
#[derive(Clone, Copy, Debug, PartialEq, Eq, Structural)]
pub struct SimSummary {
    pub time: Tick,
    /// How many of the vehicles on the road wait for something.
    pub waiting: usize,
    /// How many vehicles are on the road.
    pub active: usize,
    /// How many vehicles are parked.
    pub parked: usize,
    /// How many pedestrians are out.
    pub pedestrians: usize,
}

/// A vehicle to draw: one on the road, or a parked one.
#[derive(Clone, Copy, Debug, PartialEq, Eq, Structural)]
pub enum DrawCar {
    Driving(DrivingCar),
    Parked(crate::trips::ParkedCar),
}

/// The vehicles among the first `n` records that are on `on`, in order.
pub open spec fn draw_driving(cars: Seq<DrivingCar>, on: On, n: int) -> Seq<DrawCar>
    decreases n,
{
    if n <= 0 {
        Seq::empty()
    } else if cars[n - 1].on == on {
        draw_driving(cars, on, n - 1).push(DrawCar::Driving(cars[n - 1]))
    } else {
        draw_driving(cars, on, n - 1)
    }
}

/// The vehicles in the first `n` spots of a lane, in order.
pub open spec fn draw_parked(slots: Seq<Slot>, n: int) -> Seq<DrawCar>
    decreases n,
{
    if n <= 0 {
        Seq::empty()
    } else {
        match slots[n - 1] {
            Some(c) => draw_parked(slots, n - 1).push(DrawCar::Parked(c)),
            None => draw_parked(slots, n - 1),
        }
    }
}

/// The pedestrians among the first `n` records that are on `on`, in
/// order.
pub open spec fn draw_peds(peds: Seq<Pedestrian>, on: On, n: int) -> Seq<Pedestrian>
    decreases n,
{
    if n <= 0 {
        Seq::empty()
    } else if peds[n - 1].on == on {
        draw_peds(peds, on, n - 1).push(peds[n - 1])
    } else {
        draw_peds(peds, on, n - 1)
    }
}

/// How many of the first `n` records are of vehicles that wait.
pub open spec fn waiting_upto(cars: Seq<DrivingCar>, n: int) -> int
    decreases n,
{
    if n <= 0 {
        0
    } else if cars[n - 1].waiting_for is Some {
        waiting_upto(cars, n - 1) + 1
    } else {
        waiting_upto(cars, n - 1)
    }
}

impl Sim {
    /// What the car is doing: `Parked` if it has no driving record, else
    /// `Stuck` if it waits for something, else `Moving`.
    pub open spec fn spec_car_state(&self, c: CarID) -> CarState {
        match self.driving_state.spec_get(c) {
            Some(car) => if car.waiting_for is None {
                CarState::Moving
            } else {
                CarState::Stuck
            },
            None => CarState::Parked,
        }
    }

    /// Advances the simulation by one tick: time moves on, then the
    /// vehicles on the road, then the pedestrians.
    pub fn step<M: Movement>(&mut self, map: &RoadMap, movement: &mut M) -> (report: StepReport)
        requires
            old(self).wf(),
            old(self).time.0 < u64::MAX,
        ensures
            final(self).wf(),
            stepped(old(self), final(self), report.car_events@, report.ped_events@),
    {
        self.time = Tick(self.time.0 + 1);
        let car_events = movement.step_cars(self.time, map, &self.driving_state.cars);
        self.driving_state.step(self.time, &car_events);
        let ped_events = movement.step_peds(self.time, map, &self.walking_state.peds);
        self.walking_state.step(&ped_events);
        proof {
            let before = old(self).driving_state.cars@;
            lemma_apply_events(
                before,
                car_events@,
                car_events.len() as int,
                self.car_id_counter as int,
            );
            lemma_apply_ped_events(
                old(self).walking_state.peds@,
                ped_events@,
                ped_events.len() as int,
                self.ped_id_counter as int,
            );
            assert forall|spot: ParkingSpot, i: int|
                self.parking_state.has_spot(spot) && (#[trigger] self.parking_state.at(spot))
                    is Some && 0 <= i < self.driving_state.cars.len() implies self.parking_state.at(
                spot,
            ).unwrap().vehicle.id != (#[trigger] self.driving_state.cars[i]).vehicle.id by {
                assert(has_vehicle(before, self.driving_state.cars@[i].vehicle));
                let k = choose|k: int|
                    0 <= k < before.len() && (#[trigger] before[k]).vehicle
                        == self.driving_state.cars@[i].vehicle;
                assert(old(self).driving_state.cars[k].vehicle.id != old(self).parking_state.at(
                    spot,
                ).unwrap().vehicle.id);
            }
        }
        StepReport { car_events, ped_events }
    }

    /// Fast-forwards: steps until `dt` ticks have passed or the budget of
    /// real time is spent. The clock is read after every `granularity`
    /// ticks, and never in the middle of a step. Says how many ticks have
    /// passed.
    pub fn time_limited_step<M: Movement>(
        &mut self,
        map: &RoadMap,
        movement: &mut M,
        dt: u64,
        granularity: u64,
        real_time_limit: &std::time::Duration,
    ) -> (ticks: u64)
        requires
            old(self).wf(),
            old(self).time.0 + dt <= u64::MAX,
            granularity > 0,
        ensures
            final(self).wf(),
            final(self).time.0 == old(self).time.0 + ticks,
            ticks <= dt,
            ticks == dt || (ticks > 0 && ticks % granularity == 0),
            stepped_times(old(self), final(self), ticks as int),
            same_but_agents(old(self), final(self)),
    {
        let started_at = clock_now();
        let end_time = Tick(self.time.0 + dt);
        let mut ticks: u64 = 0;
        while self.time.0 < end_time.0
            invariant
                self.wf(),
                granularity > 0,
                end_time.0 == old(self).time.0 + dt,
                self.time.0 == old(self).time.0 + ticks,
                ticks <= dt,
                ticks % granularity == 0,
                stepped_times(old(self), self, ticks as int),
                same_but_agents(old(self), self),
            decreases end_time.0 - self.time.0,
        {
            let left = end_time.0 - self.time.0;
            let chunk = if left < granularity {
                left
            } else {
                granularity
            };
            let mut done: u64 = 0;
            while done < chunk
                invariant
                    self.wf(),
                    done <= chunk,
                    chunk <= left,
                    left == end_time.0 - (self.time.0 - done),
                    self.time.0 == old(self).time.0 + ticks + done,
                    end_time.0 == old(self).time.0 + dt,
                    stepped_times(old(self), self, ticks + done),
                    same_but_agents(old(self), self),
                decreases chunk - done,
            {
                let ghost mid = *self;
                let report = self.step(map, movement);
                proof {
                    assert(stepped(&mid, self, report.car_events@, report.ped_events@));
                }
                done += 1;
            }
            ticks = ticks + chunk;
            if chunk < granularity {
                return ticks;
            }
            proof {
                assert((ticks - granularity) % (granularity as int) == 0);
                assert(ticks % granularity == 0) by (nonlinear_arith)
                    requires
                        (ticks - granularity) % (granularity as int) == 0,
                        granularity > 0,
                        ticks >= granularity,
                ;
            }
            let elapsed = clock_elapsed(&started_at);
            if !keep_stepping(self.time, end_time, at_least(&elapsed, real_time_limit)) {
                return ticks;
            }
        }
        ticks
    }

    /// What the car is doing.
    #[verifier::when_used_as_spec(spec_car_state)]
    pub fn get_car_state(&self, c: CarID) -> (state: CarState)
        ensures
            state == self.spec_car_state(c),
    {
        match self.driving_state.get(c) {
            Some(driving) => if driving.waiting_for.is_none() {
                CarState::Moving
            } else {
                CarState::Stuck
            },
            None => CarState::Parked,
        }
    }

    /// Tells the subsystems that the type of a lane was changed on the
    /// map: the subsystem of the old type stops tracking the lane, and
    /// the subsystem of the new type starts tracking it. No subsystem
    /// tracks biking lanes.
    pub fn edit_lane_type(&mut self, id: LaneID, old_type: LaneType, map: &RoadMap)
        requires
            old(self).wf(),
            old(self).fits(map),
            map.wf(),
            map.has_lane(id),
        ensures
            final(self).wf(),
            final(self).fits(map),
            final(self).driving_state.lanes@ == (if map.lanes[id.0 as int].lane_type
                == LaneType::Driving {
                old(self).driving_state.lanes@.insert(id.0)
            } else if old_type == LaneType::Driving {
                old(self).driving_state.lanes@.remove(id.0)
            } else {
                old(self).driving_state.lanes@
            }),
            final(self).walking_state.lanes@ == (if map.lanes[id.0 as int].lane_type
                == LaneType::Sidewalk {
                old(self).walking_state.lanes@.insert(id.0)
            } else if old_type == LaneType::Sidewalk {
                old(self).walking_state.lanes@.remove(id.0)
            } else {
                old(self).walking_state.lanes@
            }),
            forall|l: int|
                0 <= l < map.lanes.len() && l != id.0 ==> (
                #[trigger] final(self).parking_state.lanes[l]) == old(self).parking_state.lanes[l],
            ({
                let was = old(self).parking_state.lanes[id.0 as int];
                let is = final(self).parking_state.lanes[id.0 as int];
                let lane = map.lanes[id.0 as int];
                let let_go = old_type == LaneType::Parking && old(self).parking_state.lane_is_empty(
                    id,
                );
                if lane.lane_type == LaneType::Parking && (let_go || was.len() == 0) {
                    is.len() == crate::parking::spots_on(lane) && final(self).parking_state.lane_is_empty(id)
                } else if let_go {
                    is.len() == 0
                } else {
                    is == was
                }
            }),
            final(self).parking_state.num_parked == old(self).parking_state.num_parked,
            final(self).driving_state.cars == old(self).driving_state.cars,
            final(self).driving_state.turns == old(self).driving_state.turns,
            final(self).walking_state.peds == old(self).walking_state.peds,
            final(self).walking_state.turns == old(self).walking_state.turns,
            final(self).time == old(self).time,
            final(self).car_id_counter == old(self).car_id_counter,
            final(self).ped_id_counter == old(self).ped_id_counter,
            final(self).queued_trips == old(self).queued_trips,
            final(self).realized_trips == old(self).realized_trips,
            final(self).rng == old(self).rng,
            final(self).debug == old(self).debug,
            final(self).driving_state.stepped_at == old(self).driving_state.stepped_at,
            final(self).driving_state.lanes.ids@ == ({
                let left = if old_type == LaneType::Driving {
                    taken_out(old(self).driving_state.lanes.ids@, id.0)
                } else {
                    old(self).driving_state.lanes.ids@
                };
                if map.lanes[id.0 as int].lane_type == LaneType::Driving {
                    put_in(left, id.0)
                } else {
                    left
                }
            }),
            final(self).walking_state.lanes.ids@ == ({
                let left = if old_type == LaneType::Sidewalk {
                    taken_out(old(self).walking_state.lanes.ids@, id.0)
                } else {
                    old(self).walking_state.lanes.ids@
                };
                if map.lanes[id.0 as int].lane_type == LaneType::Sidewalk {
                    put_in(left, id.0)
                } else {
                    left
                }
            }),
    {
        let ghost before = *self;
        match old_type {
            LaneType::Driving => self.driving_state.edit_remove_lane(id),
            LaneType::Parking => self.parking_state.edit_remove_lane(id),
            LaneType::Sidewalk => self.walking_state.edit_remove_lane(id),
            LaneType::Biking => {},
        }
        let ghost mid = *self;
        proof {
            lemma_parking_kept(&before, &mid, id);
        }
        let l = map.get_l(id);
        match l.lane_type {
            LaneType::Driving => self.driving_state.edit_add_lane(id),
            LaneType::Parking => self.parking_state.edit_add_lane(l),
            LaneType::Sidewalk => self.walking_state.edit_add_lane(id),
            LaneType::Biking => {},
        }
        proof {
            lemma_parking_kept(&mid, self, id);
            assert(self.driving_state.lanes@ =~= (if map.lanes[id.0 as int].lane_type
                == LaneType::Driving {
                old(self).driving_state.lanes@.insert(id.0)
            } else if old_type == LaneType::Driving {
                old(self).driving_state.lanes@.remove(id.0)
            } else {
                old(self).driving_state.lanes@
            }));
            assert(self.walking_state.lanes@ =~= (if map.lanes[id.0 as int].lane_type
                == LaneType::Sidewalk {
                old(self).walking_state.lanes@.insert(id.0)
            } else if old_type == LaneType::Sidewalk {
                old(self).walking_state.lanes@.remove(id.0)
            } else {
                old(self).walking_state.lanes@
            }));
        }
    }

    /// Tells the subsystems that a turn was taken off the map: the
    /// walking subsystem if the turn joins sidewalks, else the driving
    /// subsystem.
    pub fn edit_remove_turn(&mut self, t: &Turn)
        requires
            old(self).wf(),
        ensures
            final(self).wf(),
            t.between_sidewalks ==> final(self).walking_state.turns@ == old(self).walking_state.turns@.remove(t.id.0) && final(self).driving_state == old(self).driving_state,
            !t.between_sidewalks ==> final(self).driving_state.turns@ == old(self).driving_state.turns@.remove(t.id.0) && final(self).walking_state == old(self).walking_state,
            final(self).driving_state.cars == old(self).driving_state.cars,
            final(self).driving_state.lanes == old(self).driving_state.lanes,
            final(self).walking_state.peds == old(self).walking_state.peds,
            final(self).walking_state.lanes == old(self).walking_state.lanes,
            final(self).parking_state == old(self).parking_state,
            final(self).time == old(self).time,
            final(self).car_id_counter == old(self).car_id_counter,
            final(self).ped_id_counter == old(self).ped_id_counter,
            final(self).queued_trips == old(self).queued_trips,
            final(self).realized_trips == old(self).realized_trips,
            final(self).rng == old(self).rng,
            final(self).debug == old(self).debug,
            final(self).driving_state.stepped_at == old(self).driving_state.stepped_at,
            t.between_sidewalks ==> final(self).walking_state.turns.ids@ == taken_out(
                old(self).walking_state.turns.ids@,
                t.id.0,
            ),
            !t.between_sidewalks ==> final(self).driving_state.turns.ids@ == taken_out(
                old(self).driving_state.turns.ids@,
                t.id.0,
            ),
    {
        if t.between_sidewalks {
            self.walking_state.edit_remove_turn(t.id);
        } else {
            self.driving_state.edit_remove_turn(t.id);
        }
    }

    /// Tells the subsystems that a turn was put on the map: the walking
    /// subsystem if the turn joins sidewalks, else the driving subsystem.
    pub fn edit_add_turn(&mut self, t: &Turn, map: &RoadMap)
        requires
            old(self).wf(),
        ensures
            final(self).wf(),
            t.between_sidewalks ==> final(self).walking_state.turns@ == old(self).walking_state.turns@.insert(t.id.0) && final(self).driving_state == old(self).driving_state,
            !t.between_sidewalks ==> final(self).driving_state.turns@ == old(self).driving_state.turns@.insert(t.id.0) && final(self).walking_state == old(self).walking_state,
            final(self).driving_state.cars == old(self).driving_state.cars,
            final(self).driving_state.lanes == old(self).driving_state.lanes,
            final(self).walking_state.peds == old(self).walking_state.peds,
            final(self).walking_state.lanes == old(self).walking_state.lanes,
            final(self).parking_state == old(self).parking_state,
            final(self).time == old(self).time,
            final(self).car_id_counter == old(self).car_id_counter,
            final(self).ped_id_counter == old(self).ped_id_counter,
            final(self).queued_trips == old(self).queued_trips,
            final(self).realized_trips == old(self).realized_trips,
            final(self).rng == old(self).rng,
            final(self).debug == old(self).debug,
            final(self).driving_state.stepped_at == old(self).driving_state.stepped_at,
            t.between_sidewalks ==> final(self).walking_state.turns.ids@ == put_in(
                old(self).walking_state.turns.ids@,
                t.id.0,
            ),
            !t.between_sidewalks ==> final(self).driving_state.turns.ids@ == put_in(
                old(self).driving_state.turns.ids@,
                t.id.0,
            ),
    {
        if t.between_sidewalks {
            self.walking_state.edit_add_turn(t.id);
        } else {
            self.driving_state.edit_add_turn(t.id);
        }
    }

    /// The figures of the simulation: the time, how many vehicles are on
    /// the road and how many of them wait, how many are parked, and how
    /// many pedestrians are out.
    pub fn summary(&self) -> (s: SimSummary)
        requires
            self.wf(),
        ensures
            s.time == self.time,
            s.waiting == waiting_upto(self.driving_state.cars@, self.driving_state.cars.len() as int),
            s.active == self.driving_state.cars.len(),
            s.parked == self.parking_state.all_cars().len(),
            s.pedestrians == self.walking_state.peds.len(),
    {
        let mut waiting: usize = 0;
        let mut i: usize = 0;
        while i < self.driving_state.cars.len()
            invariant
                i <= self.driving_state.cars.len(),
                waiting == waiting_upto(self.driving_state.cars@, i as int),
                waiting <= i,
            decreases self.driving_state.cars.len() - i,
        {
            if self.driving_state.cars[i].waiting_for.is_some() {
                waiting += 1;
            }
            i += 1;
        }
        SimSummary {
            time: self.time,
            waiting,
            active: self.driving_state.cars.len(),
            parked: self.parking_state.total_count(),
            pedestrians: self.walking_state.total_count(),
        }
    }

    /// Moves the mark of the car to look at to `car`: the car that had
    /// the mark, if it is another one and is still on the road, is looked
    /// at no more; whether `car` is looked at is turned round.
    pub fn toggle_debug(&mut self, car: CarID)
        requires
            old(self).wf(),
            old(self).driving_state.spec_get(car) is Some,
        ensures
            final(self).wf(),
            final(self).debug == Some(car),
            final(self).driving_state.cars.len() == old(self).driving_state.cars.len(),
            forall|i: int|
                0 <= i < old(self).driving_state.cars.len() ==> {
                    let was = old(self).driving_state.cars[i];
                    let is = #[trigger] final(self).driving_state.cars[i];
                    is == DrivingCar {
                        debug: if was.vehicle.id == car {
                            !was.debug
                        } else if old(self).debug == Some(was.vehicle.id) {
                            false
                        } else {
                            was.debug
                        },
                        ..was
                    }
                },
            same_but_debug(old(self), final(self)),
    {
        let ghost first = self.driving_state.cars@;
        proof {
            crate::driving::lemma_index_of_car(first, car);
        }
        if let Some(c) = self.debug {
            if c != car {
                if let Some(i) = self.driving_state.find(c) {
                    let was = self.driving_state.cars[i];
                    self.driving_state.cars.set(i, DrivingCar { debug: false, ..was });
                }
            }
        }
        let ghost mid = self.driving_state.cars@;
        proof {
            assert forall|j: int| 0 <= j < mid.len() implies (#[trigger] mid[j]).vehicle
                == first[j].vehicle by {}
            lemma_same_vehicles_same_index(first, mid, car);
            crate::driving::lemma_index_of_car(mid, car);
        }
        let i = self.driving_state.find(car).unwrap();
        let was = self.driving_state.cars[i];
        self.driving_state.cars.set(i, DrivingCar { debug: !was.debug, ..was });
        self.debug = Some(car);
        proof {
            assert forall|j: int| 0 <= j < first.len() implies ({
                let was = first[j];
                let is = #[trigger] self.driving_state.cars[j];
                is == DrivingCar {
                    debug: if was.vehicle.id == car {
                        !was.debug
                    } else if old(self).debug == Some(was.vehicle.id) {
                        false
                    } else {
                        was.debug
                    },
                    ..was
                }
            }) by {
                if j != i {
                    assert(first[j].vehicle.id != first[i as int].vehicle.id);
                }
                if old(self).debug is Some {
                    let c = old(self).debug.unwrap();
                    crate::driving::lemma_index_of_car(first, c);
                    if first[j].vehicle.id == c {
                        crate::driving::lemma_index_of_car_first(first, c, j);
                    }
                    let k = crate::driving::index_of_car(first, c);
                    if k < first.len() && j != k {
                        assert(first[j].vehicle.id != first[k].vehicle.id);
                    }
                }
            }
        }
    }

    /// The vehicles to draw on a lane: those on the road if it is a
    /// driving lane, the parked ones if it is a parking lane, none
    /// otherwise.
    pub fn get_draw_cars_on_lane(&self, l: LaneID, map: &RoadMap) -> (cars: Vec<DrawCar>)
        requires
            map.wf(),
            map.has_lane(l),
            self.fits(map),
        ensures
            cars@ == match map.lanes[l.0 as int].lane_type {
                LaneType::Driving => draw_driving(
                    self.driving_state.cars@,
                    On::Lane(l),
                    self.driving_state.cars.len() as int,
                ),
                LaneType::Parking => draw_parked(
                    self.parking_state.lanes[l.0 as int]@,
                    self.parking_state.lanes[l.0 as int].len() as int,
                ),
                LaneType::Sidewalk => Seq::empty(),
                LaneType::Biking => Seq::empty(),
            },
    {
        match map.get_l(l).lane_type {
            LaneType::Driving => self.draw_cars_on(On::Lane(l)),
            LaneType::Parking => {
                let slots = &self.parking_state.lanes[l.0];
                let mut cars: Vec<DrawCar> = Vec::new();
                let mut i: usize = 0;
                while i < slots.len()
                    invariant
                        i <= slots.len(),
                        cars@ == draw_parked(slots@, i as int),
                    decreases slots.len() - i,
                {
                    if let Some(c) = slots[i] {
                        cars.push(DrawCar::Parked(c));
                    }
                    i += 1;
                }
                cars
            },
            LaneType::Sidewalk => Vec::new(),
            LaneType::Biking => Vec::new(),
        }
    }

    /// The vehicles on the road that are on `on`, in order.
    fn draw_cars_on(&self, on: On) -> (cars: Vec<DrawCar>)
        ensures
            cars@ == draw_driving(
                self.driving_state.cars@,
                on,
                self.driving_state.cars.len() as int,
            ),
    {
        let mut cars: Vec<DrawCar> = Vec::new();
        let mut i: usize = 0;
        while i < self.driving_state.cars.len()
            invariant
                i <= self.driving_state.cars.len(),
                cars@ == draw_driving(self.driving_state.cars@, on, i as int),
            decreases self.driving_state.cars.len() - i,
        {
            if self.driving_state.cars[i].on == on {
                cars.push(DrawCar::Driving(self.driving_state.cars[i]));
            }
            i += 1;
        }
        cars
    }

    /// The pedestrians that are on `on`, in order.
    fn draw_peds_on(&self, on: On) -> (peds: Vec<Pedestrian>)
        ensures
            peds@ == draw_peds(self.walking_state.peds@, on, self.walking_state.peds.len() as int),
    {
        let mut peds: Vec<Pedestrian> = Vec::new();
        let mut i: usize = 0;
        while i < self.walking_state.peds.len()
            invariant
                i <= self.walking_state.peds.len(),
                peds@ == draw_peds(self.walking_state.peds@, on, i as int),
            decreases self.walking_state.peds.len() - i,
        {
            if self.walking_state.peds[i].on == on {
                peds.push(self.walking_state.peds[i]);
            }
            i += 1;
        }
        peds
    }

    /// The vehicles to draw on a turn: those on the road that are on it.
    pub fn get_draw_cars_on_turn(&self, t: TurnID, map: &RoadMap) -> (cars: Vec<DrawCar>)
        ensures
            cars@ == draw_driving(
                self.driving_state.cars@,
                On::Turn(t),
                self.driving_state.cars.len() as int,
            ),
    {
        self.draw_cars_on(On::Turn(t))
    }

    /// The pedestrians to draw on a lane: those that are on it.
    pub fn get_draw_peds_on_lane(&self, l: LaneID, map: &RoadMap) -> (peds: Vec<Pedestrian>)
        ensures
            peds@ == draw_peds(
                self.walking_state.peds@,
                On::Lane(l),
                self.walking_state.peds.len() as int,
            ),
    {
        self.draw_peds_on(On::Lane(l))
    }

    /// The pedestrians to draw on a turn: those that are on it.
    pub fn get_draw_peds_on_turn(&self, t: TurnID, map: &RoadMap) -> (peds: Vec<Pedestrian>)
        ensures
            peds@ == draw_peds(
                self.walking_state.peds@,
                On::Turn(t),
                self.walking_state.peds.len() as int,
            ),
    {
        self.draw_peds_on(On::Turn(t))
    }
}

/// Nothing but the mark of the car to look at, and which vehicles on the
/// road are looked at, differs between `before` and `after`.
pub open spec fn same_but_debug(before: &Sim, after: &Sim) -> bool {
    &&& after.rng == before.rng
    &&& after.time == before.time
    &&& after.car_id_counter == before.car_id_counter
    &&& after.ped_id_counter == before.ped_id_counter
    &&& after.parking_state == before.parking_state
    &&& after.walking_state == before.walking_state
    &&& after.driving_state.lanes == before.driving_state.lanes
    &&& after.driving_state.turns == before.driving_state.turns
    &&& after.driving_state.stepped_at == before.driving_state.stepped_at
    &&& after.queued_trips == before.queued_trips
    &&& after.realized_trips == before.realized_trips
}

/// Records of the same vehicles in the same order have each vehicle at
/// the same position.
pub proof fn lemma_same_vehicles_same_index(a: Seq<DrivingCar>, b: Seq<DrivingCar>, id: CarID)
    requires
        a.len() == b.len(),
        forall|j: int| 0 <= j < a.len() ==> (#[trigger] b[j]).vehicle == a[j].vehicle,
    ensures
        crate::driving::index_of_car(a, id) == crate::driving::index_of_car(b, id),
    decreases a.len(),
{
    if a.len() > 0 {
        assert(b[0].vehicle == a[0].vehicle);
        if a[0].vehicle.id != id {
            assert forall|j: int| 0 <= j < a.drop_first().len() implies (
            #[trigger] b.drop_first()[j]).vehicle == a.drop_first()[j].vehicle by {
                assert(b[j + 1].vehicle == a[j + 1].vehicle);
            }
            lemma_same_vehicles_same_index(a.drop_first(), b.drop_first(), id);
        }
    }
}

/// An edit of the rows of one lane, which leaves the rows of the other
/// lanes and the count of parked vehicles as they were and keeps the
/// parking subsystem well formed, keeps the simulation well formed.
pub proof fn lemma_parking_kept(before: &Sim, after: &Sim, id: LaneID)
    requires
        before.driving_state.wf(),
        before.walking_state.wf(),
        after.driving_state.wf(),
        after.walking_state.wf(),
        before.parking_state.wf(),
        after.parking_state.wf(),
        after.parking_state.lanes.len() == before.parking_state.lanes.len(),
        id.0 < before.parking_state.lanes.len(),
        forall|l: int|
            0 <= l < before.parking_state.lanes.len() && l != id.0 ==> (
            #[trigger] after.parking_state.lanes[l]) == before.parking_state.lanes[l],
        after.parking_state.lane_is_empty(id) || after.parking_state.lanes[id.0 as int]
            == before.parking_state.lanes[id.0 as int],
    ensures
        forall|spot: ParkingSpot|
            after.parking_state.has_spot(spot) && (#[trigger] after.parking_state.at(spot)) is Some
                ==> before.parking_state.has_spot(spot) && before.parking_state.at(spot)
                == after.parking_state.at(spot),
{
    assert forall|spot: ParkingSpot|
        after.parking_state.has_spot(spot) && (#[trigger] after.parking_state.at(spot))
            is Some implies before.parking_state.has_spot(spot) && before.parking_state.at(spot)
        == after.parking_state.at(spot) by {
        if spot.lane.0 != id.0 {
            assert(after.parking_state.lanes[spot.lane.0 as int]
                == before.parking_state.lanes[spot.lane.0 as int]);
        } else if after.parking_state.lane_is_empty(id) {
            assert(after.parking_state.lanes[id.0 as int][spot.idx as int] is None);
        }
    }
}

/// A measurement of how fast the simulation runs: where the clock and the
/// simulated time stood when it began.
pub struct Benchmark {
    pub last_real_time: std::time::Instant,
    pub last_sim_time: Tick,
}

impl Benchmark {
    /// Whether at least `d` of real time has passed since the measurement
    /// began. This depends on the clock alone.
    pub fn has_real_time_passed(&self, d: &std::time::Duration) -> bool {
        let elapsed = clock_elapsed(&self.last_real_time);
        at_least(&elapsed, d)
    }
}

impl Sim {
    /// Begins a measurement of how fast the simulation runs.
    pub fn start_benchmark(&self) -> (b: Benchmark)
        ensures
            b.last_sim_time == self.time,
    {
        Benchmark { last_real_time: clock_now(), last_sim_time: self.time }
    }

    /// Ends a measurement and begins the next one: gives the real time
    /// that has passed since the measurement began, and the ticks that
    /// have.
    pub fn measure_ticks(&self, b: &mut Benchmark) -> (passed: (std::time::Duration, u64))
        ensures
            passed.1 == if self.time.0 >= old(b).last_sim_time.0 {
                self.time.0 - old(b).last_sim_time.0
            } else {
                0
            },
            final(b).last_sim_time == self.time,
    {
        let elapsed = clock_elapsed(&b.last_real_time);
        let ticks = if self.time.0 >= b.last_sim_time.0 {
            self.time.0 - b.last_sim_time.0
        } else {
            0
        };
        b.last_real_time = clock_now();
        b.last_sim_time = self.time;
        (elapsed, ticks)
    }
}

} // verus!
