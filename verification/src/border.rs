//! Agents that appear at a border of the map, already on foot, in a car
//! or on a bike.

use vstd::prelude::*;
use rand_xorshift::XorShiftRng;
use crate::batch::{batch_done, extends, lemma_batches_join, lemma_other_warning};
use crate::demand::BorderSpawnOverTime;
use crate::goal::OriginDestination;
use crate::ids::{BuildingID, LaneID};
use crate::map::{LaneType, Position, RoadMap, lanes_of_type};
use crate::neighborhood::Neighborhoods;
use crate::random::{
    draw_ratio, fork_rng, is_random_bike, is_random_car, rand_bike, rand_car, rand_time,
};
use crate::realize::Scheduled;
use crate::report::{Timer, Warning, count_no_room};
use crate::sim::Sim;
use crate::spawning::{spec_walk, walk};
use crate::trips::{MAX_CAR_LENGTH, SidewalkSpot, TripSpec, VehicleSpec};
use crate::units::{Distance, Tick};

verus! {

/// The warning `w`, `n` times.
pub open spec fn repeated(w: Warning, n: int) -> Seq<Warning> {
    Seq::new(n as nat, |k: int| w)
}

impl BorderSpawnOverTime {
    /// The lanes of a type that start at the border.
    pub open spec fn lanes_out(&self, map: &RoadMap, lane_type: LaneType) -> Seq<LaneID> {
        lanes_of_type(
            map.intersections[self.start_from_border.0 as int].outgoing_lanes@,
            map.lanes@,
            lane_type,
        )
    }

    /// The lanes on which a bike can start: the biking lanes that start
    /// at the border, then the driving lanes that do and whose road takes
    /// bikes.
    pub open spec fn bike_lanes(&self, map: &RoadMap) -> Seq<LaneID> {
        self.lanes_out(map, LaneType::Biking) + self.lanes_out(map, LaneType::Driving).filter(
            |l: LaneID| map.roads[map.lanes[l.0 as int].parent.0 as int].supports_bikes,
        )
    }

    /// The lane on which cars start: the first driving lane that starts
    /// at the border, if it is at least as long as the longest car.
    pub open spec fn spec_car_start(&self, map: &RoadMap) -> Option<LaneID> {
        let lanes = self.lanes_out(map, LaneType::Driving);
        if lanes.len() > 0 && map.lanes[lanes[0].0 as int].length.0 >= MAX_CAR_LENGTH {
            Some(lanes[0])
        } else {
            None
        }
    }

    /// The lane on which bikes start: the first on which a bike can.
    pub open spec fn spec_bike_start(&self, map: &RoadMap) -> Option<LaneID> {
        let lanes = self.bike_lanes(map);
        if lanes.len() > 0 {
            Some(lanes[0])
        } else {
            None
        }
    }

    /// The trip of a pedestrian who ends at the drawn building: a walk,
    /// or a ride by transit, from the sidewalk that leaves the border.
    pub open spec fn spec_ped_trip(
        &self,
        map: &RoadMap,
        to: Option<BuildingID>,
        wants_transit: bool,
    ) -> Option<TripSpec> {
        match (
            SidewalkSpot::spec_start_at_border(self.start_from_border, map),
            self.goal.spec_walking_goal(map, to),
        ) {
            (Some(start), Some(goal)) => Some(spec_walk(map, start, goal, wants_transit)),
            _ => None,
        }
    }

    /// The trip of a car that ends at the drawn building: it appears at
    /// the start of the lane on which cars start.
    pub open spec fn spec_car_trip(&self, map: &RoadMap, to: Option<BuildingID>, v: VehicleSpec) -> Option<
        TripSpec,
    > {
        match (self.spec_car_start(map), self.goal.spec_driving_goal(map, to)) {
            (Some(lane), Some(goal)) => Some(
                TripSpec::CarAppearing(Position { lane, dist_along: Distance(0) }, v, goal),
            ),
            _ => None,
        }
    }

    /// The trip of a bike that ends at the drawn building: it appears on
    /// the lane on which bikes start, its own length from the start.
    pub open spec fn spec_bike_trip(&self, map: &RoadMap, to: Option<BuildingID>, v: VehicleSpec) -> Option<
        TripSpec,
    > {
        match (self.spec_bike_start(map), self.goal.spec_biking_goal(map, to)) {
            (Some(lane), Some(goal)) => Some(
                TripSpec::CarAppearing(Position { lane, dist_along: v.length }, v, goal),
            ),
            _ => None,
        }
    }

    /// How many pedestrians the request starts: all that it asks for, if
    /// a sidewalk leaves the border and a walk to the goal has a goal.
    pub open spec fn ped_count(&self, map: &RoadMap) -> int {
        if SidewalkSpot::spec_start_at_border(self.start_from_border, map) is Some
            && self.goal.walk_resolves(map) {
            self.num_peds as int
        } else {
            0
        }
    }

    /// How many cars the request starts: all that it asks for, if cars
    /// have a lane to start on and a drive to the goal has a goal.
    pub open spec fn car_count(&self, map: &RoadMap) -> int {
        if self.spec_car_start(map) is Some && self.goal.drive_resolves(map) {
            self.num_cars as int
        } else {
            0
        }
    }

    /// How many bikes the request starts: all that it asks for, if bikes
    /// have a lane to start on and a ride to the goal has a goal.
    pub open spec fn bike_count(&self, map: &RoadMap) -> int {
        if self.spec_bike_start(map) is Some && self.goal.ride_resolves(map) {
            self.num_bikes as int
        } else {
            0
        }
    }

    /// How many agents the request starts.
    pub open spec fn spec_count(&self, map: &RoadMap) -> int {
        self.ped_count(map) + self.car_count(map) + self.bike_count(map)
    }

    /// Whether the request makes any draw: it asks for an agent of a mode
    /// for which the border has a place to start.
    pub open spec fn spawns_anything(&self, map: &RoadMap) -> bool {
        ||| self.num_peds > 0 && SidewalkSpot::spec_start_at_border(self.start_from_border, map)
            is Some
        ||| self.num_cars > 0 && self.spec_car_start(map) is Some
        ||| self.num_bikes > 0 && self.spec_bike_start(map) is Some
    }

    /// The request can be served: the border is an intersection of the
    /// map and, if any draw is made, the time window is not empty and the
    /// goal is a neighborhood with a building or an intersection of the
    /// map.
    pub open spec fn can_run(&self, map: &RoadMap, neighborhoods: &Neighborhoods) -> bool {
        &&& self.percent_use_transit.wf()
        &&& map.has_intersection(self.start_from_border)
        &&& self.goal is Neighborhood ==> neighborhoods.defines(self.goal->Neighborhood_0@)
        &&& self.spawns_anything(map) ==> self.start_time.0 < self.stop_time.0
            && self.goal.usable(map, neighborhoods)
    }

    /// Whether the time lies in the window of the request.
    pub open spec fn in_window(&self, t: Tick) -> bool {
        self.start_time.0 <= t.0 < self.stop_time.0
    }

    /// Whether `entry` is a pedestrian of the request: its time lies in
    /// the window, and its trip is that of a pedestrian to a goal that
    /// can be drawn, by transit only if the request's chance of that is
    /// not zero.
    pub open spec fn ped_entry(
        &self,
        map: &RoadMap,
        neighborhoods: &Neighborhoods,
        entry: (Tick, TripSpec),
    ) -> bool {
        &&& self.in_window(entry.0)
        &&& exists|to: Option<BuildingID>, wants_transit: bool|
            self.goal.can_draw(neighborhoods, to) && (self.percent_use_transit.numerator == 0
                ==> !wants_transit) && #[trigger] self.spec_ped_trip(map, to, wants_transit)
                == Some(entry.1)
    }

    /// Whether `entry` is a car of the request: its time lies in the
    /// window, and its trip is that of a random car to a goal that can
    /// be drawn.
    pub open spec fn car_entry(
        &self,
        map: &RoadMap,
        neighborhoods: &Neighborhoods,
        entry: (Tick, TripSpec),
    ) -> bool {
        &&& self.in_window(entry.0)
        &&& exists|to: Option<BuildingID>, v: VehicleSpec|
            self.goal.can_draw(neighborhoods, to) && is_random_car(v)
                && #[trigger] self.spec_car_trip(map, to, v) == Some(entry.1)
    }

    /// Whether `entry` is a bike of the request: its time lies in the
    /// window, and its trip is that of a random bike to a goal that can
    /// be drawn.
    pub open spec fn bike_entry(
        &self,
        map: &RoadMap,
        neighborhoods: &Neighborhoods,
        entry: (Tick, TripSpec),
    ) -> bool {
        &&& self.in_window(entry.0)
        &&& exists|to: Option<BuildingID>, v: VehicleSpec|
            self.goal.can_draw(neighborhoods, to) && is_random_bike(v)
                && #[trigger] self.spec_bike_trip(map, to, v) == Some(entry.1)
    }

    /// Whether the request can put `entry` in the queue: as a pedestrian,
    /// as a car or as a bike.
    pub open spec fn may_schedule(
        &self,
        map: &RoadMap,
        neighborhoods: &Neighborhoods,
        entry: (Tick, TripSpec),
    ) -> bool {
        ||| self.ped_entry(map, neighborhoods, entry)
        ||| self.car_entry(map, neighborhoods, entry)
        ||| self.bike_entry(map, neighborhoods, entry)
    }

    /// The warnings that the pedestrians of the request leave: one that
    /// no sidewalk leaves the border, if any pedestrian is asked for and
    /// none does; else one for each pedestrian, if the goal is a border
    /// that no sidewalk reaches.
    pub open spec fn ped_warnings(&self, map: &RoadMap) -> Seq<Warning> {
        if SidewalkSpot::spec_start_at_border(self.start_from_border, map) is None {
            if self.num_peds > 0 {
                seq![Warning::NoSidewalkAtBorder { border: self.start_from_border }]
            } else {
                Seq::empty()
            }
        } else if self.goal.walk_resolves(map) {
            Seq::empty()
        } else {
            repeated(
                Warning::NoWalkingGoalAtBorder { border: self.goal->Border_0 },
                self.num_peds as int,
            )
        }
    }

    /// The warnings that the cars of the request leave: one that no
    /// driving lane leaves the border, if any car is asked for and none
    /// does; one that names the first such lane and its length, if it is
    /// shorter than the longest car; else one for each car, if the goal
    /// is a border that no driving lane reaches.
    pub open spec fn car_warnings(&self, map: &RoadMap) -> Seq<Warning> {
        let lanes = self.lanes_out(map, LaneType::Driving);
        if lanes.len() == 0 {
            if self.num_cars > 0 {
                seq![Warning::NoDrivingLaneAtBorder { border: self.start_from_border }]
            } else {
                Seq::empty()
            }
        } else if map.lanes[lanes[0].0 as int].length.0 < MAX_CAR_LENGTH {
            seq![
                Warning::LaneTooShort {
                    border: self.start_from_border,
                    lane: lanes[0],
                    length: map.lanes[lanes[0].0 as int].length,
                },
            ]
        } else if self.goal.drive_resolves(map) {
            Seq::empty()
        } else {
            repeated(
                Warning::NoDrivingGoalAtBorder { border: self.goal->Border_0 },
                self.num_cars as int,
            )
        }
    }

    /// The warnings that the bikes of the request leave: one that a bike
    /// has no lane to start on, if any bike is asked for; else one for
    /// each bike, if the goal is a border that a bike cannot reach.
    pub open spec fn bike_warnings(&self, map: &RoadMap) -> Seq<Warning> {
        if self.bike_lanes(map).len() == 0 {
            if self.num_bikes > 0 {
                seq![Warning::NoBikeLaneAtBorder { border: self.start_from_border }]
            } else {
                Seq::empty()
            }
        } else if self.goal.ride_resolves(map) {
            Seq::empty()
        } else {
            repeated(
                Warning::NoBikingGoalAtBorder { border: self.goal->Border_0 },
                self.num_bikes as int,
            )
        }
    }

    /// The warnings that the request leaves: those of its pedestrians,
    /// then those of its cars, then those of its bikes.
    pub open spec fn spec_warnings(&self, map: &RoadMap) -> Seq<Warning> {
        self.ped_warnings(map) + self.car_warnings(map) + self.bike_warnings(map)
    }

    /// The trips of the request stand in the queue from position `from`
    /// on: first its pedestrians, then its cars, then its bikes, as many
    /// of each as it starts.
    pub open spec fn served(
        &self,
        map: &RoadMap,
        neighborhoods: &Neighborhoods,
        queue: Seq<(Tick, TripSpec)>,
        from: int,
    ) -> bool {
        let cars_from = from + self.ped_count(map);
        let bikes_from = cars_from + self.car_count(map);
        &&& forall|k: int|
            from <= k < cars_from ==> self.ped_entry(map, neighborhoods, #[trigger] queue[k])
        &&& forall|k: int|
            cars_from <= k < bikes_from ==> self.car_entry(map, neighborhoods, #[trigger] queue[k])
        &&& forall|k: int|
            bikes_from <= k < bikes_from + self.bike_count(map) ==> self.bike_entry(
                map,
                neighborhoods,
                #[trigger] queue[k],
            )
    }

    /// The lanes on which a bike can start.
    pub fn get_bike_lanes(&self, map: &RoadMap) -> (lanes: Vec<LaneID>)
        requires
            map.wf(),
            map.has_intersection(self.start_from_border),
        ensures
            lanes@ == self.bike_lanes(map),
    {
        let i = map.get_i(self.start_from_border);
        let mut lanes = i.get_outgoing_lanes(map, LaneType::Biking);
        let driving = i.get_outgoing_lanes(map, LaneType::Driving);
        let ghost biking = lanes@;
        let ghost takes_bikes = |l: LaneID|
            map.roads[map.lanes[l.0 as int].parent.0 as int].supports_bikes;
        let mut k: usize = 0;
        while k < driving.len()
            invariant
                map.wf(),
                map.has_intersection(self.start_from_border),
                k <= driving.len(),
                driving@ == self.lanes_out(map, LaneType::Driving),
                takes_bikes == |l: LaneID|
                    map.roads[map.lanes[l.0 as int].parent.0 as int].supports_bikes,
                lanes@ == biking + driving@.take(k as int).filter(takes_bikes),
            decreases driving.len() - k,
        {
            let l = driving[k];
            proof {
                crate::trips::lemma_lanes_of_type_are_lanes(
                    map.intersections[self.start_from_border.0 as int].outgoing_lanes@,
                    map.lanes@,
                    LaneType::Driving,
                    k as int,
                );
                let from = map.intersections[self.start_from_border.0 as int].outgoing_lanes@;
                let j = choose|j: int| 0 <= j < from.len() && from[j] == l;
                assert(from[j].0 < map.lanes.len());
                assert(driving@.take(k + 1).drop_last() == driving@.take(k as int));
                reveal(Seq::filter);
            }
            if map.get_parent(l).supports_bikes() {
                lanes.push(l);
            }
            k += 1;
        }
        proof {
            assert(driving@.take(k as int) == driving@);
        }
        lanes
    }

    /// Spawns the pedestrians of the request: each starts at the sidewalk
    /// that leaves the border, at a time from the window, and walks or
    /// rides transit to a goal. Without such a sidewalk nobody starts, and
    /// one warning says so if anybody was asked for.
    pub fn spawn_peds(
        &self,
        sim: &mut Sim,
        map: &RoadMap,
        neighborhoods: &Neighborhoods,
        rng: &mut XorShiftRng,
        timer: &mut Timer,
    )
        requires
            map.wf(),
            neighborhoods.wf(map),
            self.can_run(map, neighborhoods),
        ensures
            final(timer).notes == old(timer).notes,
            final(timer).warnings@ == old(timer).warnings@ + self.ped_warnings(map),
            !(self.num_peds > 0 && SidewalkSpot::spec_start_at_border(self.start_from_border, map) is Some) ==> *final(rng) == *old(rng),
            batch_done(
                old(sim),
                final(sim),
                old(timer).warnings@,
                final(timer).warnings@,
                self.ped_count(map),
                self.ped_count(map),
                |e: (Tick, TripSpec)| self.ped_entry(map, neighborhoods, e),
            ),
    {
        let ghost each = |e: (Tick, TripSpec)| self.ped_entry(map, neighborhoods, e);
        proof {
            assert(sim.queued_trips@.subrange(0, sim.queued_trips@.len() as int)
                =~= sim.queued_trips@);
            assert(timer.warnings@.subrange(0, timer.warnings@.len() as int) =~= timer.warnings@);
        }
        match SidewalkSpot::start_at_border(self.start_from_border, map) {
            Some(start) => {
                let mut i: usize = 0;
                while i < self.num_peds
                    invariant
                        map.wf(),
                        neighborhoods.wf(map),
                        self.can_run(map, neighborhoods),
                        Some(start) == SidewalkSpot::spec_start_at_border(
                            self.start_from_border,
                            map,
                        ),
                        each == |e: (Tick, TripSpec)| self.ped_entry(map, neighborhoods, e),
                        i <= self.num_peds,
                        timer.notes == old(timer).notes,
                        i == 0 ==> *rng == *old(rng),
                        timer.warnings@ == old(timer).warnings@ + (if self.goal.walk_resolves(map) {
                            Seq::empty()
                        } else {
                            repeated(Warning::NoWalkingGoalAtBorder { border: self.goal->Border_0 }, i as int)
                        }),
                        batch_done(
                            old(sim),
                            sim,
                            old(timer).warnings@,
                            timer.warnings@,
                            if self.goal.walk_resolves(map) {
                                i as int
                            } else {
                                0
                            },
                            if self.goal.walk_resolves(map) {
                                i as int
                            } else {
                                0
                            },
                            each,
                        ),
                    decreases self.num_peds - i,
                {
                    let ghost queue = sim.queued_trips@;
                    let ghost warned = timer.warnings@;
                    let mut time_rng = fork_rng(rng);
                    let spawn_time = rand_time(&mut time_rng, self.start_time, self.stop_time);
                    if let Some(goal) = self.goal.pick_walking_goal(map, neighborhoods, rng, timer) {
                        let mut transit_rng = fork_rng(rng);
                        let wants_transit = draw_ratio(
                            &mut transit_rng,
                            self.percent_use_transit.numerator,
                            self.percent_use_transit.denominator,
                        );
                        sim.schedule_trip(spawn_time, walk(map, start, goal, wants_transit));
                        proof {
                            let to = choose|to: Option<BuildingID>|
                                self.goal.can_draw(neighborhoods, to) && Some(goal)
                                    == self.goal.spec_walking_goal(map, to);
                            assert(self.spec_ped_trip(map, to, wants_transit) == Some(
                                spec_walk(map, start, goal, wants_transit),
                            ));
                            assert(each((spawn_time, spec_walk(map, start, goal, wants_transit))));
                        }
                    }
                    proof {
                        assert(timer.warnings@ =~= old(timer).warnings@ + (if self.goal.walk_resolves(map) {
                            Seq::empty()
                        } else {
                            repeated(Warning::NoWalkingGoalAtBorder { border: self.goal->Border_0 }, i + 1)
                        }));
                        assert(extends(warned, timer.warnings@) && count_no_room(timer.warnings@)
                            == count_no_room(warned)) by {
                            if timer.warnings@ != warned {
                                let w = Warning::NoWalkingGoalAtBorder {
                                    border: self.goal->Border_0,
                                };
                                lemma_other_warning(warned, warned, w);
                                assert(warned.subrange(0, warned.len() as int) =~= warned);
                            } else {
                                assert(warned.subrange(0, warned.len() as int) =~= warned);
                            }
                        }
                        assert(timer.warnings@.subrange(0, old(timer).warnings@.len() as int)
                            =~= old(timer).warnings@);
                        assert(sim.queued_trips@.subrange(0, old(sim).queued_trips@.len() as int)
                            =~= old(sim).queued_trips@);
                        assert forall|k: int|
                            old(sim).queued_trips@.len() <= k
                                < sim.queued_trips@.len() implies each(
                            #[trigger] sim.queued_trips@[k],
                        ) by {
                            if k < queue.len() {
                                assert(sim.queued_trips@[k] == queue[k]);
                            }
                        }
                    }
                    i += 1;
                }
            },
            None => {
                if self.num_peds > 0 {
                    let ghost warned = timer.warnings@;
                    timer.warn(Warning::NoSidewalkAtBorder { border: self.start_from_border });
                    proof {
                        lemma_other_warning(
                            warned,
                            warned,
                            Warning::NoSidewalkAtBorder { border: self.start_from_border },
                        );
                    }
                }
            },
        }
    }
}

impl BorderSpawnOverTime {
    /// Spawns the cars of the request: each appears at the start of the
    /// first driving lane that leaves the border, at a time from the
    /// window, and drives to a goal. Without such a lane no car starts,
    /// and one warning says so if any was asked for. If the lane is
    /// shorter than the longest car, no car starts either, and a warning
    /// names the lane.
    pub fn spawn_cars(
        &self,
        sim: &mut Sim,
        map: &RoadMap,
        neighborhoods: &Neighborhoods,
        rng: &mut XorShiftRng,
        timer: &mut Timer,
    )
        requires
            map.wf(),
            self.can_run(map, neighborhoods),
        ensures
            final(timer).notes == old(timer).notes,
            final(timer).warnings@ == old(timer).warnings@ + self.car_warnings(map),
            !(self.num_cars > 0 && self.spec_car_start(map) is Some) ==> *final(rng) == *old(rng),
            batch_done(
                old(sim),
                final(sim),
                old(timer).warnings@,
                final(timer).warnings@,
                self.car_count(map),
                self.car_count(map),
                |e: (Tick, TripSpec)| self.car_entry(map, neighborhoods, e),
            ),
    {
        let ghost each = |e: (Tick, TripSpec)| self.car_entry(map, neighborhoods, e);
        proof {
            assert(sim.queued_trips@.subrange(0, sim.queued_trips@.len() as int)
                =~= sim.queued_trips@);
            assert(timer.warnings@.subrange(0, timer.warnings@.len() as int) =~= timer.warnings@);
        }
        let starting_driving_lanes = map.get_i(self.start_from_border).get_outgoing_lanes(
            map,
            LaneType::Driving,
        );
        if starting_driving_lanes.len() > 0 {
            let lane = starting_driving_lanes[0];
            proof {
                let from = map.intersections[self.start_from_border.0 as int].outgoing_lanes@;
                crate::trips::lemma_lanes_of_type_are_lanes(from, map.lanes@, LaneType::Driving, 0);
                let j = choose|j: int| 0 <= j < from.len() && from[j] == lane;
                assert(from[j].0 < map.lanes.len());
            }
            let lane_len = map.get_l(lane).length;
            if lane_len.0 < MAX_CAR_LENGTH {
                let ghost warned = timer.warnings@;
                let w = Warning::LaneTooShort {
                    border: self.start_from_border,
                    lane,
                    length: lane_len,
                };
                timer.warn(w);
                proof {
                    lemma_other_warning(warned, warned, w);
                }
            } else {
                let mut i: usize = 0;
                while i < self.num_cars
                    invariant
                        map.wf(),
                        self.can_run(map, neighborhoods),
                        Some(lane) == self.spec_car_start(map),
                        each == |e: (Tick, TripSpec)| self.car_entry(map, neighborhoods, e),
                        i <= self.num_cars,
                        timer.notes == old(timer).notes,
                        i == 0 ==> *rng == *old(rng),
                        timer.warnings@ == old(timer).warnings@ + (if self.goal.drive_resolves(map) {
                            Seq::empty()
                        } else {
                            repeated(Warning::NoDrivingGoalAtBorder { border: self.goal->Border_0 }, i as int)
                        }),
                        batch_done(
                            old(sim),
                            sim,
                            old(timer).warnings@,
                            timer.warnings@,
                            if self.goal.drive_resolves(map) {
                                i as int
                            } else {
                                0
                            },
                            if self.goal.drive_resolves(map) {
                                i as int
                            } else {
                                0
                            },
                            each,
                        ),
                    decreases self.num_cars - i,
                {
                    let ghost queue = sim.queued_trips@;
                    let ghost warned = timer.warnings@;
                    let mut time_rng = fork_rng(rng);
                    let spawn_time = rand_time(&mut time_rng, self.start_time, self.stop_time);
                    if let Some(goal) = self.goal.pick_driving_goal(map, neighborhoods, rng, timer) {
                        let mut vehicle_rng = fork_rng(rng);
                        let car = rand_car(&mut vehicle_rng);
                        let trip = TripSpec::CarAppearing(
                            Position { lane, dist_along: Distance(0) },
                            car,
                            goal,
                        );
                        sim.schedule_trip(spawn_time, trip);
                        proof {
                            let to = choose|to: Option<BuildingID>|
                                self.goal.can_draw(neighborhoods, to) && Some(goal)
                                    == self.goal.spec_driving_goal(map, to);
                            assert(self.spec_car_trip(map, to, car) == Some(trip));
                            assert(each((spawn_time, trip)));
                        }
                    }
                    proof {
                        assert(timer.warnings@ =~= old(timer).warnings@ + (if self.goal.drive_resolves(map) {
                            Seq::empty()
                        } else {
                            repeated(Warning::NoDrivingGoalAtBorder { border: self.goal->Border_0 }, i + 1)
                        }));
                        assert(extends(warned, timer.warnings@) && count_no_room(timer.warnings@)
                            == count_no_room(warned)) by {
                            if timer.warnings@ != warned {
                                let w = Warning::NoDrivingGoalAtBorder {
                                    border: self.goal->Border_0,
                                };
                                lemma_other_warning(warned, warned, w);
                            }
                            assert(warned.subrange(0, warned.len() as int) =~= warned);
                        }
                        assert(timer.warnings@.subrange(0, old(timer).warnings@.len() as int)
                            =~= old(timer).warnings@);
                        assert(sim.queued_trips@.subrange(0, old(sim).queued_trips@.len() as int)
                            =~= old(sim).queued_trips@);
                        assert forall|k: int|
                            old(sim).queued_trips@.len() <= k
                                < sim.queued_trips@.len() implies each(
                            #[trigger] sim.queued_trips@[k],
                        ) by {
                            if k < queue.len() {
                                assert(sim.queued_trips@[k] == queue[k]);
                            }
                        }
                    }
                    i += 1;
                }
            }
        } else if self.num_cars > 0 {
            let ghost warned = timer.warnings@;
            let w = Warning::NoDrivingLaneAtBorder { border: self.start_from_border };
            timer.warn(w);
            proof {
                lemma_other_warning(warned, warned, w);
            }
        }
    }

    /// Spawns the bikes of the request: each appears on the first lane on
    /// which a bike can start, its own length from the start of the lane,
    /// at a time from the window, and rides to a goal. Without such a
    /// lane no bike starts, and one warning says so if any was asked for.
    pub fn spawn_bikes(
        &self,
        sim: &mut Sim,
        map: &RoadMap,
        neighborhoods: &Neighborhoods,
        rng: &mut XorShiftRng,
        timer: &mut Timer,
    )
        requires
            map.wf(),
            self.can_run(map, neighborhoods),
        ensures
            final(timer).notes == old(timer).notes,
            final(timer).warnings@ == old(timer).warnings@ + self.bike_warnings(map),
            !(self.num_bikes > 0 && self.spec_bike_start(map) is Some) ==> *final(rng) == *old(rng),
            batch_done(
                old(sim),
                final(sim),
                old(timer).warnings@,
                final(timer).warnings@,
                self.bike_count(map),
                self.bike_count(map),
                |e: (Tick, TripSpec)| self.bike_entry(map, neighborhoods, e),
            ),
    {
        let ghost each = |e: (Tick, TripSpec)| self.bike_entry(map, neighborhoods, e);
        proof {
            assert(sim.queued_trips@.subrange(0, sim.queued_trips@.len() as int)
                =~= sim.queued_trips@);
            assert(timer.warnings@.subrange(0, timer.warnings@.len() as int) =~= timer.warnings@);
        }
        let starting_biking_lanes = self.get_bike_lanes(map);
        if starting_biking_lanes.len() > 0 {
            let lane = starting_biking_lanes[0];
            let mut i: usize = 0;
            while i < self.num_bikes
                invariant
                    map.wf(),
                    self.can_run(map, neighborhoods),
                    Some(lane) == self.spec_bike_start(map),
                    each == |e: (Tick, TripSpec)| self.bike_entry(map, neighborhoods, e),
                    i <= self.num_bikes,
                    timer.notes == old(timer).notes,
                        i == 0 ==> *rng == *old(rng),
                        timer.warnings@ == old(timer).warnings@ + (if self.goal.ride_resolves(map) {
                            Seq::empty()
                        } else {
                            repeated(Warning::NoBikingGoalAtBorder { border: self.goal->Border_0 }, i as int)
                        }),
                    batch_done(
                        old(sim),
                        sim,
                        old(timer).warnings@,
                        timer.warnings@,
                        if self.goal.ride_resolves(map) {
                            i as int
                        } else {
                            0
                        },
                        if self.goal.ride_resolves(map) {
                            i as int
                        } else {
                            0
                        },
                        each,
                    ),
                decreases self.num_bikes - i,
            {
                let ghost queue = sim.queued_trips@;
                let ghost warned = timer.warnings@;
                let mut time_rng = fork_rng(rng);
                let spawn_time = rand_time(&mut time_rng, self.start_time, self.stop_time);
                if let Some(goal) = self.goal.pick_biking_goal(map, neighborhoods, rng, timer) {
                    let mut vehicle_rng = fork_rng(rng);
                    let bike = rand_bike(&mut vehicle_rng);
                    let trip = TripSpec::CarAppearing(
                        Position { lane, dist_along: bike.length },
                        bike,
                        goal,
                    );
                    sim.schedule_trip(spawn_time, trip);
                    proof {
                        let to = choose|to: Option<BuildingID>|
                            self.goal.can_draw(neighborhoods, to) && Some(goal)
                                == self.goal.spec_biking_goal(map, to);
                        assert(self.spec_bike_trip(map, to, bike) == Some(trip));
                        assert(each((spawn_time, trip)));
                    }
                }
                proof {
                        assert(timer.warnings@ =~= old(timer).warnings@ + (if self.goal.ride_resolves(map) {
                            Seq::empty()
                        } else {
                            repeated(Warning::NoBikingGoalAtBorder { border: self.goal->Border_0 }, i + 1)
                        }));
                    assert(extends(warned, timer.warnings@) && count_no_room(timer.warnings@)
                        == count_no_room(warned)) by {
                        if timer.warnings@ != warned {
                            let w = Warning::NoBikingGoalAtBorder { border: self.goal->Border_0 };
                            lemma_other_warning(warned, warned, w);
                        }
                        assert(warned.subrange(0, warned.len() as int) =~= warned);
                    }
                    assert(timer.warnings@.subrange(0, old(timer).warnings@.len() as int) =~= old(timer).warnings@);
                    assert(sim.queued_trips@.subrange(0, old(sim).queued_trips@.len() as int)
                        =~= old(sim).queued_trips@);
                    assert forall|k: int|
                        old(sim).queued_trips@.len() <= k < sim.queued_trips@.len() implies each(
                        #[trigger] sim.queued_trips@[k],
                    ) by {
                        if k < queue.len() {
                            assert(sim.queued_trips@[k] == queue[k]);
                        }
                    }
                }
                i += 1;
            }
        } else if self.num_bikes > 0 {
            let ghost warned = timer.warnings@;
            let w = Warning::NoBikeLaneAtBorder { border: self.start_from_border };
            timer.warn(w);
            proof {
                lemma_other_warning(warned, warned, w);
            }
        }
    }

    /// Serves the request: its pedestrians, then its cars, then its
    /// bikes. A mode for which the border has no place to start is
    /// skipped with a warning; the other modes go on.
    pub fn spawn_at_border(
        &self,
        sim: &mut Sim,
        map: &RoadMap,
        neighborhoods: &Neighborhoods,
        rng: &mut XorShiftRng,
        timer: &mut Timer,
    )
        requires
            map.wf(),
            neighborhoods.wf(map),
            self.can_run(map, neighborhoods),
        ensures
            final(timer).notes == old(timer).notes,
            final(timer).warnings@ == old(timer).warnings@ + self.spec_warnings(map),
            self.served(
                map,
                neighborhoods,
                final(sim).queued_trips@,
                old(sim).queued_trips@.len() as int,
            ),
            !self.spawns_anything(map) ==> *final(rng) == *old(rng),
            batch_done(
                old(sim),
                final(sim),
                old(timer).warnings@,
                final(timer).warnings@,
                self.spec_count(map),
                self.spec_count(map),
                |e: (Tick, TripSpec)| self.may_schedule(map, neighborhoods, e),
            ),
    {
        let ghost each = |e: (Tick, TripSpec)| self.may_schedule(map, neighborhoods, e);
        let ghost w0 = timer.warnings@;
        self.spawn_peds(sim, map, neighborhoods, rng, timer);
        let ghost s1 = *sim;
        let ghost w1 = timer.warnings@;
        self.spawn_cars(sim, map, neighborhoods, rng, timer);
        let ghost s2 = *sim;
        let ghost w2 = timer.warnings@;
        self.spawn_bikes(sim, map, neighborhoods, rng, timer);
        proof {
            let q0 = old(sim).queued_trips@;
            let q1 = s1.queued_trips@;
            let q2 = s2.queued_trips@;
            let q3 = sim.queued_trips@;
            assert forall|k: int| 0 <= k < q1.len() implies q2[k] == q1[k] by {
                assert(q2.subrange(0, q1.len() as int)[k] == q2[k]);
            }
            assert forall|k: int| 0 <= k < q2.len() implies q3[k] == q2[k] by {
                assert(q3.subrange(0, q2.len() as int)[k] == q3[k]);
            }
            assert(timer.warnings@ =~= w0 + self.spec_warnings(map));
        }
        proof {
            lemma_batches_join(
                old(sim),
                &s1,
                &s2,
                w0,
                w1,
                w2,
                self.ped_count(map),
                self.ped_count(map),
                self.car_count(map),
                self.car_count(map),
                each,
            );
            lemma_batches_join(
                old(sim),
                &s2,
                sim,
                w0,
                w2,
                timer.warnings@,
                self.ped_count(map) + self.car_count(map),
                self.ped_count(map) + self.car_count(map),
                self.bike_count(map),
                self.bike_count(map),
                each,
            );
        }
    }
}

impl BorderSpawnOverTime {
    /// No trip that starts at a border uses a parked car.
    pub proof fn lemma_no_parked_car(
        &self,
        map: &RoadMap,
        neighborhoods: &Neighborhoods,
        e: Scheduled,
    )
        requires
            self.may_schedule(map, neighborhoods, e),
        ensures
            !(e.1 is UsingParkedCar),
    {
    }
}

impl BorderSpawnOverTime {
    /// Whether the request makes any draw.
    pub fn has_work(&self, map: &RoadMap) -> (any: bool)
        requires
            map.wf(),
            map.has_intersection(self.start_from_border),
        ensures
            any == self.spawns_anything(map),
    {
        if self.num_peds > 0 && SidewalkSpot::start_at_border(self.start_from_border, map).is_some() {
            return true;
        }
        if self.num_cars > 0 {
            let lanes = map.get_i(self.start_from_border).get_outgoing_lanes(
                map,
                LaneType::Driving,
            );
            if lanes.len() > 0 {
                proof {
                    let from = map.intersections[self.start_from_border.0 as int].outgoing_lanes@;
                    crate::trips::lemma_lanes_of_type_are_lanes(
                        from,
                        map.lanes@,
                        LaneType::Driving,
                        0,
                    );
                    let j = choose|j: int| 0 <= j < from.len() && from[j] == lanes[0];
                    assert(from[j].0 < map.lanes.len());
                }
                if map.get_l(lanes[0]).length.0 >= MAX_CAR_LENGTH {
                    return true;
                }
            }
        }
        self.num_bikes > 0 && self.get_bike_lanes(map).len() > 0
    }

    /// Whether the request can be served.
    pub fn is_runnable(&self, map: &RoadMap, neighborhoods: &Neighborhoods) -> (ok: bool)
        requires
            map.wf(),
        ensures
            ok == self.can_run(map, neighborhoods),
    {
        if !self.percent_use_transit.is_valid() || self.start_from_border.0
            >= map.intersections.len() {
            return false;
        }
        if let OriginDestination::Neighborhood(n) = &self.goal {
            if !neighborhoods.contains_key(n) {
                return false;
            }
        }
        !self.has_work(map) || (self.start_time.0 < self.stop_time.0 && self.goal.is_usable(
            map,
            neighborhoods,
        ))
    }
}

} // verus!
