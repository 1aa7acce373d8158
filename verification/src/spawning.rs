//! Agents that start from the buildings of a neighborhood. Each one picks
//! its mode by what it finds: a parked car, a bike, or its feet.

use vstd::prelude::*;
use rand_xorshift::XorShiftRng;
use crate::batch::{batch_done, extends, reservations_ok, same_but_queue};
use crate::demand::SpawnOverTime;
use crate::goal::OriginDestination;
use crate::ids::{BuildingID, CarID, IntersectionID};
use std::collections::HashSet;
use crate::map::RoadMap;
use crate::neighborhood::Neighborhoods;
use crate::parking::ParkingSimState;
use crate::random::{choose_one, draw_ratio, fork_rng, is_random_bike, rand_bike, rand_time};
use crate::report::{Timer, Warning, count_no_room};
use crate::sim::Sim;
use crate::trips::{DrivingGoal, ParkedCar, SidewalkSpot, TripSpec, VehicleSpec};
use crate::units::Tick;

verus! {

broadcast use vstd::std_specs::hash::group_hash_axioms;

/// Everything that is drawn at random for one agent of a `SpawnOverTime`
/// request, each from a stream of its own.
#[derive(Clone, Copy, Debug, PartialEq, Eq, Structural)]
pub struct AgentDraws {
    pub spawn_time: Tick,
    /// The building at which the agent starts.
    pub from_bldg: BuildingID,
    /// The building at which the agent ends, where the goal is a
    /// neighborhood.
    pub to_bldg: Option<BuildingID>,
    /// Whether the agent takes a bike if it finds no car.
    pub wants_bike: bool,
    /// Whether the agent asks for a transit route if it walks.
    pub wants_transit: bool,
    /// The bike that the agent rides if it rides one.
    pub bike: VehicleSpec,
}

/// What is done for one agent: at most one trip is scheduled, at most one
/// parked car is reserved, at most one warning is given.
#[derive(Clone, Copy, Debug, PartialEq, Eq, Structural)]
pub struct AgentPlan {
    pub trip: Option<TripSpec>,
    pub reserve: Option<CarID>,
    pub warning: Option<Warning>,
}

impl AgentPlan {
    /// The plan that does nothing but give `warning`, if there is one.
    pub open spec fn skip(warning: Option<Warning>) -> AgentPlan {
        AgentPlan { trip: None, reserve: None, warning }
    }

    /// The plan that schedules `trip` and nothing else.
    pub open spec fn go(trip: TripSpec) -> AgentPlan {
        AgentPlan { trip: Some(trip), reserve: None, warning: None }
    }
}

/// The first of the first `n` cars that is not reserved, if there is one.
pub open spec fn first_unreserved(cars: Seq<ParkedCar>, reserved: Set<usize>, n: int) -> Option<
    ParkedCar,
>
    decreases n,
{
    if n <= 0 {
        None
    } else {
        match first_unreserved(cars, reserved, n - 1) {
            Some(c) => Some(c),
            None => if !reserved.contains(cars[n - 1].vehicle.id.0) {
                Some(cars[n - 1])
            } else {
                None
            },
        }
    }
}

/// A car that `first_unreserved` gives is one of the cars, and is not
/// reserved.
pub proof fn lemma_first_unreserved(cars: Seq<ParkedCar>, reserved: Set<usize>, n: int)
    requires
        0 <= n <= cars.len(),
    ensures
        first_unreserved(cars, reserved, n) matches Some(c) ==> !reserved.contains(c.vehicle.id.0)
            && exists|j: int| 0 <= j < n && cars[j] == c,
    decreases n,
{
    if n > 0 {
        lemma_first_unreserved(cars, reserved, n - 1);
        match first_unreserved(cars, reserved, n - 1) {
            Some(c) => {
                let j = choose|j: int| 0 <= j < n - 1 && cars[j] == c;
                assert(0 <= j < n && cars[j] == c);
            },
            None => {
                if !reserved.contains(cars[n - 1].vehicle.id.0) {
                    assert(0 <= n - 1 < n && cars[n - 1] == cars[n - 1]);
                }
            },
        }
    }
}

/// The first of `cars` that is not reserved, if there is one.
pub fn find_unreserved(cars: &Vec<ParkedCar>, reserved: &HashSet<usize>) -> (car: Option<ParkedCar>)
    ensures
        car == first_unreserved(cars@, reserved@, cars.len() as int),
{
    let mut i: usize = 0;
    while i < cars.len()
        invariant
            i <= cars.len(),
            first_unreserved(cars@, reserved@, i as int) is None,
        decreases cars.len() - i,
    {
        if !reserved.contains(&cars[i].vehicle.id.0) {
            proof {
                lemma_first_unreserved_stays(cars@, reserved@, i as int + 1, cars.len() as int);
            }
            return Some(cars[i]);
        }
        i += 1;
    }
    None
}

/// Once an unreserved car is found among the first `n`, more cars do not
/// change which one it is.
pub proof fn lemma_first_unreserved_stays(
    cars: Seq<ParkedCar>,
    reserved: Set<usize>,
    n: int,
    m: int,
)
    requires
        0 <= n <= m <= cars.len(),
        first_unreserved(cars, reserved, n) is Some,
    ensures
        first_unreserved(cars, reserved, m) == first_unreserved(cars, reserved, n),
    decreases m - n,
{
    if n < m {
        lemma_first_unreserved_stays(cars, reserved, n, m - 1);
    }
}

/// The warning for a goal that could not be resolved. Only a border can
/// fail to resolve.
pub open spec fn unresolved(goal: &OriginDestination, w: spec_fn(IntersectionID) -> Warning) -> Option<
    Warning,
> {
    match goal {
        OriginDestination::Border(i) => Some(w(*i)),
        OriginDestination::Neighborhood(_) => None,
    }
}

/// A ride is pointless when it ends at a building on the sidewalk on
/// which it starts.
pub open spec fn spec_pointless_ride(goal: DrivingGoal, from: BuildingID, map: &RoadMap) -> bool {
    match goal {
        DrivingGoal::ParkNear(to) => map.buildings[to.0 as int].front_path.lane
            == map.buildings[from.0 as int].front_path.lane,
        DrivingGoal::Border(_, _) => false,
    }
}

/// Whether a ride is pointless.
pub fn pointless_ride(goal: DrivingGoal, from: BuildingID, map: &RoadMap) -> (b: bool)
    requires
        map.wf(),
        map.has_building(from),
        goal matches DrivingGoal::ParkNear(to) ==> map.has_building(to),
    ensures
        b == spec_pointless_ride(goal, from, map),
{
    match goal {
        DrivingGoal::ParkNear(to) => map.get_b(to).front_path.lane == map.get_b(
            from,
        ).front_path.lane,
        DrivingGoal::Border(_, _) => false,
    }
}

/// The trip of an agent on foot: by transit if the agent asks for a route
/// and the map has one, else a plain walk.
pub open spec fn spec_walk(
    map: &RoadMap,
    start: SidewalkSpot,
    goal: SidewalkSpot,
    wants_transit: bool,
) -> TripSpec {
    if wants_transit {
        match map.spec_should_use_transit(start.sidewalk_pos, goal.sidewalk_pos) {
            Some(ride) => TripSpec::UsingTransit(start, ride.route, ride.stop1, ride.stop2, goal),
            None => TripSpec::JustWalking(start, goal),
        }
    } else {
        TripSpec::JustWalking(start, goal)
    }
}

/// The trip of an agent on foot.
pub fn walk(map: &RoadMap, start: SidewalkSpot, goal: SidewalkSpot, wants_transit: bool) -> (trip:
    TripSpec)
    ensures
        trip == spec_walk(map, start, goal, wants_transit),
{
    if wants_transit {
        match map.should_use_transit(start.sidewalk_pos, goal.sidewalk_pos) {
            Some(ride) => TripSpec::UsingTransit(start, ride.route, ride.stop1, ride.stop2, goal),
            None => TripSpec::JustWalking(start, goal),
        }
    } else {
        TripSpec::JustWalking(start, goal)
    }
}

impl SpawnOverTime {
    /// The chances are chances.
    pub open spec fn wf(&self) -> bool {
        self.percent_biking.wf() && self.percent_use_transit.wf()
    }

    /// The request can be served: if it asks for any agent, its time
    /// window is not empty, its neighborhood has a building, and its goal
    /// is a neighborhood with a building or an intersection of the map.
    pub open spec fn can_run(&self, map: &RoadMap, neighborhoods: &Neighborhoods) -> bool {
        &&& self.wf()
        &&& neighborhoods.defines(self.start_from_neighborhood@)
        &&& self.num_agents > 0 ==> {
            &&& self.start_time.0 < self.stop_time.0
            &&& neighborhoods.get(self.start_from_neighborhood@).buildings.len() > 0
            &&& self.goal.usable(map, neighborhoods)
        }
    }

    /// What can be drawn for an agent of this request: a time in the
    /// window, a building of the neighborhood, a building of the goal if
    /// the goal is a neighborhood, a bike, and two rolls that a chance of
    /// zero or one decides.
    pub open spec fn can_draw(&self, neighborhoods: &Neighborhoods, d: AgentDraws) -> bool {
        &&& self.start_time.0 <= d.spawn_time.0 < self.stop_time.0
        &&& neighborhoods.get(self.start_from_neighborhood@).buildings@.contains(d.from_bldg)
        &&& self.goal.can_draw(neighborhoods, d.to_bldg)
        &&& is_random_bike(d.bike)
        &&& self.percent_biking.numerator == 0 ==> !d.wants_bike
        &&& self.percent_biking.numerator == self.percent_biking.denominator ==> d.wants_bike
        &&& self.percent_use_transit.numerator == 0 ==> !d.wants_transit
        &&& self.percent_use_transit.numerator == self.percent_use_transit.denominator
            ==> d.wants_transit
    }

    /// The choice of mode, a list of rules of which the first that applies
    /// decides:
    /// 1. The building at which the agent starts owns a parked car that
    ///    is not reserved: the agent drives the first such car, and the
    ///    car is reserved.
    /// 2. The agent wants a bike: it rides one, unless the ride is
    ///    pointless.
    /// 3. The agent walks, by transit if it asks for a route and there is
    ///    one.
    /// An agent whose goal does not resolve for its mode is skipped, with
    /// a warning.
    pub open spec fn spec_plan(
        &self,
        parking: &ParkingSimState,
        reserved: Set<usize>,
        map: &RoadMap,
        d: AgentDraws,
    ) -> AgentPlan {
        let start = SidewalkSpot::spec_building(d.from_bldg, map);
        let owned = parking.spec_parked_cars_by_owner(d.from_bldg);
        match first_unreserved(owned, reserved, owned.len() as int) {
            Some(car) => match self.goal.spec_driving_goal(map, d.to_bldg) {
                Some(goal) => AgentPlan {
                    trip: Some(TripSpec::UsingParkedCar(start, car.spot, goal)),
                    reserve: Some(car.vehicle.id),
                    warning: None,
                },
                None => AgentPlan::skip(
                    unresolved(
                        &self.goal,
                        |i: IntersectionID| Warning::NoDrivingGoalAtBorder { border: i },
                    ),
                ),
            },
            None => if d.wants_bike {
                match self.goal.spec_biking_goal(map, d.to_bldg) {
                    Some(goal) => if spec_pointless_ride(goal, d.from_bldg, map) {
                        AgentPlan::skip(None)
                    } else {
                        AgentPlan::go(TripSpec::UsingBike(start, d.bike, goal))
                    },
                    None => AgentPlan::skip(
                        unresolved(
                            &self.goal,
                            |i: IntersectionID| Warning::NoBikingGoalAtBorder { border: i },
                        ),
                    ),
                }
            } else {
                match self.goal.spec_walking_goal(map, d.to_bldg) {
                    Some(goal) => AgentPlan::go(spec_walk(map, start, goal, d.wants_transit)),
                    None => AgentPlan::skip(
                        unresolved(
                            &self.goal,
                            |i: IntersectionID| Warning::NoWalkingGoalAtBorder { border: i },
                        ),
                    ),
                }
            },
        }
    }

    /// Decides what is done for one agent, given what was drawn for it.
    pub fn plan_agent(&self, sim: &Sim, reserved: &HashSet<usize>, map: &RoadMap, d: &AgentDraws) -> (plan:
        AgentPlan)
        requires
            map.wf(),
            map.has_building(d.from_bldg),
            d.to_bldg is Some ==> map.has_building(d.to_bldg.unwrap()),
            self.goal is Border ==> map.has_intersection(self.goal->Border_0),
        ensures
            plan == self.spec_plan(&sim.parking_state, reserved@, map, *d),
    {
        let start = SidewalkSpot::building(d.from_bldg, map);
        let owned = sim.get_parked_cars_by_owner(d.from_bldg);
        match find_unreserved(&owned, reserved) {
            Some(car) => match self.goal.driving_goal(map, d.to_bldg) {
                Some(goal) => AgentPlan {
                    trip: Some(TripSpec::UsingParkedCar(start, car.spot, goal)),
                    reserve: Some(car.vehicle.id),
                    warning: None,
                },
                None => AgentPlan {
                    trip: None,
                    reserve: None,
                    warning: match &self.goal {
                        OriginDestination::Border(i) => Some(
                            Warning::NoDrivingGoalAtBorder { border: *i },
                        ),
                        OriginDestination::Neighborhood(_) => None,
                    },
                },
            },
            None => if d.wants_bike {
                match self.goal.biking_goal(map, d.to_bldg) {
                    Some(goal) => if pointless_ride(goal, d.from_bldg, map) {
                        AgentPlan { trip: None, reserve: None, warning: None }
                    } else {
                        AgentPlan {
                            trip: Some(TripSpec::UsingBike(start, d.bike, goal)),
                            reserve: None,
                            warning: None,
                        }
                    },
                    None => AgentPlan {
                        trip: None,
                        reserve: None,
                        warning: match &self.goal {
                            OriginDestination::Border(i) => Some(
                                Warning::NoBikingGoalAtBorder { border: *i },
                            ),
                            OriginDestination::Neighborhood(_) => None,
                        },
                    },
                }
            } else {
                match self.goal.walking_goal(map, d.to_bldg) {
                    Some(goal) => AgentPlan {
                        trip: Some(walk(map, start, goal, d.wants_transit)),
                        reserve: None,
                        warning: None,
                    },
                    None => AgentPlan {
                        trip: None,
                        reserve: None,
                        warning: match &self.goal {
                            OriginDestination::Border(i) => Some(
                                Warning::NoWalkingGoalAtBorder { border: *i },
                            ),
                            OriginDestination::Neighborhood(_) => None,
                        },
                    },
                }
            },
        }
    }
}

/// The queue with the trip of a plan, if the plan has one, at its end.
pub open spec fn with_trip(queue: Seq<(Tick, TripSpec)>, time: Tick, plan: AgentPlan) -> Seq<
    (Tick, TripSpec),
> {
    match plan.trip {
        Some(t) => queue.push((time, t)),
        None => queue,
    }
}

/// The reserved cars with the car of a plan, if the plan reserves one.
pub open spec fn with_reserved(reserved: Set<usize>, plan: AgentPlan) -> Set<usize> {
    match plan.reserve {
        Some(id) => reserved.insert(id.0),
        None => reserved,
    }
}

/// The warnings with the warning of a plan, if the plan gives one, at
/// their end.
pub open spec fn with_warning(warnings: Seq<Warning>, plan: AgentPlan) -> Seq<Warning> {
    match plan.warning {
        Some(w) => warnings.push(w),
        None => warnings,
    }
}

impl SpawnOverTime {
    /// Whether the request can put `entry` in the queue: some draws and
    /// some set of reserved cars make the choice of mode schedule it.
    pub open spec fn may_schedule(
        &self,
        parking: &ParkingSimState,
        map: &RoadMap,
        neighborhoods: &Neighborhoods,
        entry: (Tick, TripSpec),
    ) -> bool {
        exists|d: AgentDraws, reserved: Set<usize>|
            self.can_draw(neighborhoods, d) && entry.0 == d.spawn_time && (#[trigger] self.spec_plan(
                parking,
                reserved,
                map,
                d,
            )).trip == Some(entry.1)
    }

    /// A plan reserves a car exactly when its trip uses a parked car; the
    /// car then stands in the spot that the trip names, and was not
    /// reserved before.
    pub proof fn lemma_plan_reserves(
        &self,
        parking: &ParkingSimState,
        reserved: Set<usize>,
        map: &RoadMap,
        d: AgentDraws,
    )
        requires
            parking.wf(),
        ensures
            ({
                let plan = self.spec_plan(parking, reserved, map, d);
                match plan.trip {
                    Some(TripSpec::UsingParkedCar(_, spot, _)) => {
                        &&& plan.reserve is Some
                        &&& !reserved.contains(plan.reserve.unwrap().0)
                        &&& parking.has_spot(spot)
                        &&& parking.at(spot) is Some
                        &&& parking.at(spot).unwrap().vehicle.id == plan.reserve.unwrap()
                        &&& parking.at(spot).unwrap().owner == Some(d.from_bldg)
                    },
                    _ => plan.reserve is None,
                }
            }),
    {
        let owned = parking.spec_parked_cars_by_owner(d.from_bldg);
        lemma_first_unreserved(owned, reserved, owned.len() as int);
        match first_unreserved(owned, reserved, owned.len() as int) {
            Some(car) => {
                let j = choose|j: int| 0 <= j < owned.len() && owned[j] == car;
                parking.lemma_owned_car_stands(d.from_bldg, j);
            },
            None => {},
        }
    }

    /// Scheduling the trip of a plan keeps the reservations in order.
    pub proof fn lemma_plan_keeps_reservations(
        &self,
        parking: &ParkingSimState,
        reserved: Set<usize>,
        map: &RoadMap,
        d: AgentDraws,
        queue: Seq<(Tick, TripSpec)>,
        from: int,
    )
        requires
            parking.wf(),
            0 <= from <= queue.len(),
            reservations_ok(parking, queue, from, reserved),
        ensures
            ({
                let plan = self.spec_plan(parking, reserved, map, d);
                reservations_ok(
                    parking,
                    with_trip(queue, d.spawn_time, plan),
                    from,
                    with_reserved(reserved, plan),
                )
            }),
    {
        let plan = self.spec_plan(parking, reserved, map, d);
        self.lemma_plan_reserves(parking, reserved, map, d);
        let q = with_trip(queue, d.spawn_time, plan);
        let r = with_reserved(reserved, plan);
        assert forall|k: int| from <= k < q.len() && (#[trigger] q[k]).1 is UsingParkedCar implies ({
            let spot = q[k].1->UsingParkedCar_1;
            &&& parking.has_spot(spot)
            &&& parking.at(spot) is Some
            &&& r.contains(parking.at(spot).unwrap().vehicle.id.0)
        }) by {
            if k < queue.len() {
                assert(q[k] == queue[k]);
            }
        }
        assert forall|k1: int, k2: int|
            from <= k1 < k2 < q.len() && (#[trigger] q[k1]).1 is UsingParkedCar && (
            #[trigger] q[k2]).1 is UsingParkedCar implies q[k1].1->UsingParkedCar_1
            != q[k2].1->UsingParkedCar_1 by {
            assert(q[k1] == queue[k1]);
            if k2 < queue.len() {
                assert(q[k2] == queue[k2]);
            }
        }
    }

    /// Draws what an agent of this request needs, each from a stream
    /// forked from `rng`.
    pub fn draw_agent(&self, neighborhoods: &Neighborhoods, rng: &mut XorShiftRng) -> (d: AgentDraws)
        requires
            self.wf(),
            neighborhoods.defines(self.start_from_neighborhood@),
            self.start_time.0 < self.stop_time.0,
            neighborhoods.get(self.start_from_neighborhood@).buildings.len() > 0,
            self.goal is Neighborhood ==> neighborhoods.defines(self.goal->Neighborhood_0@)
                && neighborhoods.get(self.goal->Neighborhood_0@).buildings.len() > 0,
        ensures
            self.can_draw(neighborhoods, d),
    {
        let mut time_rng = fork_rng(rng);
        let spawn_time = rand_time(&mut time_rng, self.start_time, self.stop_time);
        // Agents may start and end at the same building.
        let at = neighborhoods.find(&self.start_from_neighborhood).unwrap();
        let mut from_rng = fork_rng(rng);
        let from_bldg = match choose_one(&neighborhoods.all[at].buildings, &mut from_rng) {
            Some(b) => *b,
            None => BuildingID(0),
        };
        let to_bldg = self.goal.pick_building(neighborhoods, rng);
        let mut bike_rng = fork_rng(rng);
        let wants_bike = draw_ratio(
            &mut bike_rng,
            self.percent_biking.numerator,
            self.percent_biking.denominator,
        );
        let mut transit_rng = fork_rng(rng);
        let wants_transit = draw_ratio(
            &mut transit_rng,
            self.percent_use_transit.numerator,
            self.percent_use_transit.denominator,
        );
        let mut vehicle_rng = fork_rng(rng);
        let bike = rand_bike(&mut vehicle_rng);
        AgentDraws { spawn_time, from_bldg, to_bldg, wants_bike, wants_transit, bike }
    }

    /// Serves the request for one agent: draws, decides, and does what
    /// was decided.
    pub fn spawn_agent(
        &self,
        sim: &mut Sim,
        reserved_cars: &mut HashSet<usize>,
        map: &RoadMap,
        neighborhoods: &Neighborhoods,
        rng: &mut XorShiftRng,
        timer: &mut Timer,
    )
        requires
            map.wf(),
            neighborhoods.wf(map),
            self.can_run(map, neighborhoods),
            self.num_agents > 0,
        ensures
            same_but_queue(old(sim), final(sim)),
            final(timer).notes == old(timer).notes,
            exists|d: AgentDraws|
                {
                    let plan = #[trigger] self.spec_plan(
                        &old(sim).parking_state,
                        old(reserved_cars)@,
                        map,
                        d,
                    );
                    &&& self.can_draw(neighborhoods, d)
                    &&& final(sim).queued_trips@ == with_trip(
                        old(sim).queued_trips@,
                        d.spawn_time,
                        plan,
                    )
                    &&& final(reserved_cars)@ == with_reserved(old(reserved_cars)@, plan)
                    &&& final(timer).warnings@ == with_warning(old(timer).warnings@, plan)
                },
    {
        let d = self.draw_agent(neighborhoods, rng);
        proof {
            let nb = neighborhoods.get(self.start_from_neighborhood@);
            crate::neighborhood::lemma_find_upto(
                neighborhoods.all@,
                self.start_from_neighborhood@,
                neighborhoods.all.len() as int,
            );
            let k = choose|k: int| 0 <= k < nb.buildings.len() && nb.buildings[k] == d.from_bldg;
            assert(map.has_building(nb.buildings[k]));
            if self.goal is Neighborhood {
                let n = self.goal->Neighborhood_0;
                let to = neighborhoods.get(n@);
                crate::neighborhood::lemma_find_upto(
                    neighborhoods.all@,
                    n@,
                    neighborhoods.all.len() as int,
                );
                let j = choose|j: int|
                    0 <= j < to.buildings.len() && to.buildings[j] == d.to_bldg.unwrap();
                assert(map.has_building(to.buildings[j]));
            }
        }
        let plan = self.plan_agent(sim, reserved_cars, map, &d);
        if let Some(id) = plan.reserve {
            reserved_cars.insert(id.0);
        }
        if let Some(trip) = plan.trip {
            sim.schedule_trip(d.spawn_time, trip);
        }
        if let Some(w) = plan.warning {
            timer.warn(w);
        }
    }
}

/// The warning of a plan is never one of no room.
pub proof fn lemma_plan_warning(
    s: &SpawnOverTime,
    parking: &ParkingSimState,
    reserved: Set<usize>,
    map: &RoadMap,
    d: AgentDraws,
    warnings: Seq<Warning>,
)
    ensures
        count_no_room(with_warning(warnings, s.spec_plan(parking, reserved, map, d)))
            == count_no_room(warnings),
        extends(warnings, with_warning(warnings, s.spec_plan(parking, reserved, map, d))),
{
    let plan = s.spec_plan(parking, reserved, map, d);
    match plan.warning {
        Some(w) => {
            assert(warnings.push(w).drop_last() == warnings);
            assert(warnings.push(w).subrange(0, warnings.len() as int) =~= warnings);
        },
        None => {
            assert(warnings.subrange(0, warnings.len() as int) =~= warnings);
        },
    }
}

/// What a run of agents has come to: the queue of trips, the cars that
/// are reserved, and the warnings.
pub struct Spawned {
    pub queue: Seq<(Tick, TripSpec)>,
    pub reserved: Set<usize>,
    pub warnings: Seq<Warning>,
}

impl SpawnOverTime {
    /// What the first `n` agents of the request come to, one after the
    /// other, where `draws` holds what was drawn for each: each agent's
    /// plan is decided on the reserved cars that the agents before it
    /// left, and its trip, its reserved car and its warning are added.
    pub open spec fn spec_spawn(
        &self,
        parking: &ParkingSimState,
        map: &RoadMap,
        start: Spawned,
        draws: Seq<AgentDraws>,
        n: int,
    ) -> Spawned
        decreases n,
    {
        if n <= 0 {
            start
        } else {
            let before = self.spec_spawn(parking, map, start, draws, n - 1);
            let plan = self.spec_plan(parking, before.reserved, map, draws[n - 1]);
            Spawned {
                queue: with_trip(before.queue, draws[n - 1].spawn_time, plan),
                reserved: with_reserved(before.reserved, plan),
                warnings: with_warning(before.warnings, plan),
            }
        }
    }

    /// `draws` holds what can be drawn for the agents of the request,
    /// one entry for each agent.
    pub open spec fn drawn(&self, neighborhoods: &Neighborhoods, draws: Seq<AgentDraws>) -> bool {
        &&& draws.len() == self.num_agents
        &&& forall|k: int| 0 <= k < draws.len() ==> self.can_draw(neighborhoods, #[trigger] draws[k])
    }

    /// The request was served with the draws `draws`: from `start`, its
    /// agents come to `end`.
    pub open spec fn agents_spawned(
        &self,
        parking: &ParkingSimState,
        map: &RoadMap,
        neighborhoods: &Neighborhoods,
        start: Spawned,
        end: Spawned,
        draws: Seq<AgentDraws>,
    ) -> bool {
        &&& self.drawn(neighborhoods, draws)
        &&& end == self.spec_spawn(parking, map, start, draws, draws.len() as int)
    }

    /// What the first `n` agents come to depends on the first `n` draws
    /// only.
    pub proof fn lemma_spawn_prefix(
        &self,
        parking: &ParkingSimState,
        map: &RoadMap,
        start: Spawned,
        a: Seq<AgentDraws>,
        b: Seq<AgentDraws>,
        n: int,
    )
        requires
            n <= a.len(),
            n <= b.len(),
            forall|k: int| 0 <= k < n ==> a[k] == b[k],
        ensures
            self.spec_spawn(parking, map, start, a, n) == self.spec_spawn(parking, map, start, b, n),
        decreases n,
    {
        if n > 0 {
            self.lemma_spawn_prefix(parking, map, start, a, b, n - 1);
        }
    }
}

impl SpawnOverTime {
    /// Every agent of the request gets a trip, whatever is drawn: the
    /// goal is a neighborhood and no agent rides a bike, or the goal is a
    /// border at which each mode has a goal.
    pub open spec fn is_sure(&self, map: &RoadMap) -> bool {
        match self.goal {
            OriginDestination::Neighborhood(_) => self.percent_biking.numerator == 0,
            OriginDestination::Border(_) => self.goal.drive_resolves(map)
                && self.goal.ride_resolves(map) && self.goal.walk_resolves(map),
        }
    }

    /// The least number of trips that the request schedules.
    pub open spec fn sure_agents(&self, map: &RoadMap) -> int {
        if self.is_sure(map) {
            self.num_agents as int
        } else {
            0
        }
    }

    /// Where every agent gets a trip, the plan of each has one.
    pub proof fn lemma_plan_sure(
        &self,
        parking: &ParkingSimState,
        reserved: Set<usize>,
        map: &RoadMap,
        neighborhoods: &Neighborhoods,
        d: AgentDraws,
    )
        requires
            self.is_sure(map),
            self.can_draw(neighborhoods, d),
        ensures
            self.spec_plan(parking, reserved, map, d).trip is Some,
    {
    }

    /// Serves the request: one agent after the other.
    pub fn spawn_agents(
        &self,
        sim: &mut Sim,
        reserved_cars: &mut HashSet<usize>,
        map: &RoadMap,
        neighborhoods: &Neighborhoods,
        rng: &mut XorShiftRng,
        timer: &mut Timer,
        pass_start: usize,
    )
        requires
            map.wf(),
            neighborhoods.wf(map),
            self.can_run(map, neighborhoods),
            old(sim).parking_state.wf(),
            pass_start <= old(sim).queued_trips@.len(),
            reservations_ok(
                &old(sim).parking_state,
                old(sim).queued_trips@,
                pass_start as int,
                old(reserved_cars)@,
            ),
        ensures
            final(timer).notes == old(timer).notes,
            exists|draws: Seq<AgentDraws>|
                #[trigger] self.agents_spawned(
                    &old(sim).parking_state,
                    map,
                    neighborhoods,
                    (Spawned {
                        queue: old(sim).queued_trips@,
                        reserved: old(reserved_cars)@,
                        warnings: old(timer).warnings@,
                    }),
                    (Spawned {
                        queue: final(sim).queued_trips@,
                        reserved: final(reserved_cars)@,
                        warnings: final(timer).warnings@,
                    }),
                    draws,
                ),
            self.num_agents == 0 ==> *final(rng) == *old(rng),
            batch_done(
                old(sim),
                final(sim),
                old(timer).warnings@,
                final(timer).warnings@,
                self.sure_agents(map),
                self.num_agents as int,
                |e: (Tick, TripSpec)|
                    self.may_schedule(&old(sim).parking_state, map, neighborhoods, e),
            ),
            reservations_ok(
                &final(sim).parking_state,
                final(sim).queued_trips@,
                pass_start as int,
                final(reserved_cars)@,
            ),
    {
        let ghost parking = sim.parking_state;
        let ghost each = |e: (Tick, TripSpec)|
            self.may_schedule(&old(sim).parking_state, map, neighborhoods, e);
        let ghost start = Spawned {
            queue: sim.queued_trips@,
            reserved: reserved_cars@,
            warnings: timer.warnings@,
        };
        let ghost draws: Seq<AgentDraws> = Seq::empty();
        let mut i: usize = 0;
        proof {
            assert(sim.queued_trips@.subrange(0, sim.queued_trips@.len() as int)
                =~= sim.queued_trips@);
            assert(timer.warnings@.subrange(0, timer.warnings@.len() as int) =~= timer.warnings@);
        }
        while i < self.num_agents
            invariant
                map.wf(),
                neighborhoods.wf(map),
                self.can_run(map, neighborhoods),
                parking == old(sim).parking_state,
                parking.wf(),
                each == |e: (Tick, TripSpec)|
                    self.may_schedule(&old(sim).parking_state, map, neighborhoods, e),
                i <= self.num_agents,
                i == 0 ==> *rng == *old(rng),
                draws.len() == i,
                forall|k: int|
                    0 <= k < draws.len() ==> self.can_draw(neighborhoods, #[trigger] draws[k]),
                (Spawned {
                    queue: sim.queued_trips@,
                    reserved: reserved_cars@,
                    warnings: timer.warnings@,
                }) == self.spec_spawn(&parking, map, start, draws, i as int),
                pass_start <= old(sim).queued_trips@.len(),
                timer.notes == old(timer).notes,
                batch_done(
                    old(sim),
                    sim,
                    old(timer).warnings@,
                    timer.warnings@,
                    if self.is_sure(map) {
                        i as int
                    } else {
                        0
                    },
                    i as int,
                    each,
                ),
                reservations_ok(&parking, sim.queued_trips@, pass_start as int, reserved_cars@),
            decreases self.num_agents - i,
        {
            let ghost queue = sim.queued_trips@;
            let ghost reserved = reserved_cars@;
            let ghost warned = timer.warnings@;
            self.spawn_agent(sim, reserved_cars, map, neighborhoods, rng, timer);
            proof {
                let d = choose|d: AgentDraws|
                    {
                        let plan = #[trigger] self.spec_plan(&parking, reserved, map, d);
                        &&& self.can_draw(neighborhoods, d)
                        &&& sim.queued_trips@ == with_trip(queue, d.spawn_time, plan)
                        &&& reserved_cars@ == with_reserved(reserved, plan)
                        &&& timer.warnings@ == with_warning(warned, plan)
                    };
                self.lemma_spawn_prefix(&parking, map, start, draws, draws.push(d), i as int);
                draws = draws.push(d);
                let plan = self.spec_plan(&parking, reserved, map, d);
                if self.is_sure(map) {
                    self.lemma_plan_sure(&parking, reserved, map, neighborhoods, d);
                }
                self.lemma_plan_keeps_reservations(
                    &parking,
                    reserved,
                    map,
                    d,
                    queue,
                    pass_start as int,
                );
                lemma_plan_warning(self, &parking, reserved, map, d, warned);
                assert(sim.queued_trips@.subrange(0, old(sim).queued_trips@.len() as int) =~= old(sim).queued_trips@);
                assert(timer.warnings@.subrange(0, old(timer).warnings@.len() as int) =~= old(timer).warnings@);
                assert forall|k: int|
                    old(sim).queued_trips@.len() <= k < sim.queued_trips@.len() implies each(
                    #[trigger] sim.queued_trips@[k],
                ) by {
                    if k < queue.len() {
                        assert(sim.queued_trips@[k] == queue[k]);
                    } else {
                        assert(self.spec_plan(&parking, reserved, map, d).trip == Some(
                            sim.queued_trips@[k].1,
                        ));
                    }
                }
            }
            i += 1;
        }
        proof {
            assert(self.agents_spawned(
                &parking,
                map,
                neighborhoods,
                start,
                Spawned {
                    queue: sim.queued_trips@,
                    reserved: reserved_cars@,
                    warnings: timer.warnings@,
                },
                draws,
            ));
        }
    }
}

impl SpawnOverTime {
    /// Whether the request can be served.
    pub fn is_runnable(&self, map: &RoadMap, neighborhoods: &Neighborhoods) -> (ok: bool)
        ensures
            ok == self.can_run(map, neighborhoods),
    {
        if !self.percent_biking.is_valid() || !self.percent_use_transit.is_valid() {
            return false;
        }
        match neighborhoods.find(&self.start_from_neighborhood) {
            None => false,
            Some(at) => self.num_agents == 0 || (self.start_time.0 < self.stop_time.0
                && neighborhoods.all[at].buildings.len() > 0 && self.goal.is_usable(
                map,
                neighborhoods,
            )),
        }
    }
}

} // verus!
