use rand::{RngCore, SeedableRng};
use std::collections::{BTreeSet, HashSet};
use rand_xorshift::XorShiftRng;
use traffic_sim::demand::{
    BorderSpawnOverTime, Scenario, ScenarioError, SeedParkedCars, SpawnOverTime,
};
use traffic_sim::goal::OriginDestination;
use traffic_sim::ids::{BuildingID, BusRouteID, BusStopID, CarID, IntersectionID, LaneID, RoadID};
use traffic_sim::map::{
    Building, Intersection, Lane, LaneType, Position, Road, RoadMap, TransitRide,
};
use traffic_sim::neighborhood::{FullNeighborhoodInfo, Neighborhoods};
use traffic_sim::random::WeightedUsizeChoice;
use traffic_sim::report::{Timer, Warning};
use traffic_sim::scenario::Instantiation;
use traffic_sim::sim::Sim;
use traffic_sim::spawning::{AgentDraws, AgentPlan};
use traffic_sim::trips::{
    DrivingGoal, ParkingSpot, SidewalkPOI, SidewalkSpot, TripSpec, VehicleSpec, VehicleType,
};
use traffic_sim::units::{Distance, Probability, Speed, Tick};

fn lane(id: usize, lane_type: LaneType, parent: usize, length: u64) -> Lane {
    Lane { id: LaneID(id), lane_type, parent: RoadID(parent), length: Distance(length) }
}

/// Two roads between three intersections, 0 - 1 - 2, and a fourth
/// intersection that no lane touches.
///
/// Road 0: forwards lanes 0 (driving), 1 (parking, three spots) and 2
/// (sidewalk); backwards lanes 3 (driving) and 4 (sidewalk).
/// Road 1: forwards lanes 5 (driving), 6 (parking, two spots), 7
/// (sidewalk) and 8 (biking); backwards lanes 9 (driving) and 10
/// (sidewalk).
/// Buildings 0 and 1 stand on road 0, buildings 2 and 3 on road 1.
fn town() -> RoadMap {
    let lanes = vec![
        lane(0, LaneType::Driving, 0, 10_000),
        lane(1, LaneType::Parking, 0, 2_400),
        lane(2, LaneType::Sidewalk, 0, 10_000),
        lane(3, LaneType::Driving, 0, 10_000),
        lane(4, LaneType::Sidewalk, 0, 10_000),
        lane(5, LaneType::Driving, 1, 20_000),
        lane(6, LaneType::Parking, 1, 1_600),
        lane(7, LaneType::Sidewalk, 1, 20_000),
        lane(8, LaneType::Biking, 1, 20_000),
        lane(9, LaneType::Driving, 1, 20_000),
        lane(10, LaneType::Sidewalk, 1, 20_000),
    ];
    let roads = vec![
        Road {
            id: RoadID(0),
            children_forwards: vec![LaneID(0), LaneID(1), LaneID(2)],
            children_backwards: vec![LaneID(3), LaneID(4)],
            next_roads: vec![RoadID(1)],
            supports_bikes: false,
        },
        Road {
            id: RoadID(1),
            children_forwards: vec![LaneID(5), LaneID(6), LaneID(7), LaneID(8)],
            children_backwards: vec![LaneID(9), LaneID(10)],
            next_roads: vec![RoadID(0)],
            supports_bikes: true,
        },
    ];
    let intersections = vec![
        Intersection {
            id: IntersectionID(0),
            incoming_lanes: vec![LaneID(3), LaneID(4)],
            outgoing_lanes: vec![LaneID(0), LaneID(2)],
        },
        Intersection {
            id: IntersectionID(1),
            incoming_lanes: vec![LaneID(0), LaneID(2), LaneID(9), LaneID(10)],
            outgoing_lanes: vec![LaneID(3), LaneID(4), LaneID(5), LaneID(7), LaneID(8)],
        },
        Intersection {
            id: IntersectionID(2),
            incoming_lanes: vec![LaneID(8), LaneID(5), LaneID(7)],
            outgoing_lanes: vec![LaneID(9), LaneID(10)],
        },
        Intersection { id: IntersectionID(3), incoming_lanes: vec![], outgoing_lanes: vec![] },
    ];
    let front = |b: usize, l: usize, d: u64| Building {
        id: BuildingID(b),
        front_path: Position { lane: LaneID(l), dist_along: Distance(d) },
    };
    let buildings = vec![front(0, 2, 100), front(1, 4, 200), front(2, 7, 300), front(3, 10, 400)];
    let transit_rides = vec![TransitRide {
        from: LaneID(2),
        to: LaneID(7),
        stop1: BusStopID(1),
        stop2: BusStopID(2),
        route: BusRouteID(5),
    }];
    let map = RoadMap { roads, lanes, intersections, buildings, transit_rides };
    assert!(map.check());
    map
}

fn neighborhoods(map: &RoadMap) -> Neighborhoods {
    let n = Neighborhoods {
        all: vec![
            FullNeighborhoodInfo {
                name: "west".to_string(),
                buildings: vec![BuildingID(0), BuildingID(1)],
                roads: [0].into_iter().collect(),
            },
            FullNeighborhoodInfo {
                name: "east".to_string(),
                buildings: vec![BuildingID(2), BuildingID(3)],
                roads: [1].into_iter().collect(),
            },
            FullNeighborhoodInfo {
                name: "far east".to_string(),
                buildings: vec![BuildingID(2)],
                roads: [1].into_iter().collect(),
            },
            FullNeighborhoodInfo { name: "void".to_string(), buildings: vec![], roads: BTreeSet::new() },
        ],
    };
    assert!(n.is_valid(map));
    n
}

fn rng(seed: u8) -> XorShiftRng {
    XorShiftRng::from_seed([seed; 16])
}

fn never() -> Probability {
    Probability::never()
}

fn always() -> Probability {
    Probability::always()
}

fn half() -> Probability {
    Probability { numerator: 1, denominator: 2 }
}

fn to(name: &str) -> OriginDestination {
    OriginDestination::Neighborhood(name.to_string())
}

fn spawn(num_agents: usize, from: &str, goal: OriginDestination) -> SpawnOverTime {
    SpawnOverTime {
        num_agents,
        start_time: Tick(100),
        stop_time: Tick(200),
        start_from_neighborhood: from.to_string(),
        goal,
        percent_biking: half(),
        percent_use_transit: half(),
    }
}

fn border(peds: usize, cars: usize, bikes: usize, at: usize, goal: OriginDestination) -> BorderSpawnOverTime {
    BorderSpawnOverTime {
        num_peds: peds,
        num_cars: cars,
        num_bikes: bikes,
        start_time: Tick(300),
        stop_time: Tick(400),
        start_from_border: IntersectionID(at),
        goal,
        percent_use_transit: half(),
    }
}

fn seed(neighborhood: &str, weights: Vec<usize>) -> SeedParkedCars {
    SeedParkedCars {
        neighborhood: neighborhood.to_string(),
        cars_per_building: WeightedUsizeChoice { weights },
    }
}

fn scenario(
    seeds: Vec<SeedParkedCars>,
    spawns: Vec<SpawnOverTime>,
    borders: Vec<BorderSpawnOverTime>,
) -> Scenario {
    Scenario {
        scenario_name: "test".to_string(),
        map_name: "town".to_string(),
        seed_parked_cars: seeds,
        spawn_over_time: spawns,
        border_spawn_over_time: borders,
    }
}

/// Checks what `instantiate` asks of its caller, then calls it.
fn run(
    s: &Scenario,
    sim: &mut Sim,
    map: &RoadMap,
    n: &Neighborhoods,
    seed: u8,
    timer: &mut Timer,
) -> Result<Instantiation, ScenarioError> {
    if s.undefined_neighborhood(n).is_none() {
        assert!(s.is_runnable(map, n));
    }
    let demand = s.id_demand(n).unwrap();
    assert!(sim.total_cars() + demand + sim.queued_trips.len() < usize::MAX);
    s.instantiate(sim, map, n, &mut rng(seed), timer)
}

fn bike() -> VehicleSpec {
    VehicleSpec {
        vehicle_type: VehicleType::Bike,
        length: Distance(180),
        max_speed: Some(Speed(447)),
    }
}

fn draws(from: usize, to: Option<usize>, wants_bike: bool, wants_transit: bool) -> AgentDraws {
    AgentDraws {
        spawn_time: Tick(150),
        from_bldg: BuildingID(from),
        to_bldg: to.map(BuildingID),
        wants_bike,
        wants_transit,
        bike: bike(),
    }
}

fn at_building(map: &RoadMap, b: usize) -> SidewalkSpot {
    SidewalkSpot::building(BuildingID(b), map)
}

fn nothing() -> AgentPlan {
    AgentPlan { trip: None, reserve: None, warning: None }
}

fn go(trip: TripSpec) -> AgentPlan {
    AgentPlan { trip: Some(trip), reserve: None, warning: None }
}

#[test]
fn undefined_neighborhood_is_fatal_and_nothing_is_done() {
    let map = town();
    let n = neighborhoods(&map);
    let mut sim = Sim::new(&map, 1);
    let mut timer = Timer::new();
    let s = scenario(
        vec![seed("west", vec![0, 1])],
        vec![spawn(5, "west", to("nowhere")), spawn(5, "elsewhere", to("east"))],
        vec![],
    );
    assert_eq!(s.undefined_neighborhood(&n), Some("nowhere".to_string()));
    match run(&s, &mut sim, &map, &n, 1, &mut timer) {
        Err(ScenarioError::UndefinedNeighborhood(name)) => assert_eq!(name, "nowhere"),
        Ok(_) => panic!("an undefined neighborhood went through"),
    }
    assert_eq!(sim.total_cars(), 0);
    assert!(sim.queued_trips.is_empty());
    assert!(sim.realized_trips.is_empty());
    assert!(timer.warnings.is_empty());
    assert!(timer.notes.is_empty());
}

#[test]
fn undefined_names_are_found_in_the_order_of_the_requests() {
    let map = town();
    let n = neighborhoods(&map);
    let s = scenario(
        vec![seed("west", vec![1]), seed("gone", vec![1])],
        vec![spawn(0, "lost", to("east"))],
        vec![border(0, 0, 0, 0, to("missing"))],
    );
    assert_eq!(s.undefined_neighborhood(&n), Some("gone".to_string()));
    let s = scenario(
        vec![seed("west", vec![1])],
        vec![spawn(0, "east", to("east"))],
        vec![border(0, 0, 0, 0, to("missing"))],
    );
    assert_eq!(s.undefined_neighborhood(&n), Some("missing".to_string()));
    let s = scenario(vec![seed("west", vec![1])], vec![spawn(0, "east", to("east"))], vec![]);
    assert_eq!(s.undefined_neighborhood(&n), None);
}

#[test]
fn scenario_without_agents_realizes_nothing() {
    let map = town();
    let n = neighborhoods(&map);
    let mut sim = Sim::new(&map, 1);
    let mut timer = Timer::new();
    let s = scenario(vec![], vec![spawn(0, "west", to("east"))], vec![]);
    let done = run(&s, &mut sim, &map, &n, 1, &mut timer).unwrap();
    assert!(done.seeded.is_empty());
    assert!(done.scheduled.is_empty());
    assert!(sim.realized_trips.is_empty());
    assert!(sim.queued_trips.is_empty());
    assert_eq!(sim.total_cars(), 0);
    assert!(timer.warnings.is_empty());
}

#[test]
fn empty_window_is_fine_when_nobody_is_asked_for() {
    let map = town();
    let n = neighborhoods(&map);
    let mut s = spawn(0, "void", to("void"));
    s.start_time = Tick(5);
    s.stop_time = Tick(5);
    assert!(s.is_runnable(&map, &n));
    s.num_agents = 1;
    assert!(!s.is_runnable(&map, &n));
    let mut s = spawn(1, "west", to("east"));
    assert!(s.is_runnable(&map, &n));
    s.percent_biking = Probability { numerator: 3, denominator: 2 };
    assert!(!s.is_runnable(&map, &n));
}

#[test]
fn same_seed_same_trips_and_same_parking() {
    let map = town();
    let n = neighborhoods(&map);
    let s = scenario(
        vec![seed("west", vec![1, 3, 1]), seed("east", vec![1, 1])],
        vec![spawn(30, "west", to("east")), spawn(30, "east", OriginDestination::Border(IntersectionID(0)))],
        vec![border(5, 5, 5, 0, to("east")), border(5, 5, 5, 2, to("west"))],
    );
    let mut first = Sim::new(&map, 1);
    let mut second = Sim::new(&map, 1);
    let mut timer1 = Timer::new();
    let mut timer2 = Timer::new();
    let a = run(&s, &mut first, &map, &n, 42, &mut timer1).unwrap();
    let b = run(&s, &mut second, &map, &n, 42, &mut timer2).unwrap();
    assert!(!a.scheduled.is_empty());
    assert_eq!(a.scheduled, b.scheduled);
    assert_eq!(a.seeded, b.seeded);
    assert_eq!(first.realized_trips, second.realized_trips);
    assert_eq!(first.parking_state.lanes, second.parking_state.lanes);
    assert_eq!(first.driving_state.cars, second.driving_state.cars);
    assert_eq!(first.walking_state.peds, second.walking_state.peds);
    assert_eq!(timer1.warnings, timer2.warnings);
    assert_eq!(timer1.notes, timer2.notes);
}

#[test]
fn trips_start_in_the_window_of_their_request() {
    let map = town();
    let n = neighborhoods(&map);
    let s = scenario(
        vec![],
        vec![spawn(40, "west", to("east"))],
        vec![border(10, 10, 10, 0, to("east"))],
    );
    let mut sim = Sim::new(&map, 1);
    let mut timer = Timer::new();
    let done = run(&s, &mut sim, &map, &n, 7, &mut timer).unwrap();
    let mut early = 0;
    let mut times = std::collections::BTreeSet::new();
    for (t, trip) in done.scheduled.iter() {
        times.insert(t.0);
        if let TripSpec::CarAppearing(..) = trip {
            assert!(300 <= t.0 && t.0 < 400);
        } else if 100 <= t.0 && t.0 < 200 {
            early += 1;
        } else {
            assert!(300 <= t.0 && t.0 < 400);
        }
    }
    assert!(early > 0);
    // Times are drawn: they are not all the same.
    assert!(times.len() > 5);
    // What is realized is what was scheduled, in the order of the times.
    assert_eq!(sim.realized_trips.len(), done.scheduled.len());
    for pair in sim.realized_trips.windows(2) {
        assert!(pair[0].0 .0 <= pair[1].0 .0);
    }
}

#[test]
fn no_parked_car_is_used_twice() {
    let map = town();
    let n = neighborhoods(&map);
    // Every spot of the west gets a car; forty agents start from there.
    let s = scenario(
        vec![seed("west", vec![0, 0, 1])],
        vec![spawn(20, "west", to("east")), spawn(20, "west", to("east"))],
        vec![],
    );
    for seed in 0..10 {
        let mut sim = Sim::new(&map, 1);
        let mut timer = Timer::new();
        let done = run(&s, &mut sim, &map, &n, seed, &mut timer).unwrap();
        assert_eq!(done.seeded[0].placed, 3);
        assert_eq!(done.seeded[0].requested, 4);
        let mut used: Vec<ParkingSpot> = Vec::new();
        for (_, trip) in done.scheduled.iter() {
            if let TripSpec::UsingParkedCar(start, spot, _) = trip {
                assert!(!used.contains(spot));
                used.push(*spot);
                // The car belongs to the building at which the trip starts.
                let owner = match start.connection {
                    SidewalkPOI::Building(b) => b,
                    SidewalkPOI::Border(_) => panic!("a drive from a border"),
                };
                let cars = sim.get_parked_cars_by_owner(owner);
                assert!(cars.iter().any(|c| c.spot == *spot));
            }
        }
        // With forty agents on two buildings every car is taken.
        assert_eq!(used.len(), 3);
        assert_eq!(done.scheduled.len(), 40);
    }
}

#[test]
fn rule_one_the_first_free_parked_car_is_driven() {
    let map = town();
    let mut sim = Sim::new(&map, 1);
    let spot_a = ParkingSpot { lane: LaneID(1), idx: 2 };
    let spot_b = ParkingSpot { lane: LaneID(6), idx: 0 };
    let car = VehicleSpec { vehicle_type: VehicleType::Car, length: Distance(500), max_speed: None };
    sim.seed_parked_car(car, spot_b, Some(BuildingID(0)));
    sim.seed_parked_car(car, spot_a, Some(BuildingID(0)));
    sim.seed_parked_car(car, ParkingSpot { lane: LaneID(1), idx: 0 }, Some(BuildingID(1)));
    let s = spawn(1, "west", to("east"));
    let mut reserved = HashSet::new();
    // Cars are looked through lane by lane: the one on lane 1 comes first,
    // though it was parked later. The bike is not asked for.
    let plan = s.plan_agent(&sim, &reserved, &map, &draws(0, Some(2), true, true));
    assert_eq!(
        plan,
        AgentPlan {
            trip: Some(TripSpec::UsingParkedCar(
                at_building(&map, 0),
                spot_a,
                DrivingGoal::ParkNear(BuildingID(2)),
            )),
            reserve: Some(CarID(1)),
            warning: None,
        }
    );
    reserved.insert(1);
    let plan = s.plan_agent(&sim, &reserved, &map, &draws(0, Some(2), true, true));
    assert_eq!(
        plan.trip,
        Some(TripSpec::UsingParkedCar(
            at_building(&map, 0),
            spot_b,
            DrivingGoal::ParkNear(BuildingID(2)),
        ))
    );
    assert_eq!(plan.reserve, Some(CarID(0)));
    reserved.insert(0);
    // Both cars of building 0 are taken: the agent rides a bike. The car
    // of building 1 is not for it.
    let plan = s.plan_agent(&sim, &reserved, &map, &draws(0, Some(2), true, true));
    assert_eq!(
        plan,
        go(TripSpec::UsingBike(at_building(&map, 0), bike(), DrivingGoal::ParkNear(BuildingID(2))))
    );
}

#[test]
fn rule_one_a_drive_that_cannot_end_is_skipped_and_reserves_nothing() {
    let map = town();
    let mut sim = Sim::new(&map, 1);
    let car = VehicleSpec { vehicle_type: VehicleType::Car, length: Distance(500), max_speed: None };
    sim.seed_parked_car(car, ParkingSpot { lane: LaneID(1), idx: 0 }, Some(BuildingID(0)));
    // No lane reaches intersection 3.
    let s = spawn(1, "west", OriginDestination::Border(IntersectionID(3)));
    let plan = s.plan_agent(&sim, &HashSet::new(), &map, &draws(0, None, true, true));
    assert_eq!(
        plan,
        AgentPlan {
            trip: None,
            reserve: None,
            warning: Some(Warning::NoDrivingGoalAtBorder { border: IntersectionID(3) }),
        }
    );
    // A driving lane reaches intersection 0.
    let s = spawn(1, "west", OriginDestination::Border(IntersectionID(0)));
    let plan = s.plan_agent(&sim, &HashSet::new(), &map, &draws(0, None, true, true));
    assert_eq!(
        plan.trip,
        Some(TripSpec::UsingParkedCar(
            at_building(&map, 0),
            ParkingSpot { lane: LaneID(1), idx: 0 },
            DrivingGoal::Border(IntersectionID(0), LaneID(3)),
        ))
    );
}

#[test]
fn rule_two_a_bike_is_ridden_unless_the_ride_is_pointless() {
    let map = town();
    let sim = Sim::new(&map, 1);
    let s = spawn(1, "west", to("west"));
    let none = HashSet::new();
    // From building 0 to building 1: other sidewalks.
    let plan = s.plan_agent(&sim, &none, &map, &draws(0, Some(1), true, false));
    assert_eq!(
        plan,
        go(TripSpec::UsingBike(at_building(&map, 0), bike(), DrivingGoal::ParkNear(BuildingID(1))))
    );
    // From building 0 to building 0: the same sidewalk, no trip.
    let plan = s.plan_agent(&sim, &none, &map, &draws(0, Some(0), true, false));
    assert_eq!(plan, nothing());
    // To a border: the first biking lane that ends there, else the first
    // driving lane.
    let s = spawn(1, "west", OriginDestination::Border(IntersectionID(2)));
    let plan = s.plan_agent(&sim, &none, &map, &draws(0, None, true, false));
    assert_eq!(
        plan,
        go(TripSpec::UsingBike(
            at_building(&map, 0),
            bike(),
            DrivingGoal::Border(IntersectionID(2), LaneID(8)),
        ))
    );
    let s = spawn(1, "west", OriginDestination::Border(IntersectionID(0)));
    let plan = s.plan_agent(&sim, &none, &map, &draws(0, None, true, false));
    assert_eq!(
        plan,
        go(TripSpec::UsingBike(
            at_building(&map, 0),
            bike(),
            DrivingGoal::Border(IntersectionID(0), LaneID(3)),
        ))
    );
    let s = spawn(1, "west", OriginDestination::Border(IntersectionID(3)));
    let plan = s.plan_agent(&sim, &none, &map, &draws(0, None, true, false));
    assert_eq!(
        plan,
        AgentPlan {
            trip: None,
            reserve: None,
            warning: Some(Warning::NoBikingGoalAtBorder { border: IntersectionID(3) }),
        }
    );
}

#[test]
fn rule_three_a_walk_by_transit_if_asked_for_and_served() {
    let map = town();
    let sim = Sim::new(&map, 1);
    let s = spawn(1, "west", to("east"));
    let none = HashSet::new();
    let start = at_building(&map, 0);
    // The map has a ride from sidewalk 2 to sidewalk 7.
    let plan = s.plan_agent(&sim, &none, &map, &draws(0, Some(2), false, true));
    assert_eq!(
        plan,
        go(TripSpec::UsingTransit(start, BusRouteID(5), BusStopID(1), BusStopID(2), at_building(&map, 2)))
    );
    // Not asked for.
    let plan = s.plan_agent(&sim, &none, &map, &draws(0, Some(2), false, false));
    assert_eq!(plan, go(TripSpec::JustWalking(start, at_building(&map, 2))));
    // Asked for, but the map has no ride to sidewalk 10.
    let plan = s.plan_agent(&sim, &none, &map, &draws(0, Some(3), false, true));
    assert_eq!(plan, go(TripSpec::JustWalking(start, at_building(&map, 3))));
    // To a border: the end of the first sidewalk that reaches it.
    let s = spawn(1, "west", OriginDestination::Border(IntersectionID(2)));
    let plan = s.plan_agent(&sim, &none, &map, &draws(0, None, false, false));
    let end = SidewalkSpot {
        connection: SidewalkPOI::Border(IntersectionID(2)),
        sidewalk_pos: Position { lane: LaneID(7), dist_along: Distance(20_000) },
    };
    assert_eq!(plan, go(TripSpec::JustWalking(start, end)));
    let s = spawn(1, "west", OriginDestination::Border(IntersectionID(3)));
    let plan = s.plan_agent(&sim, &none, &map, &draws(0, None, false, false));
    assert_eq!(
        plan,
        AgentPlan {
            trip: None,
            reserve: None,
            warning: Some(Warning::NoWalkingGoalAtBorder { border: IntersectionID(3) }),
        }
    );
}

#[test]
fn chances_of_zero_and_one_decide() {
    let map = town();
    let n = neighborhoods(&map);
    let mut all_bike = spawn(25, "west", to("east"));
    all_bike.percent_biking = always();
    let mut all_walk = spawn(25, "east", to("far east"));
    all_walk.percent_biking = never();
    all_walk.percent_use_transit = never();
    let mut all_transit = spawn(25, "west", to("far east"));
    all_transit.percent_biking = never();
    all_transit.percent_use_transit = always();
    let mut all_transit = all_transit;
    all_transit.start_time = Tick(1000);
    all_transit.stop_time = Tick(1001);
    let s = scenario(vec![], vec![all_bike, all_walk, all_transit], vec![]);
    let mut sim = Sim::new(&map, 1);
    let mut timer = Timer::new();
    let done = run(&s, &mut sim, &map, &n, 3, &mut timer).unwrap();
    assert_eq!(done.scheduled.len(), 75);
    for (k, (t, trip)) in done.scheduled.iter().enumerate() {
        match trip {
            TripSpec::UsingBike(start, v, DrivingGoal::ParkNear(b)) => {
                assert!(k < 25);
                assert!(matches!(start.connection, SidewalkPOI::Building(BuildingID(0 | 1))));
                assert!(b.0 == 2 || b.0 == 3);
                assert_eq!(v.vehicle_type, VehicleType::Bike);
                assert!(170 <= v.length.0 && v.length.0 < 200);
                assert_eq!(v.max_speed, Some(Speed(447)));
            }
            TripSpec::JustWalking(start, goal) => {
                if k < 50 {
                    assert!(25 <= k);
                    assert!(matches!(start.connection, SidewalkPOI::Building(BuildingID(2 | 3))));
                } else {
                    // From building 1 no ride goes to sidewalk 7.
                    assert_eq!(*start, at_building(&map, 1));
                    assert_eq!(t.0, 1000);
                }
                assert_eq!(*goal, at_building(&map, 2));
            }
            TripSpec::UsingTransit(start, route, stop1, stop2, goal) => {
                assert!(50 <= k);
                assert_eq!(t.0, 1000);
                assert_eq!(*start, at_building(&map, 0));
                assert_eq!((*route, *stop1, *stop2), (BusRouteID(5), BusStopID(1), BusStopID(2)));
                assert_eq!(*goal, at_building(&map, 2));
            }
            other => panic!("unexpected trip {:?}", other),
        }
    }
    // Both buildings of the west were drawn from.
    let from = |b: usize| {
        done.scheduled[50..].iter().filter(|(_, trip)| match trip {
            TripSpec::UsingTransit(s, ..) | TripSpec::JustWalking(s, _) => *s == at_building(&map, b),
            _ => false,
        })
        .count()
    };
    assert!(from(0) > 0 && from(1) > 0);
    assert_eq!(from(0) + from(1), 25);
}

#[test]
fn agents_at_a_border_start_there() {
    let map = town();
    let n = neighborhoods(&map);
    let s = scenario(vec![], vec![], vec![border(4, 3, 2, 0, to("east"))]);
    let mut sim = Sim::new(&map, 1);
    let mut timer = Timer::new();
    let done = run(&s, &mut sim, &map, &n, 11, &mut timer).unwrap();
    // Four pedestrians and three cars. Road 0 takes no bikes, and no
    // biking lane leaves intersection 0: the two bikes are skipped.
    assert_eq!(done.scheduled.len(), 7);
    assert_eq!(timer.warnings, vec![Warning::NoBikeLaneAtBorder { border: IntersectionID(0) }]);
    let start = SidewalkSpot {
        connection: SidewalkPOI::Border(IntersectionID(0)),
        sidewalk_pos: Position { lane: LaneID(2), dist_along: Distance(0) },
    };
    assert_eq!(SidewalkSpot::start_at_border(IntersectionID(0), &map), Some(start));
    for (k, (t, trip)) in done.scheduled.iter().enumerate() {
        assert!(300 <= t.0 && t.0 < 400);
        match trip {
            TripSpec::JustWalking(from, _) | TripSpec::UsingTransit(from, ..) => {
                assert!(k < 4);
                assert_eq!(*from, start);
            }
            TripSpec::CarAppearing(pos, v, DrivingGoal::ParkNear(b)) => {
                assert!(b.0 == 2 || b.0 == 3);
                assert!(4 <= k);
                assert_eq!(pos.lane, LaneID(0));
                assert_eq!(v.vehicle_type, VehicleType::Car);
                assert_eq!(pos.dist_along, Distance(0));
                assert!(450 <= v.length.0 && v.length.0 < 650);
                assert_eq!(v.max_speed, None);
            }
            other => panic!("unexpected trip {:?}", other),
        }
    }
}

#[test]
fn modes_without_a_place_to_start_are_skipped_with_a_warning() {
    let map = town();
    let n = neighborhoods(&map);
    // Intersection 0: a sidewalk and a driving lane leave it, on a road
    // that takes no bikes. Intersection 3: nothing leaves it.
    let s = scenario(
        vec![],
        vec![],
        vec![border(1, 1, 2, 0, to("east")), border(2, 2, 2, 3, to("east")), border(0, 0, 0, 3, to("east"))],
    );
    let mut sim = Sim::new(&map, 1);
    let mut timer = Timer::new();
    let done = run(&s, &mut sim, &map, &n, 11, &mut timer).unwrap();
    assert_eq!(done.scheduled.len(), 2);
    assert_eq!(
        timer.warnings,
        vec![
            Warning::NoBikeLaneAtBorder { border: IntersectionID(0) },
            Warning::NoSidewalkAtBorder { border: IntersectionID(3) },
            Warning::NoDrivingLaneAtBorder { border: IntersectionID(3) },
            Warning::NoBikeLaneAtBorder { border: IntersectionID(3) },
        ]
    );
}

#[test]
fn bikes_start_their_own_length_into_the_lane() {
    let map = town();
    let n = neighborhoods(&map);
    // Intersection 1: the biking lane 8 leaves it, and the driving lane 5
    // of road 1, which takes bikes.
    let s = scenario(vec![], vec![], vec![border(0, 0, 6, 1, OriginDestination::Border(IntersectionID(2)))]);
    let mut sim = Sim::new(&map, 1);
    let mut timer = Timer::new();
    let done = run(&s, &mut sim, &map, &n, 5, &mut timer).unwrap();
    assert_eq!(done.scheduled.len(), 6);
    for (_, trip) in done.scheduled.iter() {
        match trip {
            TripSpec::CarAppearing(pos, v, goal) => {
                assert_eq!(pos.lane, LaneID(8));
                assert_eq!(pos.dist_along, v.length);
                assert_eq!(v.vehicle_type, VehicleType::Bike);
                assert_eq!(*goal, DrivingGoal::Border(IntersectionID(2), LaneID(8)));
            }
            other => panic!("unexpected trip {:?}", other),
        }
    }
    assert_eq!(
        s.border_spawn_over_time[0].get_bike_lanes(&map),
        vec![LaneID(8), LaneID(5)]
    );
}

#[test]
fn a_lane_shorter_than_the_longest_car_starts_no_car() {
    let mut map = town();
    map.lanes[0].length = Distance(649);
    assert!(map.check());
    let n = neighborhoods(&map);
    let s = scenario(vec![], vec![], vec![border(0, 3, 0, 0, to("east"))]);
    let mut sim = Sim::new(&map, 1);
    let mut timer = Timer::new();
    let done = run(&s, &mut sim, &map, &n, 5, &mut timer).unwrap();
    assert!(done.scheduled.is_empty());
    assert_eq!(
        timer.warnings,
        vec![Warning::LaneTooShort {
            border: IntersectionID(0),
            lane: LaneID(0),
            length: Distance(649),
        }]
    );
    // A lane as long as the longest car will do.
    map.lanes[0].length = Distance(650);
    let mut sim = Sim::new(&map, 1);
    let mut timer = Timer::new();
    let done = run(&s, &mut sim, &map, &n, 5, &mut timer).unwrap();
    assert_eq!(done.scheduled.len(), 3);
    assert!(timer.warnings.is_empty());
}

#[test]
fn agents_whose_goal_does_not_resolve_are_skipped_one_by_one() {
    let map = town();
    let n = neighborhoods(&map);
    let lost = OriginDestination::Border(IntersectionID(3));
    let s = scenario(vec![], vec![], vec![border(2, 1, 0, 0, lost)]);
    let mut sim = Sim::new(&map, 1);
    let mut timer = Timer::new();
    let done = run(&s, &mut sim, &map, &n, 5, &mut timer).unwrap();
    assert!(done.scheduled.is_empty());
    assert_eq!(
        timer.warnings,
        vec![
            Warning::NoWalkingGoalAtBorder { border: IntersectionID(3) },
            Warning::NoWalkingGoalAtBorder { border: IntersectionID(3) },
            Warning::NoDrivingGoalAtBorder { border: IntersectionID(3) },
        ]
    );
}

#[test]
fn seeding_comes_before_spawning() {
    let map = town();
    let n = neighborhoods(&map);
    // Each building of the east gets one car; one agent per car and more.
    let s = scenario(vec![seed("east", vec![0, 1])], vec![spawn(10, "east", to("west"))], vec![]);
    let mut sim = Sim::new(&map, 1);
    let mut timer = Timer::new();
    let done = run(&s, &mut sim, &map, &n, 8, &mut timer).unwrap();
    assert_eq!(done.seeded.len(), 1);
    assert_eq!(done.seeded[0].placed, 2);
    assert_eq!(done.seeded[0].total_spots, 2);
    let drives = done
        .scheduled
        .iter()
        .filter(|(_, trip)| matches!(trip, TripSpec::UsingParkedCar(..)))
        .count();
    assert!(drives >= 1 && drives <= 2);
    // The cars stay parked; identifiers 0 and 1 are theirs.
    assert_eq!(sim.parking_state.num_parked, 2);
    assert_eq!(sim.total_cars(), 2);
}

#[test]
fn identifiers_are_counted_before_they_are_needed() {
    let map = town();
    let n = neighborhoods(&map);
    // Two buildings with three weights each, then 5 + 6 + 7 + 8 agents.
    let s = scenario(
        vec![seed("west", vec![1, 1, 1]), seed("nowhere", vec![1, 1, 1])],
        vec![spawn(5, "west", to("east"))],
        vec![border(6, 7, 8, 0, to("east"))],
    );
    assert_eq!(s.id_demand(&n), Some(2 * 3 + 5 + 6 + 7 + 8));
    let s = scenario(vec![], vec![spawn(usize::MAX, "west", to("east"))], vec![]);
    assert_eq!(s.id_demand(&n), Some(usize::MAX));
    let s = scenario(
        vec![],
        vec![spawn(usize::MAX, "west", to("east"))],
        vec![border(0, 1, 0, 0, to("east"))],
    );
    assert_eq!(s.id_demand(&n), None);
    assert_eq!(scenario(vec![], vec![], vec![]).id_demand(&n), Some(0));
}

#[test]
fn requests_at_a_border_that_cannot_be_served() {
    let map = town();
    let n = neighborhoods(&map);
    assert!(border(1, 1, 1, 0, to("east")).is_runnable(&map, &n));
    // An intersection that the map does not have.
    assert!(!border(0, 0, 0, 4, to("east")).is_runnable(&map, &n));
    // A goal without a building matters only if somebody starts.
    assert!(!border(1, 0, 0, 0, to("void")).is_runnable(&map, &n));
    assert!(border(0, 0, 0, 0, to("void")).is_runnable(&map, &n));
    assert!(border(1, 1, 1, 3, to("void")).is_runnable(&map, &n));
    assert!(!border(0, 0, 0, 0, to("nowhere")).is_runnable(&map, &n));
    // So does an empty window.
    let mut late = border(0, 1, 0, 0, to("east"));
    late.stop_time = late.start_time;
    assert!(!late.is_runnable(&map, &n));
    late.num_cars = 0;
    late.num_bikes = 3;
    assert!(late.is_runnable(&map, &n));
    assert!(late.has_work(&map) == false);
    let mut odd = border(0, 0, 0, 0, to("east"));
    odd.percent_use_transit = Probability { numerator: 2, denominator: 1 };
    assert!(!odd.is_runnable(&map, &n));
}

#[test]
fn every_agent_gets_a_trip_where_nothing_can_fail() {
    let map = town();
    let n = neighborhoods(&map);
    // To a border at which every mode has a goal, bike or not.
    let s = scenario(
        vec![seed("west", vec![0, 1])],
        vec![spawn(30, "west", OriginDestination::Border(IntersectionID(2)))],
        vec![border(3, 4, 5, 1, OriginDestination::Border(IntersectionID(2)))],
    );
    for seed in 0..5 {
        let mut sim = Sim::new(&map, 1);
        let mut timer = Timer::new();
        let done = run(&s, &mut sim, &map, &n, seed, &mut timer).unwrap();
        assert_eq!(done.scheduled.len(), 30 + 3 + 4 + 5);
        assert_eq!(sim.realized_trips.len(), 42);
        assert!(timer.warnings.is_empty());
    }
}

#[test]
fn the_first_agent_drives_the_parked_car_and_the_second_walks() {
    let map = town();
    let n = Neighborhoods {
        all: vec![FullNeighborhoodInfo {
            name: "home".to_string(),
            buildings: vec![BuildingID(0)],
            roads: [0].into_iter().collect(),
        }],
    };
    assert!(n.is_valid(&map));
    for seed in [1u8, 7, 200] {
        let mut sim = Sim::new(&map, 1);
        let car =
            VehicleSpec { vehicle_type: VehicleType::Car, length: Distance(500), max_speed: None };
        let parked = ParkingSpot { lane: LaneID(1), idx: 1 };
        sim.seed_parked_car(car, parked, Some(BuildingID(0)));
        let mut s = spawn(2, "home", to("home"));
        s.percent_biking = never();
        s.percent_use_transit = never();
        let mut timer = Timer::new();
        let done =
            run(&scenario(vec![], vec![s], vec![]), &mut sim, &map, &n, seed, &mut timer).unwrap();
        let trips: Vec<TripSpec> = done.scheduled.iter().map(|e| e.1).collect();
        assert_eq!(
            trips,
            vec![
                TripSpec::UsingParkedCar(
                    at_building(&map, 0),
                    parked,
                    DrivingGoal::ParkNear(BuildingID(0)),
                ),
                TripSpec::JustWalking(at_building(&map, 0), at_building(&map, 0)),
            ]
        );
        assert!(done.scheduled.iter().all(|e| Tick(100) <= e.0 && e.0 < Tick(200)));
        assert!(timer.warnings.is_empty());
        assert_eq!(sim.realized_trips.len(), 2);
        assert!(sim.queued_trips.is_empty());
    }
}

#[test]
fn without_demand_nothing_is_drawn_and_nothing_is_recorded() {
    let map = town();
    let n = neighborhoods(&map);
    let mut sim = Sim::new(&map, 1);
    let mut timer = Timer::new();
    let s = scenario(vec![], vec![spawn(0, "west", to("east")), spawn(0, "void", to("void"))], vec![]);
    assert!(s.is_runnable(&map, &n));
    let mut used = rng(9);
    let mut untouched = rng(9);
    let done = s.instantiate(&mut sim, &map, &n, &mut used, &mut timer).unwrap();
    assert!(done.scheduled.is_empty());
    assert!(timer.warnings.is_empty());
    assert!(timer.notes.is_empty());
    assert_eq!(used.next_u64(), untouched.next_u64());
    // An undefined name leaves the stream alone as well.
    let s = scenario(vec![], vec![spawn(3, "nowhere", to("east"))], vec![]);
    assert!(s.instantiate(&mut sim, &map, &n, &mut used, &mut timer).is_err());
    assert_eq!(used.next_u64(), untouched.next_u64());
}

#[test]
fn a_goal_at_a_border_needs_no_draw() {
    let map = town();
    let n = neighborhoods(&map);
    let mut timer = Timer::new();
    let mut used = rng(3);
    let mut untouched = rng(3);
    let goal = OriginDestination::Border(IntersectionID(2));
    assert!(goal.pick_driving_goal(&map, &n, &mut used, &mut timer).is_some());
    assert!(goal.pick_biking_goal(&map, &n, &mut used, &mut timer).is_some());
    assert!(goal.pick_walking_goal(&map, &n, &mut used, &mut timer).is_some());
    assert_eq!(goal.pick_building(&n, &mut used), None);
    assert_eq!(used.next_u64(), untouched.next_u64());
    assert!(timer.warnings.is_empty());
}
