use rand::{RngCore, SeedableRng};
use rand_xorshift::XorShiftRng;
use std::time::Duration;
use traffic_sim::driving::{CarEvent, DrivingCar, On};
use traffic_sim::ids::{BuildingID, CarID, IntersectionID, LaneID, PedestrianID, RoadID, TurnID};
use traffic_sim::map::{Building, Intersection, Lane, LaneType, Position, Road, RoadMap, Turn};
use traffic_sim::realize::sort_trips;
use traffic_sim::sim::{CarState, DrawCar, Movement, Sim, SimSummary, Standstill, keep_stepping};
use traffic_sim::trips::{
    DrivingGoal, ParkingSpot, SidewalkPOI, SidewalkSpot, TripSpec, VehicleSpec, VehicleType,
};
use traffic_sim::units::{Distance, Tick};
use traffic_sim::walking::{PedEvent, Pedestrian};

fn lane(id: usize, lane_type: LaneType, length: u64) -> Lane {
    Lane { id: LaneID(id), lane_type, parent: RoadID(0), length: Distance(length) }
}

/// One road with a driving lane 0, a parking lane 1 with two spots, a
/// sidewalk 2 and a biking lane 3, and one building.
fn street() -> RoadMap {
    let map = RoadMap {
        roads: vec![Road {
            id: RoadID(0),
            children_forwards: vec![LaneID(0), LaneID(1), LaneID(2), LaneID(3)],
            children_backwards: vec![],
            next_roads: vec![],
            supports_bikes: true,
        }],
        lanes: vec![
            lane(0, LaneType::Driving, 5000),
            lane(1, LaneType::Parking, 1600),
            lane(2, LaneType::Sidewalk, 5000),
            lane(3, LaneType::Biking, 5000),
        ],
        intersections: vec![Intersection {
            id: IntersectionID(0),
            incoming_lanes: vec![],
            outgoing_lanes: vec![LaneID(0)],
        }],
        buildings: vec![Building {
            id: BuildingID(0),
            front_path: Position { lane: LaneID(2), dist_along: Distance(700) },
        }],
        transit_rides: vec![],
    };
    assert!(map.check());
    map
}

fn car_spec(length: u64) -> VehicleSpec {
    VehicleSpec { vehicle_type: VehicleType::Car, length: Distance(length), max_speed: None }
}

fn appearing(lane: usize, dist: u64, length: u64) -> TripSpec {
    TripSpec::CarAppearing(
        Position { lane: LaneID(lane), dist_along: Distance(dist) },
        car_spec(length),
        DrivingGoal::ParkNear(BuildingID(0)),
    )
}

fn at_home() -> SidewalkSpot {
    SidewalkSpot {
        connection: SidewalkPOI::Building(BuildingID(0)),
        sidewalk_pos: Position { lane: LaneID(2), dist_along: Distance(700) },
    }
}

fn walking() -> TripSpec {
    TripSpec::JustWalking(at_home(), at_home())
}

/// A movement that reports what it is told to report, tick by tick.
struct Script {
    cars: Vec<Vec<CarEvent>>,
    peds: Vec<Vec<PedEvent>>,
    seen: Vec<(Tick, usize, usize)>,
}

impl Movement for Script {
    fn step_cars(&mut self, now: Tick, _: &RoadMap, cars: &Vec<DrivingCar>) -> Vec<CarEvent> {
        self.seen.push((now, cars.len(), usize::MAX));
        if self.cars.is_empty() {
            vec![]
        } else {
            self.cars.remove(0)
        }
    }

    fn step_peds(&mut self, now: Tick, _: &RoadMap, peds: &Vec<Pedestrian>) -> Vec<PedEvent> {
        let last = self.seen.last_mut().unwrap();
        assert_eq!(last.0, now);
        last.2 = peds.len();
        if self.peds.is_empty() {
            vec![]
        } else {
            self.peds.remove(0)
        }
    }

    fn has_room(&mut self, _: Tick, _: &RoadMap, _: LaneID, _: &Vec<DrivingCar>) -> bool {
        true
    }

    fn finds_walk(&mut self, _: &RoadMap, _: LaneID) -> bool {
        true
    }
}

#[test]
fn new_simulation_is_empty_and_tracks_the_lanes_by_their_type() {
    let map = street();
    let sim = Sim::new(&map, 3);
    assert_eq!(sim.time(), Tick(0));
    assert_eq!(sim.total_cars(), 0);
    assert_eq!(sim.driving_state.lanes.ids, vec![0]);
    assert_eq!(sim.walking_state.lanes.ids, vec![2]);
    assert_eq!(sim.parking_state.lanes.iter().map(|l| l.len()).collect::<Vec<_>>(), vec![0, 2, 0, 0]);
    assert_eq!(
        sim.summary(),
        SimSummary { time: Tick(0), waiting: 0, active: 0, parked: 0, pedestrians: 0 }
    );
}

#[test]
fn scheduling_only_queues() {
    let map = street();
    let mut sim = Sim::new(&map, 3);
    sim.schedule_trip(Tick(5), walking());
    sim.schedule_trip(Tick(2), appearing(0, 0, 500));
    assert_eq!(sim.queued_trips, vec![(Tick(5), walking()), (Tick(2), appearing(0, 0, 500))]);
    assert!(sim.realized_trips.is_empty());
    assert_eq!(sim.total_cars(), 0);
    assert!(sim.driving_state.cars.is_empty());
    assert!(sim.walking_state.peds.is_empty());
}

#[test]
fn trips_are_realized_by_time_then_by_the_order_of_scheduling() {
    let map = street();
    let mut sim = Sim::new(&map, 3);
    let trips = vec![
        (Tick(30), appearing(0, 10, 500)),
        (Tick(10), walking()),
        (Tick(20), appearing(0, 20, 510)),
        (Tick(10), appearing(0, 30, 520)),
        (Tick(30), walking()),
        (Tick(10), appearing(0, 40, 530)),
        (Tick(0), appearing(0, 50, 540)),
    ];
    for (t, trip) in trips.iter() {
        sim.schedule_trip(*t, *trip);
    }
    sim.spawn_all_trips(&map);
    let expected = vec![
        (Tick(0), appearing(0, 50, 540)),
        (Tick(10), walking()),
        (Tick(10), appearing(0, 30, 520)),
        (Tick(10), appearing(0, 40, 530)),
        (Tick(20), appearing(0, 20, 510)),
        (Tick(30), appearing(0, 10, 500)),
        (Tick(30), walking()),
    ];
    assert_eq!(sort_trips(&trips), expected);
    assert_eq!(sim.realized_trips, expected);
    assert!(sim.queued_trips.is_empty());
    // Identifiers are handed out in the order of realization.
    assert_eq!(sim.total_cars(), 5);
    let fronts: Vec<(usize, u64, u64)> = sim
        .driving_state
        .cars
        .iter()
        .map(|c| (c.vehicle.id.0, c.front.0, c.vehicle.length.0))
        .collect();
    assert_eq!(fronts, vec![(0, 50, 540), (1, 30, 520), (2, 40, 530), (3, 20, 510), (4, 10, 500)]);
    for c in sim.driving_state.cars.iter() {
        assert_eq!(c.on, On::Lane(LaneID(0)));
        assert_eq!(c.waiting_for, None);
        assert!(!c.debug);
    }
    assert_eq!(
        sim.walking_state.peds,
        vec![
            Pedestrian { id: PedestrianID(0), on: On::Lane(LaneID(2)), dist_along: Distance(700) },
            Pedestrian { id: PedestrianID(1), on: On::Lane(LaneID(2)), dist_along: Distance(700) },
        ]
    );
    // A second batch goes behind the first.
    sim.schedule_trip(Tick(1), walking());
    sim.spawn_all_trips(&map);
    assert_eq!(sim.realized_trips.len(), 8);
    assert_eq!(sim.realized_trips[7], (Tick(1), walking()));
    assert_eq!(sim.walking_state.peds[2].id, PedestrianID(2));
}

#[test]
fn a_step_moves_time_then_cars_then_pedestrians() {
    let map = street();
    let mut sim = Sim::new(&map, 3);
    sim.schedule_trip(Tick(0), appearing(0, 0, 500));
    sim.schedule_trip(Tick(0), appearing(0, 600, 500));
    sim.schedule_trip(Tick(0), walking());
    sim.spawn_all_trips(&map);
    sim.seed_parked_car(car_spec(480), ParkingSpot { lane: LaneID(1), idx: 1 }, None);
    let turn = On::Turn(TurnID(4));
    let mut script = Script {
        cars: vec![
            vec![CarEvent::Blocked(CarID(0), turn), CarEvent::Moved(CarID(1), turn, Distance(9))],
            vec![CarEvent::Moved(CarID(0), turn, Distance(1)), CarEvent::Vanished(CarID(1))],
            // Reports of cars that are not on the road change nothing.
            vec![CarEvent::Vanished(CarID(2)), CarEvent::Blocked(CarID(7), turn)],
        ],
        peds: vec![
            vec![PedEvent::Moved(PedestrianID(0), turn, Distance(3))],
            vec![PedEvent::Arrived(PedestrianID(0)), PedEvent::Arrived(PedestrianID(0))],
        ],
        seen: vec![],
    };
    assert_eq!(sim.get_car_state(CarID(0)), CarState::Moving);
    assert_eq!(sim.get_car_state(CarID(1)), CarState::Moving);
    // The parked car, and a car that does not exist, have no driving
    // record.
    assert_eq!(sim.get_car_state(CarID(2)), CarState::Parked);
    assert_eq!(sim.get_car_state(CarID(99)), CarState::Parked);

    let report = sim.step(&map, &mut script);
    assert_eq!(report.car_events.len(), 2);
    assert_eq!(sim.time(), Tick(1));
    assert_eq!(sim.driving_state.stepped_at, Tick(1));
    assert_eq!(sim.get_car_state(CarID(0)), CarState::Stuck);
    assert_eq!(sim.get_car_state(CarID(1)), CarState::Moving);
    assert_eq!(sim.driving_state.cars[0].waiting_for, Some(turn));
    assert_eq!(sim.driving_state.cars[0].on, On::Lane(LaneID(0)));
    assert_eq!(sim.driving_state.cars[1].on, turn);
    assert_eq!(sim.driving_state.cars[1].front, Distance(9));
    assert_eq!(sim.walking_state.peds[0].on, turn);
    assert_eq!(
        sim.summary(),
        SimSummary { time: Tick(1), waiting: 1, active: 2, parked: 1, pedestrians: 1 }
    );

    sim.step(&map, &mut script);
    assert_eq!(sim.time(), Tick(2));
    assert_eq!(sim.get_car_state(CarID(0)), CarState::Moving);
    assert_eq!(sim.get_car_state(CarID(1)), CarState::Parked);
    assert_eq!(sim.driving_state.cars.len(), 1);
    assert!(sim.walking_state.peds.is_empty());

    sim.step(&map, &mut script);
    assert_eq!(sim.time(), Tick(3));
    assert_eq!(sim.driving_state.cars.len(), 1);
    // The parking subsystem does not change with time.
    assert_eq!(sim.parking_state.num_parked, 1);
    assert_eq!(sim.total_cars(), 3);
    // The movement saw the time after it moved on, and the agents.
    assert_eq!(script.seen, vec![(Tick(1), 2, 1), (Tick(2), 2, 1), (Tick(3), 1, 0)]);
}

#[test]
fn fast_forward_runs_to_the_end_within_the_budget() {
    let map = street();
    let mut sim = Sim::new(&map, 3);
    let hour = Duration::from_secs(3600);
    assert_eq!(sim.time_limited_step(&map, &mut Standstill {}, 25, 10, &hour), 25);
    assert_eq!(sim.time(), Tick(25));
    assert_eq!(sim.time_limited_step(&map, &mut Standstill {}, 0, 10, &hour), 0);
    assert_eq!(sim.time(), Tick(25));
    assert_eq!(sim.time_limited_step(&map, &mut Standstill {}, 30, 10, &hour), 30);
    assert_eq!(sim.time(), Tick(55));
}

#[test]
fn fast_forward_stops_between_steps_when_the_budget_is_spent() {
    let map = street();
    let mut sim = Sim::new(&map, 3);
    // With no budget the clock is over it at the first look, which comes
    // after ten ticks.
    let none = Duration::from_secs(0);
    assert_eq!(sim.time_limited_step(&map, &mut Standstill {}, 25, 10, &none), 10);
    assert_eq!(sim.time(), Tick(10));
    assert_eq!(sim.time_limited_step(&map, &mut Standstill {}, 25, 7, &none), 7);
    assert_eq!(sim.time(), Tick(17));
    // Less is asked for than the clock is looked at.
    assert_eq!(sim.time_limited_step(&map, &mut Standstill {}, 3, 10, &none), 3);
    assert_eq!(sim.time(), Tick(20));
}

#[test]
fn fast_forward_goes_on_while_time_and_budget_last() {
    assert!(keep_stepping(Tick(1), Tick(2), false));
    assert!(!keep_stepping(Tick(1), Tick(2), true));
    assert!(!keep_stepping(Tick(2), Tick(2), false));
    assert!(!keep_stepping(Tick(3), Tick(2), false));
}

#[test]
fn editing_a_lane_moves_it_between_the_subsystems() {
    let mut map = street();
    let mut sim = Sim::new(&map, 3);
    // The parking lane becomes a driving lane.
    map.lanes[1].lane_type = LaneType::Driving;
    sim.edit_lane_type(LaneID(1), LaneType::Parking, &map);
    assert_eq!(sim.driving_state.lanes.ids, vec![0, 1]);
    assert!(sim.parking_state.lanes[1].is_empty());
    // Telling it twice changes nothing.
    sim.edit_lane_type(LaneID(1), LaneType::Parking, &map);
    assert_eq!(sim.driving_state.lanes.ids, vec![0, 1]);
    // The sidewalk becomes a parking lane of 5000 cm: six spots.
    map.lanes[2].lane_type = LaneType::Parking;
    sim.edit_lane_type(LaneID(2), LaneType::Sidewalk, &map);
    assert!(sim.walking_state.lanes.ids.is_empty());
    assert_eq!(sim.parking_state.lanes[2].len(), 6);
    assert_eq!(sim.get_free_spots(LaneID(2)).len(), 6);
    // The driving lane becomes a biking lane, which nobody tracks.
    map.lanes[0].lane_type = LaneType::Biking;
    sim.edit_lane_type(LaneID(0), LaneType::Driving, &map);
    assert_eq!(sim.driving_state.lanes.ids, vec![1]);
    // A lane that was never tracked can be taken away.
    map.lanes[3].lane_type = LaneType::Sidewalk;
    sim.edit_lane_type(LaneID(3), LaneType::Driving, &map);
    assert_eq!(sim.driving_state.lanes.ids, vec![1]);
    assert_eq!(sim.walking_state.lanes.ids, vec![3]);
}

#[test]
fn a_parking_lane_with_a_car_on_it_keeps_its_spots() {
    let mut map = street();
    let mut sim = Sim::new(&map, 3);
    sim.seed_parked_car(car_spec(480), ParkingSpot { lane: LaneID(1), idx: 0 }, None);
    map.lanes[1].lane_type = LaneType::Biking;
    sim.edit_lane_type(LaneID(1), LaneType::Parking, &map);
    assert_eq!(sim.parking_state.lanes[1].len(), 2);
    assert_eq!(sim.parking_state.num_parked, 1);
    assert_eq!(sim.get_free_spots(LaneID(1)), vec![ParkingSpot { lane: LaneID(1), idx: 1 }]);
}

#[test]
fn turns_go_to_walking_or_to_driving() {
    let map = street();
    let mut sim = Sim::new(&map, 3);
    let crossing = Turn { id: TurnID(8), between_sidewalks: true };
    let left = Turn { id: TurnID(9), between_sidewalks: false };
    sim.edit_add_turn(&crossing, &map);
    sim.edit_add_turn(&left, &map);
    sim.edit_add_turn(&left, &map);
    assert_eq!(sim.walking_state.turns.ids, vec![8]);
    assert_eq!(sim.driving_state.turns.ids, vec![9]);
    // A turn that was never put on can be taken off.
    sim.edit_remove_turn(&Turn { id: TurnID(8), between_sidewalks: false });
    assert_eq!(sim.walking_state.turns.ids, vec![8]);
    assert_eq!(sim.driving_state.turns.ids, vec![9]);
    sim.edit_remove_turn(&crossing);
    sim.edit_remove_turn(&left);
    assert!(sim.walking_state.turns.ids.is_empty());
    assert!(sim.driving_state.turns.ids.is_empty());
}

#[test]
fn the_mark_of_the_car_to_look_at_moves() {
    let map = street();
    let mut sim = Sim::new(&map, 3);
    for _ in 0..3 {
        sim.schedule_trip(Tick(0), appearing(0, 0, 500));
    }
    sim.spawn_all_trips(&map);
    let marks = |sim: &Sim| sim.driving_state.cars.iter().map(|c| c.debug).collect::<Vec<_>>();
    sim.toggle_debug(CarID(1));
    assert_eq!(sim.debug, Some(CarID(1)));
    assert_eq!(marks(&sim), vec![false, true, false]);
    sim.toggle_debug(CarID(2));
    assert_eq!(sim.debug, Some(CarID(2)));
    assert_eq!(marks(&sim), vec![false, false, true]);
    sim.toggle_debug(CarID(2));
    assert_eq!(marks(&sim), vec![false, false, false]);
    assert_eq!(sim.debug, Some(CarID(2)));
    // The car that had the mark may have left the road.
    sim.toggle_debug(CarID(2));
    let mut script =
        Script { cars: vec![vec![CarEvent::Vanished(CarID(2))]], peds: vec![], seen: vec![] };
    sim.step(&map, &mut script);
    sim.toggle_debug(CarID(0));
    assert_eq!(marks(&sim), vec![true, false]);
}

#[test]
fn drawing_asks_the_subsystem_of_the_lane() {
    let map = street();
    let mut sim = Sim::new(&map, 3);
    sim.schedule_trip(Tick(0), appearing(0, 5, 500));
    sim.schedule_trip(Tick(0), appearing(3, 6, 500));
    sim.schedule_trip(Tick(0), walking());
    sim.spawn_all_trips(&map);
    sim.seed_parked_car(car_spec(480), ParkingSpot { lane: LaneID(1), idx: 1 }, Some(BuildingID(0)));
    let on_road = sim.get_draw_cars_on_lane(LaneID(0), &map);
    assert_eq!(on_road, vec![DrawCar::Driving(sim.driving_state.cars[0])]);
    let parked = sim.get_draw_cars_on_lane(LaneID(1), &map);
    assert_eq!(parked, vec![DrawCar::Parked(sim.get_parked_cars_by_owner(BuildingID(0))[0])]);
    // A car on a biking lane is not drawn with the lane, nor is anything
    // on a sidewalk.
    assert!(sim.get_draw_cars_on_lane(LaneID(3), &map).is_empty());
    assert!(sim.get_draw_cars_on_lane(LaneID(2), &map).is_empty());
    assert!(sim.get_draw_cars_on_turn(TurnID(0), &map).is_empty());
    assert_eq!(sim.get_draw_peds_on_lane(LaneID(2), &map), sim.walking_state.peds);
    assert!(sim.get_draw_peds_on_lane(LaneID(0), &map).is_empty());
    assert!(sim.get_draw_peds_on_turn(TurnID(0), &map).is_empty());
    let turn = On::Turn(TurnID(0));
    let mut script = Script {
        cars: vec![vec![CarEvent::Moved(CarID(1), turn, Distance(2))]],
        peds: vec![vec![PedEvent::Moved(PedestrianID(0), turn, Distance(1))]],
        seen: vec![],
    };
    sim.step(&map, &mut script);
    assert_eq!(
        sim.get_draw_cars_on_turn(TurnID(0), &map),
        vec![DrawCar::Driving(sim.driving_state.cars[1])]
    );
    assert_eq!(sim.get_draw_peds_on_turn(TurnID(0), &map), sim.walking_state.peds);
    assert!(sim.get_draw_peds_on_lane(LaneID(2), &map).is_empty());
}

fn busy_street() -> Sim {
    let map = street();
    let mut sim = Sim::new(&map, 3);
    sim.schedule_trip(Tick(0), appearing(0, 0, 500));
    sim.schedule_trip(Tick(0), appearing(0, 600, 500));
    sim.schedule_trip(Tick(0), walking());
    sim.spawn_all_trips(&map);
    sim
}

fn three_ticks() -> Script {
    let turn = On::Turn(TurnID(4));
    Script {
        cars: vec![
            vec![CarEvent::Blocked(CarID(0), turn), CarEvent::Moved(CarID(1), turn, Distance(9))],
            vec![CarEvent::Moved(CarID(0), turn, Distance(1))],
            vec![CarEvent::Vanished(CarID(1))],
        ],
        peds: vec![
            vec![PedEvent::Moved(PedestrianID(0), turn, Distance(3))],
            vec![],
            vec![PedEvent::Arrived(PedestrianID(0))],
        ],
        seen: vec![],
    }
}

#[test]
fn a_fast_forward_is_its_steps_one_after_the_other() {
    let map = street();
    let mut by_steps = busy_street();
    let mut script = three_ticks();
    for _ in 0..3 {
        by_steps.step(&map, &mut script);
    }
    let mut forwarded = busy_street();
    let mut script = three_ticks();
    let hour = Duration::from_secs(3600);
    assert_eq!(forwarded.time_limited_step(&map, &mut script, 3, 2, &hour), 3);
    // The movement was asked once for each tick, on the state that the
    // tick before it left.
    assert_eq!(script.seen, vec![(Tick(1), 2, 1), (Tick(2), 2, 1), (Tick(3), 2, 1)]);
    assert_eq!(forwarded.time(), Tick(3));
    assert_eq!(forwarded.driving_state.cars, by_steps.driving_state.cars);
    assert_eq!(forwarded.driving_state.cars.len(), 1);
    assert_eq!(forwarded.driving_state.stepped_at, Tick(3));
    assert_eq!(forwarded.walking_state.peds, by_steps.walking_state.peds);
    assert!(forwarded.walking_state.peds.is_empty());
    assert!(forwarded.is_valid());
}

#[test]
fn a_simulation_holds_the_stream_it_was_given() {
    let map = street();
    let mut given = Sim::with_rng(&map, XorShiftRng::from_seed([9; 16]));
    assert_eq!(given.rng.next_u64(), XorShiftRng::from_seed([9; 16]).next_u64());
    // A seed stands for sixteen copies of itself.
    let mut seeded = Sim::new(&map, 9);
    let mut same = Sim::new(&map, 9);
    let mut other = Sim::new(&map, 10);
    let first = seeded.rng.next_u64();
    assert_eq!(first, same.rng.next_u64());
    assert_eq!(first, XorShiftRng::from_seed([9; 16]).next_u64());
    assert_ne!(first, other.rng.next_u64());
}
