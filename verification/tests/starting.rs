use rand::SeedableRng;
use rand_xorshift::XorShiftRng;
use std::time::Duration;
use traffic_sim::driving::{CarEvent, DrivingCar, On};
use traffic_sim::ids::{BuildingID, CarID, IntersectionID, LaneID, PedestrianID, RoadID};
use traffic_sim::map::{Building, Intersection, Lane, LaneType, Position, Road, RoadMap};
use traffic_sim::sim::{CarState, Movement, Sim, Standstill};
use traffic_sim::starting::choose_different;
use traffic_sim::trips::{ParkingSpot, VehicleSpec, VehicleType};
use traffic_sim::units::{Distance, Probability, Tick};
use traffic_sim::walking::{PedEvent, Pedestrian};

fn lane(id: usize, lane_type: LaneType, parent: usize, length: u64) -> Lane {
    Lane { id: LaneID(id), lane_type, parent: RoadID(parent), length: Distance(length) }
}

fn ids(v: &[usize]) -> Vec<LaneID> {
    v.iter().map(|l| LaneID(*l)).collect()
}

/// Road 0: forwards a driving lane 0, a parking lane 1 (two spots), a
/// second parking lane 2 (one spot) and a sidewalk 3; backwards a driving
/// lane 4 and a sidewalk 5. Road 1: a parking lane 6 alone, forwards; a
/// driving lane 7 alone, backwards; a biking lane 8.
fn streets() -> RoadMap {
    let map = RoadMap {
        roads: vec![
            Road {
                id: RoadID(0),
                children_forwards: ids(&[0, 1, 2, 3]),
                children_backwards: ids(&[4, 5]),
                next_roads: vec![],
                supports_bikes: false,
            },
            Road {
                id: RoadID(1),
                children_forwards: ids(&[6, 8]),
                children_backwards: ids(&[7]),
                next_roads: vec![],
                supports_bikes: false,
            },
        ],
        lanes: vec![
            lane(0, LaneType::Driving, 0, 5000),
            lane(1, LaneType::Parking, 0, 1600),
            lane(2, LaneType::Parking, 0, 800),
            lane(3, LaneType::Sidewalk, 0, 5000),
            lane(4, LaneType::Driving, 0, 5000),
            lane(5, LaneType::Sidewalk, 0, 5000),
            lane(6, LaneType::Parking, 1, 800),
            lane(7, LaneType::Driving, 1, 5000),
            lane(8, LaneType::Biking, 1, 5000),
        ],
        intersections: vec![Intersection {
            id: IntersectionID(0),
            incoming_lanes: vec![],
            outgoing_lanes: vec![],
        }],
        buildings: vec![Building {
            id: BuildingID(0),
            front_path: Position { lane: LaneID(3), dist_along: Distance(0) },
        }],
        transit_rides: vec![],
    };
    assert!(map.check());
    map
}

fn car_spec(length: u64) -> VehicleSpec {
    VehicleSpec { vehicle_type: VehicleType::Car, length: Distance(length), max_speed: None }
}

fn spot(lane: usize, idx: usize) -> ParkingSpot {
    ParkingSpot { lane: LaneID(lane), idx }
}

/// A movement with room or without, in which walks are found or not.
struct Yard {
    room: bool,
    walks: bool,
    asked: Vec<(LaneID, usize)>,
}

impl Movement for Yard {
    fn step_cars(&mut self, _: Tick, _: &RoadMap, _: &Vec<DrivingCar>) -> Vec<CarEvent> {
        vec![]
    }

    fn step_peds(&mut self, _: Tick, _: &RoadMap, _: &Vec<Pedestrian>) -> Vec<PedEvent> {
        vec![]
    }

    fn has_room(&mut self, _: Tick, _: &RoadMap, lane: LaneID, cars: &Vec<DrivingCar>) -> bool {
        self.asked.push((lane, cars.len()));
        self.room
    }

    fn finds_walk(&mut self, _: &RoadMap, _: LaneID) -> bool {
        self.walks
    }
}

fn yard(room: bool, walks: bool) -> Yard {
    Yard { room, walks, asked: vec![] }
}

#[test]
fn lanes_beside_a_lane() {
    let map = streets();
    // The first parking lane in the direction of the driving lane.
    assert_eq!(map.find_parking_lane(LaneID(0)), Some(LaneID(1)));
    assert_eq!(map.find_driving_lane(LaneID(1)), Some(LaneID(0)));
    assert_eq!(map.find_driving_lane(LaneID(2)), Some(LaneID(0)));
    // No parking lane runs backwards on road 0.
    assert_eq!(map.find_parking_lane(LaneID(4)), None);
    // On road 1 the parking lane and the driving lane run against each
    // other.
    assert_eq!(map.find_driving_lane(LaneID(6)), None);
    assert_eq!(map.find_parking_lane(LaneID(7)), None);
    assert_eq!(map.find_sibling(LaneID(0), LaneType::Sidewalk), Some(LaneID(3)));
    assert_eq!(map.find_sibling(LaneID(5), LaneType::Sidewalk), Some(LaneID(5)));
    assert_eq!(map.find_sibling(LaneID(5), LaneType::Biking), None);
}

#[test]
fn the_last_parked_car_drives_off() {
    let map = streets();
    let mut sim = Sim::new(&map, 1);
    sim.seed_parked_car(car_spec(500), spot(1, 1), Some(BuildingID(0)));
    sim.seed_parked_car(car_spec(510), spot(1, 0), None);
    sim.seed_parked_car(car_spec(520), spot(2, 0), None);
    assert_eq!(sim.parking_state.get_last_parked_car(LaneID(1)).unwrap().vehicle.id, CarID(0));
    let mut m = yard(true, true);
    // From the driving lane: the car in the last taken spot of lane 1.
    assert!(sim.start_agent(&map, LaneID(0), &mut m));
    assert_eq!(m.asked, vec![(LaneID(0), 0)]);
    assert_eq!(sim.driving_state.cars.len(), 1);
    let car = sim.driving_state.cars[0];
    assert_eq!(car.vehicle.id, CarID(0));
    assert_eq!(car.vehicle.length, Distance(500));
    assert_eq!((car.on, car.front, car.waiting_for, car.debug), (On::Lane(LaneID(0)), Distance(0), None, false));
    assert_eq!(sim.get_car_state(CarID(0)), CarState::Moving);
    assert_eq!(sim.parking_state.num_parked, 2);
    assert!(sim.parking_state.is_free(spot(1, 1)));
    assert!(!sim.parking_state.is_free(spot(1, 0)));
    // From the second parking lane: its own car, onto driving lane 0.
    assert!(sim.start_agent(&map, LaneID(2), &mut m));
    assert_eq!(m.asked[1], (LaneID(0), 1));
    assert_eq!(sim.driving_state.cars[1].vehicle.id, CarID(2));
    assert_eq!(sim.driving_state.cars[1].on, On::Lane(LaneID(0)));
    assert!(sim.start_agent(&map, LaneID(1), &mut m));
    assert_eq!(sim.driving_state.cars[2].vehicle.id, CarID(1));
    assert_eq!(sim.parking_state.num_parked, 0);
    // No car is left.
    assert!(!sim.start_agent(&map, LaneID(0), &mut m));
    assert!(!sim.start_agent(&map, LaneID(1), &mut m));
    assert_eq!(sim.driving_state.cars.len(), 3);
    assert_eq!(sim.total_cars(), 3);
}

#[test]
fn without_room_the_car_stays_but_counts_as_started() {
    let map = streets();
    let mut sim = Sim::new(&map, 1);
    sim.seed_parked_car(car_spec(500), spot(1, 0), None);
    let mut m = yard(false, false);
    assert!(sim.start_agent(&map, LaneID(0), &mut m));
    assert_eq!(sim.parking_state.num_parked, 1);
    assert!(sim.driving_state.cars.is_empty());
    assert!(sim.start_agent(&map, LaneID(0), &mut Standstill {}));
    assert_eq!(sim.parking_state.num_parked, 1);
}

#[test]
fn nothing_starts_where_the_lane_beside_is_missing_or_on_a_biking_lane() {
    let map = streets();
    let mut sim = Sim::new(&map, 1);
    sim.seed_parked_car(car_spec(500), spot(6, 0), None);
    sim.seed_parked_car(car_spec(500), spot(1, 0), None);
    let mut m = yard(true, true);
    assert!(!sim.start_agent(&map, LaneID(6), &mut m));
    assert!(!sim.start_agent(&map, LaneID(7), &mut m));
    assert!(!sim.start_agent(&map, LaneID(4), &mut m));
    assert!(!sim.start_agent(&map, LaneID(8), &mut m));
    assert!(m.asked.is_empty());
    assert_eq!(sim.parking_state.num_parked, 2);
    assert!(sim.driving_state.cars.is_empty());
    assert!(sim.walking_state.peds.is_empty());
}

#[test]
fn a_pedestrian_sets_out_if_they_find_a_walk() {
    let map = streets();
    let mut sim = Sim::new(&map, 1);
    assert!(!sim.start_agent(&map, LaneID(3), &mut yard(true, false)));
    assert!(sim.walking_state.peds.is_empty());
    assert!(sim.start_agent(&map, LaneID(3), &mut yard(false, true)));
    assert!(sim.start_agent(&map, LaneID(5), &mut yard(false, true)));
    assert_eq!(
        sim.walking_state.peds,
        vec![
            Pedestrian { id: PedestrianID(0), on: On::Lane(LaneID(3)), dist_along: Distance(0) },
            Pedestrian { id: PedestrianID(1), on: On::Lane(LaneID(5)), dist_along: Distance(0) },
        ]
    );
}

#[test]
fn many_parked_cars_start_on_empty_driving_lanes() {
    let map = streets();
    for seed in 0..8 {
        let mut sim = Sim::new(&map, seed);
        sim.seed_parked_car(car_spec(500), spot(1, 0), None);
        sim.seed_parked_car(car_spec(500), spot(1, 1), None);
        sim.seed_parked_car(car_spec(500), spot(6, 0), None);
        assert_eq!(sim.get_empty_lanes(&map), ids(&[0, 4, 7]));
        let mut m = yard(true, true);
        // Three lanes are empty; a car is there to start beside lane 0
        // only.
        assert_eq!(sim.start_many_parked_cars(&map, 5, &mut m), 1);
        assert_eq!(sim.driving_state.cars.len(), 1);
        assert_eq!(sim.driving_state.cars[0].on, On::Lane(LaneID(0)));
        assert_eq!(sim.driving_state.cars[0].vehicle.id, CarID(1));
        assert_eq!(sim.parking_state.num_parked, 2);
        // Lane 0 is taken now.
        assert_eq!(sim.get_empty_lanes(&map), ids(&[4, 7]));
        assert_eq!(sim.start_many_parked_cars(&map, 5, &mut m), 0);
        assert_eq!(sim.start_many_parked_cars(&map, 0, &mut m), 0);
    }
}

#[test]
fn only_as_many_lanes_are_tried_as_cars_are_asked_for() {
    let map = streets();
    let mut tried_lane_0 = 0;
    for seed in (0..=255).step_by(6) {
        let mut sim = Sim::new(&map, seed);
        sim.seed_parked_car(car_spec(500), spot(1, 0), None);
        let started = sim.start_many_parked_cars(&map, 1, &mut yard(true, true));
        assert!(started <= 1);
        assert_eq!(started, sim.driving_state.cars.len());
        tried_lane_0 += started;
    }
    // The lanes are shuffled: lane 0 comes first sometimes, not always.
    assert!(0 < tried_lane_0 && tried_lane_0 < 43);
}

#[test]
fn spots_fill_up_with_a_chance() {
    let map = streets();
    let mut sim = Sim::new(&map, 1);
    sim.seed_parked_car(car_spec(500), spot(1, 1), Some(BuildingID(0)));
    sim.seed_parked_cars(Probability::never());
    assert_eq!(sim.parking_state.num_parked, 1);
    assert_eq!(sim.total_cars(), 1);
    sim.seed_parked_cars(Probability::always());
    assert_eq!(sim.parking_state.num_parked, 4);
    assert_eq!(sim.total_cars(), 4);
    for (l, i, id) in [(1, 0, 1), (1, 1, 0), (2, 0, 2), (6, 0, 3)] {
        let cars = sim.get_draw_cars_on_lane(LaneID(l), &map);
        match cars[i] {
            traffic_sim::sim::DrawCar::Parked(c) => {
                assert_eq!(c.spot, spot(l, i));
                assert_eq!(c.vehicle.id, CarID(id));
                assert_eq!(c.owner, if id == 0 { Some(BuildingID(0)) } else { None });
                assert_eq!(c.vehicle.vehicle_type, VehicleType::Car);
                assert!(450 <= c.vehicle.length.0 && c.vehicle.length.0 < 650);
            }
            other => panic!("unexpected {:?}", other),
        }
    }
    // With an even chance some spots fill and some stay free.
    let mut filled = 0;
    for seed in 0..20 {
        let mut sim = Sim::new(&map, seed);
        sim.seed_parked_cars(Probability { numerator: 1, denominator: 2 });
        assert_eq!(sim.total_cars(), sim.parking_state.num_parked);
        filled += sim.parking_state.num_parked;
    }
    assert!(10 < filled && filled < 70);
}

#[test]
fn pedestrians_go_from_one_sidewalk_to_another() {
    let map = streets();
    let mut sim = Sim::new(&map, 5);
    assert_eq!(Sim::all_sidewalks(&map), ids(&[3, 5]));
    let requests = sim.plan_pedestrians(&map, 30);
    assert_eq!(requests.len(), 30);
    let mut from_3 = 0;
    for (start, goal) in requests.iter() {
        assert!(start.0 == 3 || start.0 == 5);
        assert!(goal.0 == 3 || goal.0 == 5);
        assert_ne!(start, goal);
        if start.0 == 3 {
            from_3 += 1;
        }
    }
    assert!(0 < from_3 && from_3 < 30);
    assert!(sim.plan_pedestrians(&map, 0).is_empty());
    assert!(sim.walking_state.peds.is_empty());
}

#[test]
fn a_pedestrian_comes_for_each_path_that_was_found() {
    let map = streets();
    let mut sim = Sim::new(&map, 5);
    let paths = vec![
        Some(ids(&[3, 5])),
        None,
        Some(ids(&[])),
        Some(ids(&[5])),
        None,
        Some(ids(&[5, 3, 5])),
    ];
    assert_eq!(sim.seed_pedestrians(&map, &paths), 3);
    assert_eq!(
        sim.walking_state.peds,
        vec![
            Pedestrian { id: PedestrianID(0), on: On::Lane(LaneID(3)), dist_along: Distance(0) },
            Pedestrian { id: PedestrianID(1), on: On::Lane(LaneID(5)), dist_along: Distance(0) },
            Pedestrian { id: PedestrianID(2), on: On::Lane(LaneID(5)), dist_along: Distance(0) },
        ]
    );
    assert_eq!(sim.seed_pedestrians(&map, &vec![]), 0);
    assert_eq!(sim.seed_pedestrians(&map, &vec![Some(ids(&[3]))]), 1);
    assert_eq!(sim.walking_state.peds[3].id, PedestrianID(3));
}

#[test]
fn another_choice() {
    let mut rng = XorShiftRng::from_seed([3; 16]);
    let choices = ids(&[7, 8, 7, 9]);
    let mut seen = std::collections::BTreeSet::new();
    for _ in 0..40 {
        let c = choose_different(&mut rng, &choices, LaneID(7));
        assert!(c.0 == 8 || c.0 == 9);
        seen.insert(c.0);
    }
    assert_eq!(seen.len(), 2);
    assert_eq!(choose_different(&mut rng, &choices, LaneID(1)).0 >= 7, true);
    assert_eq!(choose_different(&mut rng, &ids(&[4, 5]), LaneID(4)), LaneID(5));
}

#[test]
fn a_benchmark_counts_the_ticks_since_it_began() {
    let map = streets();
    let mut sim = Sim::new(&map, 5);
    let mut b = sim.start_benchmark();
    assert_eq!(b.last_sim_time, Tick(0));
    assert!(b.has_real_time_passed(&Duration::from_secs(0)));
    assert!(!b.has_real_time_passed(&Duration::from_secs(3600)));
    let hour = Duration::from_secs(3600);
    sim.time_limited_step(&map, &mut Standstill {}, 12, 5, &hour);
    let (real, ticks) = sim.measure_ticks(&mut b);
    assert_eq!(ticks, 12);
    assert!(real < hour);
    assert_eq!(b.last_sim_time, Tick(12));
    let (_, ticks) = sim.measure_ticks(&mut b);
    assert_eq!(ticks, 0);
}

#[test]
fn lanes_are_tried_in_the_order_given() {
    let map = streets();
    let mut sim = Sim::new(&map, 1);
    sim.seed_parked_car(car_spec(500), spot(1, 0), None);
    sim.seed_parked_car(car_spec(510), spot(1, 1), None);
    sim.seed_parked_car(car_spec(520), spot(6, 0), None);
    let mut m = yard(true, true);
    // Lane 4 has no parking lane beside it, lane 8 is a biking lane;
    // lane 0 is tried twice, and a car is there each time; a pedestrian
    // sets out on lane 3. Lane 7 is not reached.
    let lanes = ids(&[4, 0, 8, 0, 3, 7]);
    assert_eq!(sim.start_cars_on(&map, &lanes, 5, &mut m), 3);
    assert_eq!(m.asked, vec![(LaneID(0), 0), (LaneID(0), 1)]);
    let drove: Vec<usize> = sim.driving_state.cars.iter().map(|c| c.vehicle.id.0).collect();
    assert_eq!(drove, vec![1, 0]);
    assert_eq!(sim.parking_state.num_parked, 1);
    assert_eq!(sim.walking_state.peds.len(), 1);
    // Nothing is tried.
    assert_eq!(sim.start_cars_on(&map, &lanes, 0, &mut m), 0);
    assert_eq!(sim.start_cars_on(&map, &vec![], 0, &mut m), 0);
    assert_eq!(sim.driving_state.cars.len(), 2);
    // Without room the car stays, and still counts.
    let mut full = yard(false, false);
    assert_eq!(sim.start_cars_on(&map, &ids(&[3, 6, 7, 0]), 4, &mut full), 0);
    sim.seed_parked_car(car_spec(530), spot(2, 0), None);
    assert_eq!(sim.start_cars_on(&map, &ids(&[2, 0]), 2, &mut full), 1);
    assert_eq!(sim.parking_state.num_parked, 2);
}

#[test]
fn the_answer_of_the_movement_decides() {
    let map = streets();
    let mut sim = Sim::new(&map, 1);
    sim.seed_parked_car(car_spec(500), spot(1, 0), None);
    // A car is there to start on lane 0, from either of the two lanes.
    assert_eq!(sim.start_lane(&map, LaneID(0)), Some(LaneID(0)));
    assert_eq!(sim.start_lane(&map, LaneID(1)), Some(LaneID(0)));
    // Lane 2 holds no car; lanes 6 and 7 have no lane beside them; nothing
    // drives on a sidewalk or a biking lane.
    assert_eq!(sim.start_lane(&map, LaneID(2)), None);
    assert_eq!(sim.start_lane(&map, LaneID(6)), None);
    assert_eq!(sim.start_lane(&map, LaneID(7)), None);
    assert_eq!(sim.start_lane(&map, LaneID(3)), None);
    assert_eq!(sim.start_lane(&map, LaneID(8)), None);
    // Without room the car stays, and still counts as started.
    assert!(sim.start_agent_given(&map, LaneID(0), false));
    assert_eq!(sim.driving_state.cars.len(), 0);
    assert_eq!(sim.parking_state.total_count(), 1);
    // With room it drives off.
    assert!(sim.start_agent_given(&map, LaneID(1), true));
    assert_eq!(sim.driving_state.cars.len(), 1);
    assert_eq!(sim.driving_state.cars[0].on, On::Lane(LaneID(0)));
    assert_eq!(sim.parking_state.total_count(), 0);
    // No car is left: nothing starts, whatever the answer.
    assert!(!sim.start_agent_given(&map, LaneID(0), true));
    // On a sidewalk the answer is whether the pedestrian has a walk.
    assert!(!sim.start_agent_given(&map, LaneID(3), false));
    assert_eq!(sim.walking_state.peds.len(), 0);
    assert!(sim.start_agent_given(&map, LaneID(3), true));
    assert_eq!(sim.walking_state.peds.len(), 1);
    assert_eq!(sim.walking_state.peds[0].on, On::Lane(LaneID(3)));
    // Nothing ever starts on a biking lane.
    assert!(!sim.start_agent_given(&map, LaneID(8), true));
}

#[test]
fn the_movement_is_asked_only_where_something_can_start() {
    let map = streets();
    let mut sim = Sim::new(&map, 1);
    let mut m = yard(true, true);
    // No car is parked: the movement is not asked for room.
    assert!(!sim.start_agent(&map, LaneID(0), &mut m));
    assert!(m.asked.is_empty());
    sim.seed_parked_car(car_spec(500), spot(1, 0), None);
    assert!(sim.start_agent(&map, LaneID(1), &mut m));
    assert_eq!(m.asked, vec![(LaneID(0), 0)]);
}
