use traffic_sim::driving::{DrivingCar, On};
use traffic_sim::ids::{BuildingID, CarID, IntersectionID, LaneID, PedestrianID, RoadID};
use traffic_sim::map::{Building, Intersection, Lane, LaneType, Position, Road, RoadMap};
use traffic_sim::sim::Sim;
use traffic_sim::trips::{ParkingSpot, Vehicle, VehicleSpec, VehicleType};
use traffic_sim::units::Distance;
use traffic_sim::valid::ids_distinct;
use traffic_sim::walking::Pedestrian;

/// One road: a driving lane 0, a parking lane 1 with three spots, and a
/// sidewalk 2.
fn one_road() -> RoadMap {
    let lane = |id: usize, lane_type: LaneType, length: u64| Lane {
        id: LaneID(id),
        lane_type,
        parent: RoadID(0),
        length: Distance(length),
    };
    let map = RoadMap {
        roads: vec![Road {
            id: RoadID(0),
            children_forwards: vec![LaneID(0), LaneID(1), LaneID(2)],
            children_backwards: vec![],
            next_roads: vec![],
            supports_bikes: false,
        }],
        lanes: vec![
            lane(0, LaneType::Driving, 5000),
            lane(1, LaneType::Parking, 2400),
            lane(2, LaneType::Sidewalk, 5000),
        ],
        intersections: vec![Intersection {
            id: IntersectionID(0),
            incoming_lanes: vec![],
            outgoing_lanes: vec![],
        }],
        buildings: vec![Building {
            id: BuildingID(0),
            front_path: Position { lane: LaneID(2), dist_along: Distance(0) },
        }],
        transit_rides: vec![],
    };
    assert!(map.check());
    map
}

fn with_two_cars() -> Sim {
    let map = one_road();
    let mut sim = Sim::new(&map, 1);
    let car = VehicleSpec { vehicle_type: VehicleType::Car, length: Distance(500), max_speed: None };
    sim.seed_parked_car(car, ParkingSpot { lane: LaneID(1), idx: 0 }, None);
    sim.seed_parked_car(car, ParkingSpot { lane: LaneID(1), idx: 2 }, Some(BuildingID(0)));
    sim
}

fn on_the_road(id: usize) -> DrivingCar {
    DrivingCar {
        vehicle: Vehicle {
            id: CarID(id),
            vehicle_type: VehicleType::Car,
            length: Distance(500),
            max_speed: None,
        },
        on: On::Lane(LaneID(0)),
        front: Distance(0),
        waiting_for: None,
        debug: false,
    }
}

#[test]
fn numbers_that_differ() {
    assert!(ids_distinct(&vec![]));
    assert!(ids_distinct(&vec![4, 2, 9]));
    assert!(!ids_distinct(&vec![4, 2, 4]));
}

#[test]
fn what_the_library_makes_is_well_formed() {
    let map = one_road();
    assert!(Sim::new(&map, 1).is_valid());
    let sim = with_two_cars();
    assert!(sim.is_valid());
    assert!(sim.parking_state.is_valid());
    assert!(sim.driving_state.is_valid());
    assert!(sim.walking_state.is_valid());
}

#[test]
fn a_wrong_count_of_parked_cars_is_found() {
    let mut sim = with_two_cars();
    sim.parking_state.num_parked = 1;
    assert!(!sim.parking_state.is_valid());
    assert!(!sim.is_valid());
    sim.parking_state.num_parked = 3;
    assert!(!sim.is_valid());
    sim.parking_state.num_parked = 2;
    assert!(sim.is_valid());
}

#[test]
fn a_car_that_does_not_know_its_spot_is_found() {
    let mut sim = with_two_cars();
    let moved = sim.parking_state.lanes[1][0].take();
    sim.parking_state.lanes[1][1] = moved;
    assert!(!sim.parking_state.is_valid());
    assert!(!sim.is_valid());
}

#[test]
fn a_car_that_is_parked_twice_is_found() {
    let mut sim = with_two_cars();
    let mut copy = sim.parking_state.lanes[1][0].unwrap();
    copy.spot = ParkingSpot { lane: LaneID(1), idx: 1 };
    sim.parking_state.lanes[1][1] = Some(copy);
    sim.parking_state.num_parked = 3;
    sim.car_id_counter = 3;
    assert!(!sim.parking_state.is_valid());
    assert!(!sim.is_valid());
}

#[test]
fn identifiers_that_were_not_handed_out_are_found() {
    let mut sim = with_two_cars();
    sim.car_id_counter = 1;
    assert!(!sim.is_valid());
    let mut sim = with_two_cars();
    sim.driving_state.cars.push(on_the_road(2));
    assert!(!sim.is_valid());
    sim.car_id_counter = 3;
    assert!(sim.is_valid());
    sim.walking_state.peds.push(Pedestrian {
        id: PedestrianID(0),
        on: On::Lane(LaneID(2)),
        dist_along: Distance(0),
    });
    assert!(!sim.is_valid());
    sim.ped_id_counter = 1;
    assert!(sim.is_valid());
}

#[test]
fn a_car_both_parked_and_on_the_road_is_found() {
    let mut sim = with_two_cars();
    sim.driving_state.cars.push(on_the_road(1));
    assert!(!sim.is_valid());
}

#[test]
fn two_records_of_one_agent_are_found() {
    let mut sim = with_two_cars();
    sim.car_id_counter = 4;
    sim.driving_state.cars.push(on_the_road(3));
    assert!(sim.is_valid());
    sim.driving_state.cars.push(on_the_road(3));
    assert!(!sim.driving_state.is_valid());
    assert!(!sim.is_valid());
    let mut sim = with_two_cars();
    sim.ped_id_counter = 1;
    let walker =
        Pedestrian { id: PedestrianID(0), on: On::Lane(LaneID(2)), dist_along: Distance(0) };
    sim.walking_state.peds.push(walker);
    sim.walking_state.peds.push(walker);
    assert!(!sim.walking_state.is_valid());
    assert!(!sim.is_valid());
}

#[test]
fn a_lane_that_is_listed_twice_is_found() {
    let mut sim = with_two_cars();
    sim.driving_state.lanes.ids.push(0);
    assert!(!sim.driving_state.lanes.is_valid());
    assert!(!sim.is_valid());
}
