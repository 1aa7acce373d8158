use traffic_sim::ids::{BuildingID, CarID, IntersectionID, LaneID, RoadID};
use traffic_sim::idset::IdSet;
use traffic_sim::map::{Intersection, Lane, LaneType, Road, RoadMap};
use traffic_sim::parking::ParkingSimState;
use traffic_sim::trips::{ParkedCar, ParkingSpot, Vehicle, VehicleSpec, VehicleType};
use traffic_sim::units::Distance;

fn parking_lanes(lengths: &[u64]) -> RoadMap {
    let map = RoadMap {
        roads: vec![Road {
            id: RoadID(0),
            children_forwards: (0..lengths.len()).map(LaneID).collect(),
            children_backwards: vec![],
            next_roads: vec![],
            supports_bikes: false,
        }],
        lanes: lengths
            .iter()
            .enumerate()
            .map(|(l, length)| Lane {
                id: LaneID(l),
                lane_type: LaneType::Parking,
                parent: RoadID(0),
                length: Distance(*length),
            })
            .collect(),
        intersections: vec![Intersection {
            id: IntersectionID(0),
            incoming_lanes: vec![],
            outgoing_lanes: vec![],
        }],
        buildings: vec![],
        transit_rides: vec![],
    };
    assert!(map.check());
    map
}

fn car(id: usize, lane: usize, idx: usize, owner: Option<usize>) -> ParkedCar {
    ParkedCar {
        vehicle: VehicleSpec {
            vehicle_type: VehicleType::Car,
            length: Distance(500 + id as u64),
            max_speed: None,
        }
        .make(CarID(id)),
        spot: ParkingSpot { lane: LaneID(lane), idx },
        owner: owner.map(BuildingID),
    }
}

#[test]
fn a_vehicle_gets_its_identifier() {
    let spec =
        VehicleSpec { vehicle_type: VehicleType::Bus, length: Distance(1250), max_speed: None };
    assert_eq!(
        spec.make(CarID(8)),
        Vehicle {
            id: CarID(8),
            vehicle_type: VehicleType::Bus,
            length: Distance(1250),
            max_speed: None,
        }
    );
}

#[test]
fn parking_and_looking_up() {
    let map = parking_lanes(&[1600, 2400]);
    let mut p = ParkingSimState::new(&map);
    assert_eq!(p.total_count(), 0);
    p.add_parked_car(car(0, 1, 2, Some(4)));
    p.add_parked_car(car(1, 0, 1, Some(4)));
    p.add_parked_car(car(2, 1, 0, Some(5)));
    p.add_parked_car(car(3, 0, 0, None));
    assert_eq!(p.total_count(), 4);
    assert!(!p.is_free(ParkingSpot { lane: LaneID(1), idx: 2 }));
    assert!(p.is_free(ParkingSpot { lane: LaneID(1), idx: 1 }));
    // Spots that are not there are not free.
    assert!(!p.is_free(ParkingSpot { lane: LaneID(1), idx: 3 }));
    assert!(!p.is_free(ParkingSpot { lane: LaneID(2), idx: 0 }));
    assert_eq!(p.get_free_spots(LaneID(0)), vec![]);
    assert_eq!(p.get_free_spots(LaneID(1)), vec![ParkingSpot { lane: LaneID(1), idx: 1 }]);
    // Lane by lane, spot by spot.
    assert_eq!(
        p.get_parked_cars_by_owner(BuildingID(4)),
        vec![car(1, 0, 1, Some(4)), car(0, 1, 2, Some(4))]
    );
    assert_eq!(p.get_parked_cars_by_owner(BuildingID(5)), vec![car(2, 1, 0, Some(5))]);
    assert_eq!(p.get_parked_cars_by_owner(BuildingID(6)), vec![]);
}

#[test]
fn lanes_come_and_go() {
    let map = parking_lanes(&[1600, 2400]);
    let mut p = ParkingSimState::new(&map);
    p.add_parked_car(car(0, 1, 2, None));
    assert!(p.is_lane_empty(LaneID(0)));
    assert!(!p.is_lane_empty(LaneID(1)));
    assert!(p.is_lane_empty(LaneID(9)));
    p.edit_remove_lane(LaneID(0));
    p.edit_remove_lane(LaneID(1));
    p.edit_remove_lane(LaneID(9));
    assert_eq!(p.lanes[0].len(), 0);
    assert_eq!(p.lanes[1].len(), 3);
    assert_eq!(p.total_count(), 1);
    let longer = Lane {
        id: LaneID(0),
        lane_type: LaneType::Parking,
        parent: RoadID(0),
        length: Distance(4000),
    };
    p.edit_add_lane(&longer);
    assert_eq!(p.lanes[0].len(), 5);
    // Adding a lane that has spots changes nothing.
    p.edit_add_lane(&Lane { length: Distance(800), ..longer });
    assert_eq!(p.lanes[0].len(), 5);
    p.edit_add_lane(&Lane { id: LaneID(1), length: Distance(800), ..longer });
    assert_eq!(p.lanes[1].len(), 3);
    // A lane that is not a parking lane gets no spots.
    p.edit_remove_lane(LaneID(0));
    p.edit_add_lane(&Lane { lane_type: LaneType::Driving, ..longer });
    assert_eq!(p.lanes[0].len(), 0);
}

#[test]
fn a_set_of_identifiers() {
    let mut s = IdSet::new();
    assert!(!s.contains(3));
    s.insert(3);
    s.insert(1);
    s.insert(3);
    s.insert(2);
    assert_eq!(s.ids, vec![3, 1, 2]);
    assert_eq!(s.len(), 3);
    assert!(s.contains(1));
    assert_eq!(s.position(2), Some(2));
    assert_eq!(s.position(4), None);
    s.remove(1);
    s.remove(7);
    assert_eq!(s.ids, vec![3, 2]);
    assert!(!s.contains(1));
    s.remove(3);
    s.remove(2);
    assert_eq!(s.len(), 0);
}
