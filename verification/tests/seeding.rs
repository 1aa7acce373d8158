use rand::SeedableRng;
use std::collections::{BTreeSet, HashMap};
use rand_xorshift::XorShiftRng;
use traffic_sim::ids::{BuildingID, IntersectionID, LaneID, RoadID};
use traffic_sim::map::{Building, Intersection, Lane, LaneType, Position, Road, RoadMap};
use traffic_sim::random::WeightedUsizeChoice;
use traffic_sim::report::{Note, Timer, Warning};
use traffic_sim::search::{OpenSpots, find_spot_near_building};
use traffic_sim::seeding::{
    build_open_spots, collect_free_spots, place_car, roads_in_order, seed_building,
    seed_on_roads, seed_parked_cars,
};
use traffic_sim::sim::Sim;
use traffic_sim::trips::{ParkingSpot, VehicleType};
use traffic_sim::units::Distance;

fn lane(id: usize, lane_type: LaneType, parent: usize, length: u64) -> Lane {
    Lane { id: LaneID(id), lane_type, parent: RoadID(parent), length: Distance(length) }
}

/// A row of `n` roads, each with a driving lane, a parking lane of the
/// given length and a sidewalk; road `r` meets roads `r - 1` and `r + 1`.
/// Building `b` stands on the sidewalk of road `homes[b]`.
fn row_of_roads(parking_lengths: &[u64], homes: &[usize]) -> RoadMap {
    let n = parking_lengths.len();
    let mut roads = Vec::new();
    let mut lanes = Vec::new();
    for r in 0..n {
        lanes.push(lane(3 * r, LaneType::Driving, r, 10_000));
        lanes.push(lane(3 * r + 1, LaneType::Parking, r, parking_lengths[r]));
        lanes.push(lane(3 * r + 2, LaneType::Sidewalk, r, 10_000));
        let mut next_roads = Vec::new();
        if r > 0 {
            next_roads.push(RoadID(r - 1));
        }
        if r + 1 < n {
            next_roads.push(RoadID(r + 1));
        }
        roads.push(Road {
            id: RoadID(r),
            children_forwards: vec![LaneID(3 * r), LaneID(3 * r + 1)],
            children_backwards: vec![LaneID(3 * r + 2)],
            next_roads,
            supports_bikes: true,
        });
    }
    let buildings = homes
        .iter()
        .enumerate()
        .map(|(b, r)| Building {
            id: BuildingID(b),
            front_path: Position { lane: LaneID(3 * r + 2), dist_along: Distance(500) },
        })
        .collect();
    let intersections = vec![Intersection {
        id: IntersectionID(0),
        incoming_lanes: vec![],
        outgoing_lanes: vec![],
    }];
    let map = RoadMap { roads, lanes, intersections, buildings, transit_rides: vec![] };
    assert!(map.check());
    map
}

/// The set of the roads with the numbers given.
fn set(roads: &[usize]) -> BTreeSet<usize> {
    roads.iter().copied().collect()
}

fn rng(seed: u8) -> XorShiftRng {
    XorShiftRng::from_seed([seed; 16])
}

/// A table with the stack `stacks[r]` for each road `r` that is a member.
fn table(map: &RoadMap, stacks: Vec<Vec<ParkingSpot>>, member: Vec<bool>) -> OpenSpots {
    assert_eq!(stacks.len(), map.roads.len());
    assert_eq!(member.len(), map.roads.len());
    let mut per_road = HashMap::new();
    for (r, stack) in stacks.into_iter().enumerate() {
        if member[r] {
            per_road.insert(r, stack);
        } else {
            assert!(stack.is_empty());
        }
    }
    OpenSpots { per_road, roads: map.roads.len() }
}

/// The stacks of a table, road by road.
fn stacks_of(open: &OpenSpots) -> Vec<Vec<ParkingSpot>> {
    (0..open.roads).map(|r| open.per_road.get(&r).cloned().unwrap_or_default()).collect()
}

/// Whether each road has a stack in the table.
fn members_of(open: &OpenSpots) -> Vec<bool> {
    (0..open.roads).map(|r| open.per_road.contains_key(&r)).collect()
}

fn spot(lane: usize, idx: usize) -> ParkingSpot {
    ParkingSpot { lane: LaneID(lane), idx }
}

#[test]
fn spots_fit_on_the_length_of_a_parking_lane() {
    // 800 cm to a spot: 2400 cm hold three, 1599 cm hold one, 799 cm none.
    let map = row_of_roads(&[2400, 1599, 799], &[0]);
    let sim = Sim::new(&map, 1);
    assert_eq!(sim.get_free_spots(LaneID(1)), vec![spot(1, 0), spot(1, 1), spot(1, 2)]);
    assert_eq!(sim.get_free_spots(LaneID(4)), vec![spot(4, 0)]);
    assert_eq!(sim.get_free_spots(LaneID(7)), vec![]);
    // A driving lane and a sidewalk have no spots.
    assert_eq!(sim.get_free_spots(LaneID(0)), vec![]);
    assert_eq!(sim.get_free_spots(LaneID(2)), vec![]);
    // Nor has a lane that the map does not have.
    assert_eq!(sim.get_free_spots(LaneID(99)), vec![]);
}

#[test]
fn free_spots_of_a_road_come_lane_by_lane() {
    let map = row_of_roads(&[1600, 800], &[0]);
    let sim = Sim::new(&map, 1);
    assert_eq!(collect_free_spots(&sim, &map, RoadID(0)), vec![spot(1, 0), spot(1, 1)]);
    assert_eq!(collect_free_spots(&sim, &map, RoadID(1)), vec![spot(4, 0)]);
}

#[test]
fn own_road_is_tried_first() {
    let map = row_of_roads(&[1600, 1600, 1600], &[1]);
    let mut open = table(
        &map,
        vec![vec![spot(1, 0)], vec![spot(4, 0), spot(4, 1)], vec![spot(7, 0)]],
        vec![true, true, true],
    );
    let mut timer = Timer::new();
    // The building stands on road 1; the last spot of its stack goes first.
    let found = find_spot_near_building(BuildingID(0), &mut open, &map, &mut timer);
    assert_eq!(found, Some(spot(4, 1)));
    assert_eq!(stacks_of(&open), vec![vec![spot(1, 0)], vec![spot(4, 0)], vec![spot(7, 0)]]);
    assert!(timer.warnings.is_empty());
    let found = find_spot_near_building(BuildingID(0), &mut open, &map, &mut timer);
    assert_eq!(found, Some(spot(4, 0)));
}

#[test]
fn search_goes_breadth_first_in_the_order_of_the_roads_met() {
    // Road 2 meets road 1 first, then road 3.
    let map = row_of_roads(&[800, 800, 800, 800, 800], &[2]);
    let mut open = table(
        &map,
        vec![vec![spot(1, 0)], vec![spot(4, 0)], vec![], vec![spot(10, 0)], vec![spot(13, 0)]],
        vec![true; 5],
    );
    let mut timer = Timer::new();
    let b = BuildingID(0);
    assert_eq!(find_spot_near_building(b, &mut open, &map, &mut timer), Some(spot(4, 0)));
    assert_eq!(find_spot_near_building(b, &mut open, &map, &mut timer), Some(spot(10, 0)));
    // Roads 0 and 4 are two roads away; road 0 was found first.
    assert_eq!(find_spot_near_building(b, &mut open, &map, &mut timer), Some(spot(1, 0)));
    assert_eq!(find_spot_near_building(b, &mut open, &map, &mut timer), Some(spot(13, 0)));
    assert!(timer.warnings.is_empty());
    assert_eq!(find_spot_near_building(b, &mut open, &map, &mut timer), None);
    assert_eq!(
        timer.warnings,
        vec![Warning::GaveUpParkingSearch { building: b, searched: 5, roads: 5 }]
    );
}

#[test]
fn search_does_not_leave_the_neighborhood() {
    // Road 1 is not in the neighborhood, so road 2 cannot be reached from
    // road 0, though it has a spot.
    let map = row_of_roads(&[800, 800, 800], &[0]);
    let mut open =
        table(&map, vec![vec![], vec![], vec![spot(7, 0)]], vec![true, false, true]);
    let mut timer = Timer::new();
    let found = find_spot_near_building(BuildingID(0), &mut open, &map, &mut timer);
    assert_eq!(found, None);
    assert_eq!(stacks_of(&open), vec![vec![], vec![], vec![spot(7, 0)]]);
    // Only the building's own road was looked at, of the two that the
    // neighborhood has.
    assert_eq!(
        timer.warnings,
        vec![Warning::GaveUpParkingSearch { building: BuildingID(0), searched: 1, roads: 2 }]
    );
}

#[test]
fn search_starts_at_the_own_road_even_outside_the_neighborhood() {
    // The building's road is not in the neighborhood. The search still
    // starts there, and goes on to the roads of the neighborhood.
    let map = row_of_roads(&[800, 800], &[0]);
    let mut open = table(&map, vec![vec![], vec![spot(4, 0)]], vec![false, true]);
    let mut timer = Timer::new();
    let found = find_spot_near_building(BuildingID(0), &mut open, &map, &mut timer);
    assert_eq!(found, Some(spot(4, 0)));
}

#[test]
fn table_holds_the_free_spots_of_the_neighborhood_shuffled() {
    // 40 spots on road 0: some seed must put them in another order.
    let map = row_of_roads(&[32_000, 1600, 800], &[0]);
    let sim = Sim::new(&map, 1);
    let roads = vec![RoadID(0), RoadID(1)];
    let in_order = collect_free_spots(&sim, &map, RoadID(0));
    assert_eq!(in_order.len(), 40);
    let mut shuffled_once = false;
    for seed in 1..=5 {
        let (open, total) = build_open_spots(&sim, &roads, &mut rng(seed), &map);
        assert_eq!(total, 42);
        assert_eq!(members_of(&open), vec![true, true, false]);
        assert_eq!(open.count_roads(), 2);
        assert!(stacks_of(&open)[2].is_empty());
        let mut sorted = open.per_road[&0].clone();
        sorted.sort_by_key(|s| s.idx);
        assert_eq!(sorted, in_order);
        if open.per_road[&0] != in_order {
            shuffled_once = true;
        }
    }
    assert!(shuffled_once);
}

#[test]
fn same_seed_gives_the_same_table() {
    let map = row_of_roads(&[32_000, 1600], &[0]);
    let sim = Sim::new(&map, 1);
    let roads = vec![RoadID(0), RoadID(1)];
    let (a, _) = build_open_spots(&sim, &roads, &mut rng(9), &map);
    let (b, _) = build_open_spots(&sim, &roads, &mut rng(9), &map);
    assert_eq!(stacks_of(&a), stacks_of(&b));
}

#[test]
fn placing_a_car_parks_a_new_car_for_the_building() {
    let map = row_of_roads(&[800], &[0]);
    let mut sim = Sim::new(&map, 1);
    let roads = vec![RoadID(0)];
    let (mut open, total) = build_open_spots(&sim, &roads, &mut rng(2), &map);
    let mut timer = Timer::new();
    let b = BuildingID(0);
    assert!(place_car(&mut sim, &mut open, b, &roads, &mut rng(3), &map, &mut timer, total, 1, 1, 0));
    assert_eq!(sim.total_cars(), 1);
    let owned = sim.get_parked_cars_by_owner(b);
    assert_eq!(owned.len(), 1);
    assert_eq!(owned[0].spot, spot(1, 0));
    assert_eq!(owned[0].owner, Some(b));
    assert_eq!(owned[0].vehicle.id.0, 0);
    assert_eq!(owned[0].vehicle.vehicle_type, VehicleType::Car);
    assert!(450 <= owned[0].vehicle.length.0 && owned[0].vehicle.length.0 < 650);
    assert_eq!(owned[0].vehicle.max_speed, None);
    assert!(sim.get_free_spots(LaneID(1)).is_empty());
    assert!(timer.warnings.is_empty());
    // No room is left: two warnings, and nothing else changes.
    assert!(!place_car(&mut sim, &mut open, b, &roads, &mut rng(3), &map, &mut timer, total, 1, 1, 1));
    assert_eq!(sim.total_cars(), 1);
    assert_eq!(
        timer.warnings,
        vec![
            Warning::GaveUpParkingSearch { building: b, searched: 1, roads: 1 },
            Warning::NoRoomToSeed {
                building: b,
                total_spots: 1,
                most_each: 1,
                buildings: 1,
                new_cars: 1,
            },
        ]
    );
}

#[test]
fn three_buildings_two_spots() {
    // Three buildings on one road with two free spots; each building asks
    // for exactly one car.
    let map = row_of_roads(&[1600], &[0, 0, 0]);
    let mut sim = Sim::new(&map, 1);
    let one_each = WeightedUsizeChoice { weights: vec![0, 1] };
    assert!(one_each.is_valid());
    let buildings = vec![BuildingID(0), BuildingID(1), BuildingID(2)];
    let roads = set(&[0]);
    let mut timer = Timer::new();
    let report =
        seed_parked_cars(&mut sim, &one_each, &buildings, &roads, &mut rng(4), &map, &mut timer);
    assert_eq!(report.placed, 2);
    assert_eq!(report.requested, 3);
    assert_eq!(report.total_spots, 2);
    assert_eq!(sim.total_cars(), 2);
    assert_eq!(sim.get_parked_cars_by_owner(BuildingID(0)).len(), 1);
    assert_eq!(sim.get_parked_cars_by_owner(BuildingID(1)).len(), 1);
    assert_eq!(sim.get_parked_cars_by_owner(BuildingID(2)).len(), 0);
    let no_room: Vec<&Warning> =
        timer.warnings.iter().filter(|w| matches!(w, Warning::NoRoomToSeed { .. })).collect();
    assert_eq!(
        no_room,
        vec![&Warning::NoRoomToSeed {
            building: BuildingID(2),
            total_spots: 2,
            most_each: 1,
            buildings: 3,
            new_cars: 2,
        }]
    );
    assert_eq!(
        timer.notes,
        vec![Note::SeededParkedCars { placed: 2, requested: 3, total_spots: 2 }]
    );
}

#[test]
fn placed_and_unplaced_make_up_the_requested() {
    let map = row_of_roads(&[2400, 800, 1600], &[0, 1, 2, 2, 1]);
    for seed in 0..20 {
        let mut sim = Sim::new(&map, 1);
        let some = WeightedUsizeChoice { weights: vec![1, 2, 3, 1] };
        let buildings = (0..5).map(BuildingID).collect();
        let roads = set(&[0, 1, 2]);
        let mut timer = Timer::new();
        let report =
            seed_parked_cars(&mut sim, &some, &buildings, &roads, &mut rng(seed), &map, &mut timer);
        let no_room = timer
            .warnings
            .iter()
            .filter(|w| matches!(w, Warning::NoRoomToSeed { .. }))
            .count();
        assert_eq!(report.placed + no_room, report.requested);
        assert_eq!(report.total_spots, 6);
        assert!(report.placed <= 6);
        assert!(report.requested <= 5 * 3);
        assert_eq!(sim.total_cars(), report.placed);
        let free: usize = [1, 4, 7].iter().map(|l| sim.get_free_spots(LaneID(*l)).len()).sum();
        assert_eq!(free + report.placed, 6);
    }
}

#[test]
fn a_building_that_asks_for_nothing_gets_nothing() {
    let map = row_of_roads(&[2400], &[0, 0]);
    let mut sim = Sim::new(&map, 1);
    let none = WeightedUsizeChoice { weights: vec![7] };
    let buildings = vec![BuildingID(0), BuildingID(1)];
    let mut timer = Timer::new();
    let report = seed_parked_cars(
        &mut sim,
        &none,
        &buildings,
        &set(&[0]),
        &mut rng(4),
        &map,
        &mut timer,
    );
    assert_eq!(report.placed, 0);
    assert_eq!(report.requested, 0);
    assert_eq!(report.total_spots, 3);
    assert!(timer.warnings.is_empty());
}

#[test]
fn a_building_is_served_request_by_request() {
    // The building stands on road 1, which has one spot; road 0 has two.
    let map = row_of_roads(&[1600, 800], &[1]);
    let mut sim = Sim::new(&map, 1);
    let roads = vec![RoadID(0), RoadID(1)];
    let (mut open, total) = build_open_spots(&sim, &roads, &mut rng(2), &map);
    let mut timer = Timer::new();
    let b = BuildingID(0);
    let placed =
        seed_building(&mut sim, &mut open, b, 5, &roads, &mut rng(3), &map, &mut timer, total, 5, 4, 10);
    assert_eq!(placed, 3);
    assert_eq!(sim.total_cars(), 3);
    let spots: Vec<ParkingSpot> =
        sim.get_parked_cars_by_owner(b).iter().map(|c| c.spot).collect();
    assert_eq!(spots, vec![spot(1, 0), spot(1, 1), spot(4, 0)]);
    // The car on the building's own road was placed first.
    let own = sim.get_parked_cars_by_owner(b).into_iter().find(|c| c.spot == spot(4, 0)).unwrap();
    assert_eq!(own.vehicle.id.0, 0);
    // The fourth and the fifth request found no room; thirteen cars had
    // been placed by then.
    let no_room =
        Warning::NoRoomToSeed {
        building: b,
        total_spots: 3,
        most_each: 5,
        buildings: 4,
        new_cars: 13,
    };
    let gave_up = Warning::GaveUpParkingSearch { building: b, searched: 2, roads: 2 };
    assert_eq!(timer.warnings, vec![gave_up, no_room, gave_up, no_room]);
    // Nothing is asked for: nothing happens.
    let placed =
        seed_building(&mut sim, &mut open, b, 0, &roads, &mut rng(3), &map, &mut timer, total, 5, 4, 13);
    assert_eq!(placed, 0);
    assert_eq!(timer.warnings.len(), 4);
}

#[test]
fn a_table_hands_out_the_last_spot_of_a_road() {
    let map = row_of_roads(&[800, 800, 800], &[0]);
    let mut open =
        table(&map, vec![vec![spot(1, 0), spot(1, 1)], vec![], vec![]], vec![true, false, true]);
    assert_eq!(open.count_roads(), 2);
    assert!(open.is_member(RoadID(0)));
    assert!(!open.is_member(RoadID(1)));
    assert_eq!(open.spots_left(RoadID(0)), 2);
    assert_eq!(open.spots_left(RoadID(1)), 0);
    assert_eq!(open.take_last(RoadID(0)), Some(spot(1, 1)));
    assert_eq!(open.take_last(RoadID(0)), Some(spot(1, 0)));
    assert_eq!(open.take_last(RoadID(0)), None);
    assert_eq!(open.take_last(RoadID(1)), None);
    assert_eq!(stacks_of(&open), vec![vec![], vec![], vec![]]);
    // A road whose last spot was taken still belongs to the neighborhood.
    assert_eq!(members_of(&open), vec![true, false, true]);
}

#[test]
fn each_car_belongs_to_the_building_that_asked_for_it() {
    // Two buildings on one road with three free spots; each asks for two
    // cars.
    let map = row_of_roads(&[2400], &[0, 0]);
    for seed in 0..10 {
        let mut sim = Sim::new(&map, 1);
        let two_each = WeightedUsizeChoice { weights: vec![0, 0, 1] };
        let buildings = vec![BuildingID(0), BuildingID(1)];
        let roads = set(&[0]);
        let mut timer = Timer::new();
        let report = seed_parked_cars(
            &mut sim,
            &two_each,
            &buildings,
            &roads,
            &mut rng(seed),
            &map,
            &mut timer,
        );
        assert_eq!(report.placed, 3);
        assert_eq!(report.requested, 4);
        // The buildings are served in their order: the first two cars are
        // those of building 0, the third is that of building 1.
        let mut first: Vec<usize> =
            sim.get_parked_cars_by_owner(BuildingID(0)).iter().map(|c| c.vehicle.id.0).collect();
        first.sort();
        assert_eq!(first, vec![0, 1]);
        let second: Vec<usize> =
            sim.get_parked_cars_by_owner(BuildingID(1)).iter().map(|c| c.vehicle.id.0).collect();
        assert_eq!(second, vec![2]);
        assert_eq!(
            timer.warnings,
            vec![
                Warning::GaveUpParkingSearch { building: BuildingID(1), searched: 1, roads: 1 },
                Warning::NoRoomToSeed {
                    building: BuildingID(1),
                    total_spots: 3,
                    most_each: 2,
                    buildings: 2,
                    new_cars: 3,
                },
            ]
        );
    }
}

#[test]
fn one_building_with_room_gets_all_it_asks_for() {
    let map = row_of_roads(&[2400], &[0]);
    let mut sim = Sim::new(&map, 1);
    let two = WeightedUsizeChoice { weights: vec![0, 0, 5] };
    let mut timer = Timer::new();
    let report = seed_parked_cars(
        &mut sim,
        &two,
        &vec![BuildingID(0)],
        &set(&[0]),
        &mut rng(6),
        &map,
        &mut timer,
    );
    assert_eq!(report.placed, 2);
    assert_eq!(report.requested, 2);
    assert_eq!(report.total_spots, 3);
    let owned = sim.get_parked_cars_by_owner(BuildingID(0));
    assert_eq!(owned.len(), 2);
    assert_ne!(owned[0].spot, owned[1].spot);
    assert!(owned.iter().all(|c| c.spot.lane == LaneID(1)));
    assert!(timer.warnings.is_empty());
    assert_eq!(timer.notes, vec![Note::SeededParkedCars { placed: 2, requested: 2, total_spots: 3 }]);
}

#[test]
fn a_building_out_of_reach_gets_warnings_and_the_next_is_served() {
    // Building 0 stands on road 0; the neighborhood has road 2 only, which
    // no road beside road 0 leads to.
    let map = row_of_roads(&[800, 800, 800], &[0, 2]);
    let mut sim = Sim::new(&map, 1);
    let one_each = WeightedUsizeChoice { weights: vec![0, 1] };
    let mut timer = Timer::new();
    let report = seed_parked_cars(
        &mut sim,
        &one_each,
        &vec![BuildingID(0), BuildingID(1)],
        &set(&[2]),
        &mut rng(8),
        &map,
        &mut timer,
    );
    assert_eq!(report.placed, 1);
    assert_eq!(report.requested, 2);
    assert_eq!(report.total_spots, 1);
    assert!(sim.get_parked_cars_by_owner(BuildingID(0)).is_empty());
    let owned = sim.get_parked_cars_by_owner(BuildingID(1));
    assert_eq!(owned.len(), 1);
    assert_eq!(owned[0].spot, spot(7, 0));
    assert_eq!(owned[0].vehicle.id.0, 0);
    assert_eq!(
        timer.warnings,
        vec![
            Warning::GaveUpParkingSearch { building: BuildingID(0), searched: 1, roads: 1 },
            Warning::NoRoomToSeed {
                building: BuildingID(0),
                total_spots: 1,
                most_each: 1,
                buildings: 2,
                new_cars: 0,
            },
        ]
    );
}

#[test]
fn the_roads_of_a_set_are_taken_in_the_order_of_their_identifiers() {
    let map = row_of_roads(&[800, 800, 800], &[0]);
    assert_eq!(roads_in_order(&set(&[2, 0]), &map), vec![RoadID(0), RoadID(2)]);
    // Road 7 is no road of the map.
    assert_eq!(roads_in_order(&set(&[7, 1]), &map), vec![RoadID(1)]);
    assert!(roads_in_order(&set(&[]), &map).is_empty());
    // A pass over a set of roads is the pass over these roads in order.
    let one_each = WeightedUsizeChoice { weights: vec![0, 1] };
    let mut by_set = Sim::new(&map, 1);
    let mut by_list = Sim::new(&map, 1);
    let mut timer = Timer::new();
    let a = seed_parked_cars(
        &mut by_set,
        &one_each,
        &vec![BuildingID(0)],
        &set(&[1, 0, 9]),
        &mut rng(5),
        &map,
        &mut timer,
    );
    let b = seed_on_roads(
        &mut by_list,
        &one_each,
        &vec![BuildingID(0)],
        &vec![RoadID(0), RoadID(1)],
        &mut rng(5),
        &map,
        &mut timer,
    );
    assert_eq!(a, b);
    assert_eq!(a.total_spots, 2);
    assert_eq!(by_set.get_parked_cars_by_owner(BuildingID(0)), by_list.get_parked_cars_by_owner(BuildingID(0)));
}
