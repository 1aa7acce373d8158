use rand::SeedableRng;
use rand_xorshift::XorShiftRng;
use std::collections::BTreeSet;
use traffic_sim::goal::OriginDestination;
use traffic_sim::ids::{BuildingID, IntersectionID, LaneID, RoadID};
use traffic_sim::map::{Building, Intersection, Lane, LaneType, Position, Road, RoadMap};
use traffic_sim::neighborhood::{FullNeighborhoodInfo, Neighborhoods};
use traffic_sim::report::{Timer, Warning};
use traffic_sim::trips::{DrivingGoal, SidewalkPOI, SidewalkSpot};
use traffic_sim::units::Distance;

fn lane(id: usize, lane_type: LaneType, length: u64) -> Lane {
    Lane { id: LaneID(id), lane_type, parent: RoadID(0), length: Distance(length) }
}

/// One road with lanes 0 and 1 (driving), 2 (biking), 3 and 4 (sidewalk)
/// and 5 (parking). What reaches each intersection:
///   0: driving 1, then driving 0; biking 2; sidewalk 4, then sidewalk 3
///   1: driving 0 only
///   2: biking 2 only
///   3: sidewalk 3 only
///   4: parking 5 only
///   5: nothing
fn crossroads() -> RoadMap {
    let ends = |id: usize, incoming: Vec<usize>| Intersection {
        id: IntersectionID(id),
        incoming_lanes: incoming.into_iter().map(LaneID).collect(),
        outgoing_lanes: vec![],
    };
    let map = RoadMap {
        roads: vec![Road {
            id: RoadID(0),
            children_forwards: (0..6).map(LaneID).collect(),
            children_backwards: vec![],
            next_roads: vec![],
            supports_bikes: true,
        }],
        lanes: vec![
            lane(0, LaneType::Driving, 1000),
            lane(1, LaneType::Driving, 1100),
            lane(2, LaneType::Biking, 1200),
            lane(3, LaneType::Sidewalk, 1300),
            lane(4, LaneType::Sidewalk, 1400),
            lane(5, LaneType::Parking, 1500),
        ],
        intersections: vec![
            ends(0, vec![5, 4, 1, 2, 3, 0]),
            ends(1, vec![0]),
            ends(2, vec![2]),
            ends(3, vec![3]),
            ends(4, vec![5]),
            ends(5, vec![]),
        ],
        buildings: vec![
            Building {
                id: BuildingID(0),
                front_path: Position { lane: LaneID(3), dist_along: Distance(30) },
            },
            Building {
                id: BuildingID(1),
                front_path: Position { lane: LaneID(4), dist_along: Distance(40) },
            },
        ],
        transit_rides: vec![],
    };
    assert!(map.check());
    map
}

fn hoods(map: &RoadMap) -> Neighborhoods {
    let n = Neighborhoods {
        all: vec![
            FullNeighborhoodInfo {
                name: "here".to_string(),
                buildings: vec![BuildingID(1), BuildingID(0), BuildingID(1)],
                roads: [0].into_iter().collect(),
            },
            FullNeighborhoodInfo {
                name: "here".to_string(),
                buildings: vec![BuildingID(0)],
                roads: BTreeSet::new(),
            },
            FullNeighborhoodInfo { name: "bare".to_string(), buildings: vec![], roads: BTreeSet::new() },
        ],
    };
    assert!(n.is_valid(map));
    n
}

fn rng(seed: u8) -> XorShiftRng {
    XorShiftRng::from_seed([seed; 16])
}

fn border(i: usize) -> OriginDestination {
    OriginDestination::Border(IntersectionID(i))
}

#[test]
fn drive_to_a_border_ends_on_the_first_driving_lane_that_reaches_it() {
    let map = crossroads();
    let n = hoods(&map);
    let mut timer = Timer::new();
    let i = IntersectionID(0);
    let goal = border(0).pick_driving_goal(&map, &n, &mut rng(1), &mut timer);
    assert_eq!(goal, Some(DrivingGoal::Border(i, LaneID(1))));
    let goal = border(1).pick_driving_goal(&map, &n, &mut rng(1), &mut timer);
    assert_eq!(goal, Some(DrivingGoal::Border(IntersectionID(1), LaneID(0))));
    assert!(timer.warnings.is_empty());
}

#[test]
fn drive_to_a_border_is_unresolved_exactly_without_a_driving_lane() {
    let map = crossroads();
    let n = hoods(&map);
    for i in 0..6 {
        let mut timer = Timer::new();
        let goal = border(i).pick_driving_goal(&map, &n, &mut rng(1), &mut timer);
        let has_driving_lane = i == 0 || i == 1;
        assert_eq!(goal.is_some(), has_driving_lane);
        assert_eq!(goal, border(i).driving_goal(&map, None));
        if has_driving_lane {
            assert!(timer.warnings.is_empty());
        } else {
            assert_eq!(
                timer.warnings,
                vec![Warning::NoDrivingGoalAtBorder { border: IntersectionID(i) }]
            );
        }
    }
}

#[test]
fn ride_to_a_border_takes_a_biking_lane_before_a_driving_lane() {
    let map = crossroads();
    let n = hoods(&map);
    let expected = [Some(2), Some(0), Some(2), None, None, None];
    for i in 0..6 {
        let mut timer = Timer::new();
        let goal = border(i).pick_biking_goal(&map, &n, &mut rng(1), &mut timer);
        assert_eq!(goal, expected[i].map(|l| DrivingGoal::Border(IntersectionID(i), LaneID(l))));
        if goal.is_some() {
            assert!(timer.warnings.is_empty());
        } else {
            assert_eq!(
                timer.warnings,
                vec![Warning::NoBikingGoalAtBorder { border: IntersectionID(i) }]
            );
        }
    }
}

#[test]
fn walk_to_a_border_is_unresolved_exactly_without_a_sidewalk() {
    let map = crossroads();
    let n = hoods(&map);
    let expected = [Some((4, 1400)), None, None, Some((3, 1300)), None, None];
    for i in 0..6 {
        let mut timer = Timer::new();
        let goal = border(i).pick_walking_goal(&map, &n, &mut rng(1), &mut timer);
        assert_eq!(
            goal,
            expected[i].map(|(l, d)| SidewalkSpot {
                connection: SidewalkPOI::Border(IntersectionID(i)),
                sidewalk_pos: Position { lane: LaneID(l), dist_along: Distance(d) },
            })
        );
        assert_eq!(goal, SidewalkSpot::end_at_border(IntersectionID(i), &map));
        if goal.is_some() {
            assert!(timer.warnings.is_empty());
        } else {
            assert_eq!(
                timer.warnings,
                vec![Warning::NoWalkingGoalAtBorder { border: IntersectionID(i) }]
            );
        }
    }
}

#[test]
fn a_neighborhood_resolves_to_one_of_its_buildings() {
    let map = crossroads();
    let n = hoods(&map);
    let here = OriginDestination::Neighborhood("here".to_string());
    assert!(here.is_usable(&map, &n));
    let mut timer = Timer::new();
    let mut base = rng(5);
    let mut seen = [0usize; 2];
    for _ in 0..60 {
        match here.pick_driving_goal(&map, &n, &mut base, &mut timer) {
            Some(DrivingGoal::ParkNear(b)) => seen[b.0] += 1,
            other => panic!("unexpected goal {:?}", other),
        }
        match here.pick_biking_goal(&map, &n, &mut base, &mut timer) {
            Some(DrivingGoal::ParkNear(b)) => seen[b.0] += 1,
            other => panic!("unexpected goal {:?}", other),
        }
        let spot = here.pick_walking_goal(&map, &n, &mut base, &mut timer).unwrap();
        match spot.connection {
            SidewalkPOI::Building(b) => {
                assert_eq!(spot, SidewalkSpot::building(b, &map));
                seen[b.0] += 1;
            }
            other => panic!("unexpected place {:?}", other),
        }
    }
    // Both buildings come up.
    assert!(seen[0] > 0 && seen[1] > 0);
    assert!(timer.warnings.is_empty());
}

#[test]
fn the_first_neighborhood_of_a_name_is_meant() {
    let map = crossroads();
    let n = hoods(&map);
    assert_eq!(n.find(&"here".to_string()), Some(0));
    assert_eq!(n.find(&"bare".to_string()), Some(2));
    assert_eq!(n.find(&"Here".to_string()), None);
    assert!(n.contains_key(&"bare".to_string()));
    assert!(!n.contains_key(&"".to_string()));
}

#[test]
fn goals_that_cannot_be_used() {
    let map = crossroads();
    let n = hoods(&map);
    assert!(!OriginDestination::Neighborhood("bare".to_string()).is_usable(&map, &n));
    assert!(!OriginDestination::Neighborhood("gone".to_string()).is_usable(&map, &n));
    assert!(border(5).is_usable(&map, &n));
    assert!(!border(6).is_usable(&map, &n));
}

#[test]
fn neighborhoods_must_fit_the_map() {
    let map = crossroads();
    let hood = |buildings: Vec<usize>, roads: Vec<usize>| Neighborhoods {
        all: vec![FullNeighborhoodInfo {
            name: "x".to_string(),
            buildings: buildings.into_iter().map(BuildingID).collect(),
            roads: roads.into_iter().collect(),
        }],
    };
    assert!(hood(vec![0, 1, 0], vec![0]).is_valid(&map));
    assert!(!hood(vec![2], vec![0]).is_valid(&map));
    // The roads are a set; a number that is that of no road of the map
    // stands for no road.
    assert!(hood(vec![0], vec![0, 0]).is_valid(&map));
    assert!(hood(vec![0], vec![1]).is_valid(&map));
    assert_eq!(hood(vec![0], vec![1, 0, 1]).all[0].roads.len(), 2);
}
