//! What a trip is made of: vehicles, parking spots, the places on
//! sidewalks where a walk starts or ends, goals, and the trip itself.

use vstd::prelude::*;
use crate::ids::{BuildingID, BusRouteID, BusStopID, CarID, IntersectionID, LaneID};
use crate::map::{LaneType, Position, RoadMap, lanes_of_type};
use crate::units::{Distance, Speed};

verus! {

/// The shortest car, in centimetres.
pub const MIN_CAR_LENGTH: u64 = 450;

/// No car is this long, in centimetres.
pub const MAX_CAR_LENGTH: u64 = 650;

/// The shortest bike, in centimetres.
pub const MIN_BIKE_LENGTH: u64 = 170;

/// No bike is this long, in centimetres.
pub const MAX_BIKE_LENGTH: u64 = 200;

/// The top speed of a bike: ten miles per hour, in centimetres per second.
pub const BIKE_MAX_SPEED: u64 = 447;

#[derive(Clone, Copy, Debug, PartialEq, Eq, Hash, Structural)]
pub enum VehicleType {
    Car,
    Bus,
    Bike,
}

/// A vehicle that does not exist yet: everything about it but its
/// identifier.
#[derive(Clone, Copy, Debug, PartialEq, Eq, Structural)]
pub struct VehicleSpec {
    pub vehicle_type: VehicleType,
    pub length: Distance,
    pub max_speed: Option<Speed>,
}

#[derive(Clone, Copy, Debug, PartialEq, Eq, Structural)]
pub struct Vehicle {
    pub id: CarID,
    pub vehicle_type: VehicleType,
    pub length: Distance,
    pub max_speed: Option<Speed>,
}

/// One parking location: a parking lane and a slot on it.
#[derive(Clone, Copy, Debug, PartialEq, Eq, Hash, Structural)]
pub struct ParkingSpot {
    pub lane: LaneID,
    pub idx: usize,
}

/// A vehicle bound to a spot and, if it has one, to the building that
/// owns it.
#[derive(Clone, Copy, Debug, PartialEq, Eq, Structural)]
pub struct ParkedCar {
    pub vehicle: Vehicle,
    pub spot: ParkingSpot,
    pub owner: Option<BuildingID>,
}

/// What a place on a sidewalk belongs to.
#[derive(Clone, Copy, Debug, PartialEq, Eq, Structural)]
pub enum SidewalkPOI {
    Building(BuildingID),
    Border(IntersectionID),
}

/// A place on a sidewalk where a walk starts or ends.
#[derive(Clone, Copy, Debug, PartialEq, Eq, Structural)]
pub struct SidewalkSpot {
    pub connection: SidewalkPOI,
    pub sidewalk_pos: Position,
}

/// Where a drive ends.
#[derive(Clone, Copy, Debug, PartialEq, Eq, Structural)]
pub enum DrivingGoal {
    /// Park as near to the building as can be.
    ParkNear(BuildingID),
    /// Leave the map at the intersection, by the lane.
    Border(IntersectionID, LaneID),
}

/// How one agent makes its trip.
#[derive(Clone, Copy, Debug, PartialEq, Eq, Structural)]
pub enum TripSpec {
    /// A vehicle appears at a point on a lane and drives to its goal.
    CarAppearing(Position, VehicleSpec, DrivingGoal),
    /// A walk to an already parked vehicle, then a drive to the goal.
    UsingParkedCar(SidewalkSpot, ParkingSpot, DrivingGoal),
    /// A walk from the first place to the second.
    JustWalking(SidewalkSpot, SidewalkSpot),
    /// A bike appears at the place and rides to its goal.
    UsingBike(SidewalkSpot, VehicleSpec, DrivingGoal),
    /// A walk to the first stop, a ride on the route to the second stop,
    /// and a walk to the last place.
    UsingTransit(SidewalkSpot, BusRouteID, BusStopID, BusStopID, SidewalkSpot),
}

impl VehicleSpec {
    /// The vehicle that this becomes once it has an identifier.
    pub open spec fn spec_make(self, id: CarID) -> Vehicle {
        Vehicle {
            id,
            vehicle_type: self.vehicle_type,
            length: self.length,
            max_speed: self.max_speed,
        }
    }

    #[verifier::when_used_as_spec(spec_make)]
    pub fn make(self, id: CarID) -> (v: Vehicle)
        ensures
            v == self.spec_make(id),
    {
        Vehicle {
            id,
            vehicle_type: self.vehicle_type,
            length: self.length,
            max_speed: self.max_speed,
        }
    }
}

impl SidewalkSpot {
    /// The place where a building's front path meets its sidewalk.
    pub open spec fn spec_building(b: BuildingID, map: &RoadMap) -> SidewalkSpot {
        SidewalkSpot {
            connection: SidewalkPOI::Building(b),
            sidewalk_pos: map.buildings[b.0 as int].front_path,
        }
    }

    /// The start of the first sidewalk that leaves the intersection, if
    /// any does.
    pub open spec fn spec_start_at_border(i: IntersectionID, map: &RoadMap) -> Option<
        SidewalkSpot,
    > {
        let lanes = lanes_of_type(
            map.intersections[i.0 as int].outgoing_lanes@,
            map.lanes@,
            LaneType::Sidewalk,
        );
        if lanes.len() == 0 {
            None
        } else {
            Some(
                SidewalkSpot {
                    connection: SidewalkPOI::Border(i),
                    sidewalk_pos: Position { lane: lanes[0], dist_along: Distance(0) },
                },
            )
        }
    }

    /// The end of the first sidewalk that reaches the intersection, if any
    /// does.
    pub open spec fn spec_end_at_border(i: IntersectionID, map: &RoadMap) -> Option<SidewalkSpot> {
        let lanes = lanes_of_type(
            map.intersections[i.0 as int].incoming_lanes@,
            map.lanes@,
            LaneType::Sidewalk,
        );
        if lanes.len() == 0 {
            None
        } else {
            Some(
                SidewalkSpot {
                    connection: SidewalkPOI::Border(i),
                    sidewalk_pos: Position {
                        lane: lanes[0],
                        dist_along: map.lanes[lanes[0].0 as int].length,
                    },
                },
            )
        }
    }

    #[verifier::when_used_as_spec(spec_building)]
    pub fn building(b: BuildingID, map: &RoadMap) -> (spot: SidewalkSpot)
        requires
            map.wf(),
            map.has_building(b),
        ensures
            spot == Self::spec_building(b, map),
    {
        SidewalkSpot { connection: SidewalkPOI::Building(b), sidewalk_pos: map.get_b(b).front_path }
    }

    #[verifier::when_used_as_spec(spec_start_at_border)]
    pub fn start_at_border(i: IntersectionID, map: &RoadMap) -> (spot: Option<SidewalkSpot>)
        requires
            map.wf(),
            map.has_intersection(i),
        ensures
            spot == Self::spec_start_at_border(i, map),
    {
        let lanes = map.get_i(i).get_outgoing_lanes(map, LaneType::Sidewalk);
        if lanes.len() == 0 {
            None
        } else {
            Some(
                SidewalkSpot {
                    connection: SidewalkPOI::Border(i),
                    sidewalk_pos: Position { lane: lanes[0], dist_along: Distance(0) },
                },
            )
        }
    }

    #[verifier::when_used_as_spec(spec_end_at_border)]
    pub fn end_at_border(i: IntersectionID, map: &RoadMap) -> (spot: Option<SidewalkSpot>)
        requires
            map.wf(),
            map.has_intersection(i),
        ensures
            spot == Self::spec_end_at_border(i, map),
    {
        let lanes = map.get_i(i).get_incoming_lanes(map, LaneType::Sidewalk);
        if lanes.len() == 0 {
            None
        } else {
            proof {
                lemma_lanes_of_type_are_lanes(
                    map.intersections[i.0 as int].incoming_lanes@,
                    map.lanes@,
                    LaneType::Sidewalk,
                    0,
                );
            }
            Some(
                SidewalkSpot {
                    connection: SidewalkPOI::Border(i),
                    sidewalk_pos: Position {
                        lane: lanes[0],
                        dist_along: map.get_l(lanes[0]).length,
                    },
                },
            )
        }
    }
}

/// A lane picked out by its type is one of the lanes it was picked from,
/// and has that type.
pub proof fn lemma_lanes_of_type_are_lanes(
    ids: Seq<LaneID>,
    lanes: Seq<crate::map::Lane>,
    lane_type: LaneType,
    k: int,
)
    requires
        0 <= k < lanes_of_type(ids, lanes, lane_type).len(),
    ensures
        ids.contains(lanes_of_type(ids, lanes, lane_type)[k]),
        lanes[lanes_of_type(ids, lanes, lane_type)[k].0 as int].lane_type == lane_type,
{
    let keep = |l: LaneID| lanes[l.0 as int].lane_type == lane_type;
    ids.lemma_filter_pred(keep, k);
    assert(ids.filter(keep).contains(ids.filter(keep)[k]));
    ids.lemma_filter_contains_rev(keep, ids.filter(keep)[k]);
}

} // verus!
