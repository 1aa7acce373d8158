//! The road network as this library reads it: tables of roads, lanes,
//! intersections and buildings, each addressed by its identifier, and the
//! answers of the transit-route query.

use vstd::prelude::*;
use crate::ids::{BuildingID, BusRouteID, BusStopID, IntersectionID, LaneID, RoadID, TurnID};
use crate::units::Distance;

verus! {

#[derive(Clone, Copy, Debug, PartialEq, Eq, Hash, Structural)]
pub enum LaneType {
    Driving,
    Parking,
    Sidewalk,
    Biking,
}

/// A point on a lane: the lane and the distance from its start.
#[derive(Clone, Copy, Debug, PartialEq, Eq, Structural)]
pub struct Position {
    pub lane: LaneID,
    pub dist_along: Distance,
}

#[derive(Clone, Copy, Debug, PartialEq, Eq, Structural)]
pub struct Lane {
    pub id: LaneID,
    pub lane_type: LaneType,
    pub parent: RoadID,
    pub length: Distance,
}

#[derive(Clone, Debug)]
pub struct Road {
    pub id: RoadID,
    /// The road's lanes in its forward direction.
    pub children_forwards: Vec<LaneID>,
    /// The road's lanes in its backward direction.
    pub children_backwards: Vec<LaneID>,
    /// The roads that meet this one at either end, in a fixed order.
    pub next_roads: Vec<RoadID>,
    pub supports_bikes: bool,
}

#[derive(Clone, Debug)]
pub struct Intersection {
    pub id: IntersectionID,
    /// The lanes that end here, in a fixed order.
    pub incoming_lanes: Vec<LaneID>,
    /// The lanes that start here, in a fixed order.
    pub outgoing_lanes: Vec<LaneID>,
}

#[derive(Clone, Copy, Debug, PartialEq, Eq, Structural)]
pub struct Building {
    pub id: BuildingID,
    /// Where the building's front path meets its sidewalk.
    pub front_path: Position,
}

/// A movement through an intersection, from one lane to another.
#[derive(Clone, Copy, Debug, PartialEq, Eq, Structural)]
pub struct Turn {
    pub id: TurnID,
    pub between_sidewalks: bool,
}

/// One answer of the transit-route query: walking from sidewalk `from` to
/// sidewalk `to` is better done by boarding `route` at `stop1` and leaving
/// it at `stop2`.
#[derive(Clone, Copy, Debug, PartialEq, Eq, Structural)]
pub struct TransitRide {
    pub from: LaneID,
    pub to: LaneID,
    pub stop1: BusStopID,
    pub stop2: BusStopID,
    pub route: BusRouteID,
}

#[derive(Clone, Debug)]
pub struct RoadMap {
    pub roads: Vec<Road>,
    pub lanes: Vec<Lane>,
    pub intersections: Vec<Intersection>,
    pub buildings: Vec<Building>,
    pub transit_rides: Vec<TransitRide>,
}

/// Every lane of `ids` is a lane of a table with `n` lanes.
pub open spec fn lanes_below(ids: Seq<LaneID>, n: int) -> bool {
    forall|k: int| 0 <= k < ids.len() ==> (#[trigger] ids[k]).0 < n
}

/// Every road of `ids` is a road of a table with `n` roads.
pub open spec fn roads_below(ids: Seq<RoadID>, n: int) -> bool {
    forall|k: int| 0 <= k < ids.len() ==> (#[trigger] ids[k]).0 < n
}

/// The lanes of `ids` whose type in `lanes` is `lane_type`, in the order of
/// `ids`.
pub open spec fn lanes_of_type(ids: Seq<LaneID>, lanes: Seq<Lane>, lane_type: LaneType) -> Seq<
    LaneID,
> {
    ids.filter(|l: LaneID| lanes[l.0 as int].lane_type == lane_type)
}

/// Every lane of `ids` is a lane of `lanes` whose parent is `road`.
pub open spec fn children_of(ids: Seq<LaneID>, lanes: Seq<Lane>, road: RoadID) -> bool {
    forall|k: int|
        0 <= k < ids.len() ==> (#[trigger] ids[k]).0 < lanes.len() && lanes[ids[k].0 as int].parent
            == road
}

impl Road {
    /// The road's lanes are lanes of the map that name this road as their
    /// parent, none of them twice, and the roads it meets are roads of the
    /// map.
    pub open spec fn wf(&self, n_roads: int, lanes: Seq<Lane>) -> bool {
        &&& children_of(self.children_forwards@, lanes, self.id)
        &&& children_of(self.children_backwards@, lanes, self.id)
        &&& self.all_lanes().no_duplicates()
        &&& roads_below(self.next_roads@, n_roads)
    }

    /// The road's lanes: those of the forward direction, then those of the
    /// backward direction.
    pub open spec fn all_lanes(&self) -> Seq<LaneID> {
        self.children_forwards@ + self.children_backwards@
    }

    pub fn supports_bikes(&self) -> (b: bool)
        ensures
            b == self.supports_bikes,
    {
        self.supports_bikes
    }
}

impl Intersection {
    pub open spec fn wf(&self, n_lanes: int) -> bool {
        &&& lanes_below(self.incoming_lanes@, n_lanes)
        &&& lanes_below(self.outgoing_lanes@, n_lanes)
    }

    /// The lanes of the given type that end at this intersection.
    pub fn get_incoming_lanes(&self, map: &RoadMap, lane_type: LaneType) -> (out: Vec<LaneID>)
        requires
            map.wf(),
            self.wf(map.lanes.len() as int),
        ensures
            out@ == lanes_of_type(self.incoming_lanes@, map.lanes@, lane_type),
    {
        select_lanes(&self.incoming_lanes, map, lane_type)
    }

    /// The lanes of the given type that start at this intersection.
    pub fn get_outgoing_lanes(&self, map: &RoadMap, lane_type: LaneType) -> (out: Vec<LaneID>)
        requires
            map.wf(),
            self.wf(map.lanes.len() as int),
        ensures
            out@ == lanes_of_type(self.outgoing_lanes@, map.lanes@, lane_type),
    {
        select_lanes(&self.outgoing_lanes, map, lane_type)
    }
}

/// The lanes of `ids` that have the given type, in the order of `ids`.
fn select_lanes(ids: &Vec<LaneID>, map: &RoadMap, lane_type: LaneType) -> (out: Vec<LaneID>)
    requires
        map.wf(),
        lanes_below(ids@, map.lanes.len() as int),
    ensures
        out@ == lanes_of_type(ids@, map.lanes@, lane_type),
{
    let mut out: Vec<LaneID> = Vec::new();
    let ghost keep = |l: LaneID| map.lanes@[l.0 as int].lane_type == lane_type;
    let mut k: usize = 0;
    while k < ids.len()
        invariant
            k <= ids.len(),
            lanes_below(ids@, map.lanes.len() as int),
            keep == |l: LaneID| map.lanes@[l.0 as int].lane_type == lane_type,
            out@ == ids@.take(k as int).filter(keep),
        decreases ids.len() - k,
    {
        let l = ids[k];
        proof {
            assert(ids@.take(k + 1).drop_last() == ids@.take(k as int));
            assert(ids@.take(k + 1).last() == l);
            reveal(Seq::filter);
        }
        if map.lanes[l.0].lane_type == lane_type {
            out.push(l);
        }
        k += 1;
    }
    proof {
        assert(ids@.take(k as int) == ids@);
    }
    out
}

impl RoadMap {
    /// The tables agree with each other: every entry sits at the index its
    /// identifier names, and every identifier it mentions names an entry.
    pub open spec fn wf(&self) -> bool {
        &&& forall|i: int|
            0 <= i < self.roads.len() ==> (#[trigger] self.roads[i]).id.0 == i && self.roads[i].wf(
                self.roads.len() as int,
                self.lanes@,
            )
        &&& forall|i: int|
            0 <= i < self.lanes.len() ==> (#[trigger] self.lanes[i]).id.0 == i
                && self.lanes[i].parent.0 < self.roads.len()
        &&& forall|i: int|
            0 <= i < self.intersections.len() ==> (#[trigger] self.intersections[i]).id.0 == i
                && self.intersections[i].wf(self.lanes.len() as int)
        &&& forall|i: int|
            0 <= i < self.buildings.len() ==> (#[trigger] self.buildings[i]).id.0 == i
                && self.buildings[i].front_path.lane.0 < self.lanes.len()
    }

    pub open spec fn has_road(&self, id: RoadID) -> bool {
        id.0 < self.roads.len()
    }

    pub open spec fn has_lane(&self, id: LaneID) -> bool {
        id.0 < self.lanes.len()
    }

    pub open spec fn has_intersection(&self, id: IntersectionID) -> bool {
        id.0 < self.intersections.len()
    }

    pub open spec fn has_building(&self, id: BuildingID) -> bool {
        id.0 < self.buildings.len()
    }

    /// The road on which a building stands: the road of its sidewalk.
    pub open spec fn spec_building_to_road(&self, b: BuildingID) -> RoadID {
        self.lanes[self.buildings[b.0 as int].front_path.lane.0 as int].parent
    }

    /// The first recorded transit ride from sidewalk `from` to sidewalk `to`
    /// among the first `n` answers, if there is one.
    pub open spec fn first_ride(&self, from: LaneID, to: LaneID, n: int) -> Option<TransitRide>
        decreases n,
    {
        if n <= 0 {
            None
        } else {
            match self.first_ride(from, to, n - 1) {
                Some(r) => Some(r),
                None => {
                    let r = self.transit_rides[n - 1];
                    if r.from == from && r.to == to {
                        Some(r)
                    } else {
                        None
                    }
                },
            }
        }
    }

    /// What the transit-route query answers for a walk between two points.
    pub open spec fn spec_should_use_transit(&self, start: Position, goal: Position) -> Option<
        TransitRide,
    > {
        self.first_ride(start.lane, goal.lane, self.transit_rides.len() as int)
    }

    pub fn get_r(&self, id: RoadID) -> (r: &Road)
        requires
            self.wf(),
            self.has_road(id),
        ensures
            *r == self.roads[id.0 as int],
            r.id == id,
            r.wf(self.roads.len() as int, self.lanes@),
    {
        &self.roads[id.0]
    }

    pub fn get_l(&self, id: LaneID) -> (l: &Lane)
        requires
            self.wf(),
            self.has_lane(id),
        ensures
            *l == self.lanes[id.0 as int],
            l.id == id,
            self.has_road(l.parent),
    {
        &self.lanes[id.0]
    }

    pub fn get_i(&self, id: IntersectionID) -> (i: &Intersection)
        requires
            self.wf(),
            self.has_intersection(id),
        ensures
            *i == self.intersections[id.0 as int],
            i.id == id,
            i.wf(self.lanes.len() as int),
    {
        &self.intersections[id.0]
    }

    pub fn get_b(&self, id: BuildingID) -> (b: &Building)
        requires
            self.wf(),
            self.has_building(id),
        ensures
            *b == self.buildings[id.0 as int],
            b.id == id,
            self.has_lane(b.front_path.lane),
    {
        &self.buildings[id.0]
    }

    /// The road that owns a lane.
    pub fn get_parent(&self, id: LaneID) -> (r: &Road)
        requires
            self.wf(),
            self.has_lane(id),
        ensures
            *r == self.roads[self.lanes[id.0 as int].parent.0 as int],
            r.id == self.lanes[id.0 as int].parent,
    {
        &self.roads[self.lanes[id.0].parent.0]
    }

    /// The road on which a building stands.
    pub fn building_to_road(&self, b: BuildingID) -> (r: &Road)
        requires
            self.wf(),
            self.has_building(b),
        ensures
            r.id == self.spec_building_to_road(b),
            self.has_road(r.id),
            *r == self.roads[r.id.0 as int],
    {
        let lane = self.buildings[b.0].front_path.lane;
        &self.roads[self.lanes[lane.0].parent.0]
    }

    /// The roads that meet `r` at either of its ends.
    pub fn get_next_roads(&self, r: RoadID) -> (next: &Vec<RoadID>)
        requires
            self.wf(),
            self.has_road(r),
        ensures
            next@ == self.roads[r.0 as int].next_roads@,
            roads_below(next@, self.roads.len() as int),
    {
        &self.roads[r.0].next_roads
    }

    /// The transit-route query: the ride to take between two points on
    /// sidewalks, if transit serves the walk.
    pub fn should_use_transit(&self, start: Position, goal: Position) -> (ride: Option<
        TransitRide,
    >)
        ensures
            ride == self.spec_should_use_transit(start, goal),
    {
        let mut k: usize = 0;
        while k < self.transit_rides.len()
            invariant
                k <= self.transit_rides.len(),
                self.first_ride(start.lane, goal.lane, k as int) is None,
            decreases self.transit_rides.len() - k,
        {
            let r = self.transit_rides[k];
            if r.from == start.lane && r.to == goal.lane {
                proof {
                    self.lemma_first_ride_stays(start.lane, goal.lane, k as int + 1);
                }
                return Some(r);
            }
            k += 1;
        }
        None
    }

    /// Once a ride is found among the first `n` answers, more answers do
    /// not change it.
    proof fn lemma_first_ride_stays(&self, from: LaneID, to: LaneID, n: int)
        requires
            0 <= n <= self.transit_rides.len(),
            self.first_ride(from, to, n) is Some,
        ensures
            self.first_ride(from, to, self.transit_rides.len() as int) == self.first_ride(
                from,
                to,
                n,
            ),
        decreases self.transit_rides.len() - n,
    {
        if n < self.transit_rides.len() {
            self.lemma_first_ride_stays(from, to, n + 1);
        }
    }
}

/// Whether every lane of `ids` is a lane of `lanes` whose parent is
/// `road`.
pub fn are_children(ids: &Vec<LaneID>, lanes: &Vec<Lane>, road: RoadID) -> (ok: bool)
    ensures
        ok == children_of(ids@, lanes@, road),
{
    let mut k: usize = 0;
    while k < ids.len()
        invariant
            k <= ids.len(),
            forall|j: int|
                0 <= j < k ==> (#[trigger] ids[j]).0 < lanes.len() && lanes[ids[j].0 as int].parent
                    == road,
        decreases ids.len() - k,
    {
        if ids[k].0 >= lanes.len() || lanes[ids[k].0].parent != road {
            return false;
        }
        k += 1;
    }
    true
}

/// Whether no lane is in both lists, or twice in one.
pub fn are_distinct(first: &Vec<LaneID>, second: &Vec<LaneID>) -> (ok: bool)
    ensures
        ok == (first@ + second@).no_duplicates(),
{
    let ghost all = first@ + second@;
    let n = first.len();
    let m = second.len();
    let mut j: usize = 0;
    while j < n
        invariant
            j <= n,
            n == first.len(),
            m == second.len(),
            all == first@ + second@,
            forall|a: int, b: int| 0 <= a < b < j ==> (#[trigger] all[a]) != (#[trigger] all[b]),
        decreases n - j,
    {
        let mut k: usize = 0;
        while k < j
            invariant
                k <= j < n,
                n == first.len(),
                all == first@ + second@,
                forall|a: int| 0 <= a < k ==> (#[trigger] all[a]) != all[j as int],
            decreases j - k,
        {
            if first[k] == first[j] {
                assert(all[k as int] == all[j as int]);
                return false;
            }
            k += 1;
        }
        j += 1;
    }
    let mut j: usize = 0;
    while j < m
        invariant
            j <= m,
            n == first.len(),
            m == second.len(),
            all == first@ + second@,
            forall|a: int, b: int| 0 <= a < b < n + j ==> (#[trigger] all[a]) != (#[trigger] all[b]),
        decreases m - j,
    {
        let mut k: usize = 0;
        while k < n
            invariant
                k <= n,
                j < m,
                n == first.len(),
                m == second.len(),
                all == first@ + second@,
                forall|a: int| 0 <= a < k ==> (#[trigger] all[a]) != all[n + j],
            decreases n - k,
        {
            if first[k] == second[j] {
                assert(all[k as int] == all[n + j]);
                return false;
            }
            k += 1;
        }
        let mut k: usize = 0;
        while k < j
            invariant
                k <= j < m,
                n == first.len(),
                m == second.len(),
                all == first@ + second@,
                forall|a: int| 0 <= a < n + k ==> (#[trigger] all[a]) != all[n + j],
            decreases j - k,
        {
            if second[k] == second[j] {
                assert(all[n + k] == all[n + j]);
                return false;
            }
            k += 1;
        }
        j += 1;
    }
    true
}

/// Whether every lane of `ids` is a lane of a table with `n` lanes.
pub fn are_lanes(ids: &Vec<LaneID>, n: usize) -> (ok: bool)
    ensures
        ok == lanes_below(ids@, n as int),
{
    let mut k: usize = 0;
    while k < ids.len()
        invariant
            k <= ids.len(),
            forall|j: int| 0 <= j < k ==> (#[trigger] ids[j]).0 < n,
        decreases ids.len() - k,
    {
        if ids[k].0 >= n {
            return false;
        }
        k += 1;
    }
    true
}

/// Whether every road of `ids` is a road of a table with `n` roads.
pub fn are_roads(ids: &Vec<RoadID>, n: usize) -> (ok: bool)
    ensures
        ok == roads_below(ids@, n as int),
{
    let mut k: usize = 0;
    while k < ids.len()
        invariant
            k <= ids.len(),
            forall|j: int| 0 <= j < k ==> (#[trigger] ids[j]).0 < n,
        decreases ids.len() - k,
    {
        if ids[k].0 >= n {
            return false;
        }
        k += 1;
    }
    true
}

impl RoadMap {
    /// Whether the tables agree with each other.
    pub fn check(&self) -> (ok: bool)
        ensures
            ok == self.wf(),
    {
        let mut i: usize = 0;
        while i < self.roads.len()
            invariant
                i <= self.roads.len(),
                forall|k: int|
                    0 <= k < i ==> (#[trigger] self.roads[k]).id.0 == k && self.roads[k].wf(
                        self.roads.len() as int,
                        self.lanes@,
                    ),
            decreases self.roads.len() - i,
        {
            let r = &self.roads[i];
            if r.id.0 != i || !are_children(&r.children_forwards, &self.lanes, r.id)
                || !are_children(&r.children_backwards, &self.lanes, r.id) || !are_distinct(
                &r.children_forwards,
                &r.children_backwards,
            ) || !are_roads(&r.next_roads, self.roads.len()) {
                return false;
            }
            i += 1;
        }
        let mut i: usize = 0;
        while i < self.lanes.len()
            invariant
                i <= self.lanes.len(),
                forall|k: int|
                    0 <= k < i ==> (#[trigger] self.lanes[k]).id.0 == k && self.lanes[k].parent.0
                        < self.roads.len(),
            decreases self.lanes.len() - i,
        {
            if self.lanes[i].id.0 != i || self.lanes[i].parent.0 >= self.roads.len() {
                return false;
            }
            i += 1;
        }
        let mut i: usize = 0;
        while i < self.intersections.len()
            invariant
                i <= self.intersections.len(),
                forall|k: int|
                    0 <= k < i ==> (#[trigger] self.intersections[k]).id.0 == k
                        && self.intersections[k].wf(self.lanes.len() as int),
            decreases self.intersections.len() - i,
        {
            let x = &self.intersections[i];
            if x.id.0 != i || !are_lanes(&x.incoming_lanes, self.lanes.len()) || !are_lanes(
                &x.outgoing_lanes,
                self.lanes.len(),
            ) {
                return false;
            }
            i += 1;
        }
        let mut i: usize = 0;
        while i < self.buildings.len()
            invariant
                i <= self.buildings.len(),
                forall|k: int|
                    0 <= k < i ==> (#[trigger] self.buildings[k]).id.0 == k
                        && self.buildings[k].front_path.lane.0 < self.lanes.len(),
            decreases self.buildings.len() - i,
        {
            if self.buildings[i].id.0 != i || self.buildings[i].front_path.lane.0
                >= self.lanes.len() {
                return false;
            }
            i += 1;
        }
        true
    }
}

/// Whether `id` is among `ids`.
pub fn has_lane_id(ids: &Vec<LaneID>, id: LaneID) -> (found: bool)
    ensures
        found == ids@.contains(id),
{
    let mut k: usize = 0;
    while k < ids.len()
        invariant
            k <= ids.len(),
            forall|j: int| 0 <= j < k ==> ids[j] != id,
        decreases ids.len() - k,
    {
        if ids[k] == id {
            return true;
        }
        k += 1;
    }
    false
}

impl Road {
    /// The lanes that run in the direction of `lane`: the forward lanes
    /// if it is one of them, else the backward lanes.
    pub open spec fn siblings(&self, lane: LaneID) -> Seq<LaneID> {
        if self.children_forwards@.contains(lane) {
            self.children_forwards@
        } else {
            self.children_backwards@
        }
    }
}

impl RoadMap {
    /// The first lane of the given type that runs beside `lane`, on the
    /// same road and in the same direction.
    pub open spec fn spec_find_sibling(&self, lane: LaneID, lane_type: LaneType) -> Option<LaneID> {
        let road = self.roads[self.lanes[lane.0 as int].parent.0 as int];
        let found = lanes_of_type(road.siblings(lane), self.lanes@, lane_type);
        if found.len() > 0 {
            Some(found[0])
        } else {
            None
        }
    }

    /// The first lane of the given type that runs beside `lane`.
    pub fn find_sibling(&self, lane: LaneID, lane_type: LaneType) -> (found: Option<LaneID>)
        requires
            self.wf(),
            self.has_lane(lane),
        ensures
            found == self.spec_find_sibling(lane, lane_type),
            found is Some ==> self.has_lane(found.unwrap()) && self.lanes[found.unwrap().0 as int].lane_type
                == lane_type,
    {
        let road = self.get_parent(lane);
        let siblings = if has_lane_id(&road.children_forwards, lane) {
            &road.children_forwards
        } else {
            &road.children_backwards
        };
        let found = select_lanes(siblings, self, lane_type);
        if found.len() > 0 {
            proof {
                let keep = |l: LaneID| self.lanes@[l.0 as int].lane_type == lane_type;
                siblings@.lemma_filter_pred(keep, 0);
                assert(siblings@.filter(keep).contains(found[0]));
                siblings@.lemma_filter_contains_rev(keep, found[0]);
                let j = choose|j: int| 0 <= j < siblings.len() && siblings[j] == found[0];
                assert(siblings[j].0 < self.lanes.len());
            }
            Some(found[0])
        } else {
            None
        }
    }

    /// The parking lane beside a driving lane, if there is one.
    pub fn find_parking_lane(&self, driving: LaneID) -> (found: Option<LaneID>)
        requires
            self.wf(),
            self.has_lane(driving),
        ensures
            found == self.spec_find_sibling(driving, LaneType::Parking),
            found is Some ==> self.has_lane(found.unwrap()),
    {
        self.find_sibling(driving, LaneType::Parking)
    }

    /// The driving lane beside a parking lane, if there is one.
    pub fn find_driving_lane(&self, parking: LaneID) -> (found: Option<LaneID>)
        requires
            self.wf(),
            self.has_lane(parking),
        ensures
            found == self.spec_find_sibling(parking, LaneType::Driving),
            found is Some ==> self.has_lane(found.unwrap()),
    {
        self.find_sibling(parking, LaneType::Driving)
    }
}

} // verus!
