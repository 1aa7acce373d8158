//! The goal resolver: turns an abstract origin or destination, a named
//! neighborhood or a border of the map, into a concrete goal for a given
//! mode of travel.

use vstd::prelude::*;
use rand_xorshift::XorShiftRng;
use crate::ids::{BuildingID, IntersectionID, LaneID};
use crate::map::{LaneType, RoadMap, lanes_of_type};
use crate::neighborhood::Neighborhoods;
use crate::random::{choose_one, fork_rng};
use crate::report::{Timer, Warning};
use crate::trips::{DrivingGoal, SidewalkSpot};

verus! {

/// Where a trip starts or ends, before it is known how the trip is made.
#[derive(Clone, Debug)]
pub enum OriginDestination {
    /// Somewhere in the neighborhood of this name.
    Neighborhood(String),
    /// At this intersection on the border of the map.
    Border(IntersectionID),
}

/// The first of `first` if it has any, else the first of `second`.
pub open spec fn first_of_either(first: Seq<LaneID>, second: Seq<LaneID>) -> Option<LaneID> {
    if first.len() > 0 {
        Some(first[0])
    } else if second.len() > 0 {
        Some(second[0])
    } else {
        None
    }
}

impl OriginDestination {
    /// The neighborhood is defined and has a building, or the border is an
    /// intersection of the map.
    pub open spec fn usable(&self, map: &RoadMap, neighborhoods: &Neighborhoods) -> bool {
        match self {
            OriginDestination::Neighborhood(n) => neighborhoods.defines(n@) && neighborhoods.get(
                n@,
            ).buildings.len() > 0,
            OriginDestination::Border(i) => map.has_intersection(*i),
        }
    }

    /// Whether the neighborhood is defined and has a building, or the
    /// border is an intersection of the map.
    pub fn is_usable(&self, map: &RoadMap, neighborhoods: &Neighborhoods) -> (ok: bool)
        ensures
            ok == self.usable(map, neighborhoods),
    {
        match self {
            OriginDestination::Neighborhood(n) => match neighborhoods.find(n) {
                Some(at) => neighborhoods.all[at].buildings.len() > 0,
                None => false,
            },
            OriginDestination::Border(i) => i.0 < map.intersections.len(),
        }
    }

    /// Whether `to` can be the building drawn for this destination: one
    /// of the neighborhood's buildings, or none for a border.
    pub open spec fn can_draw(&self, neighborhoods: &Neighborhoods, to: Option<BuildingID>) -> bool {
        match self {
            OriginDestination::Neighborhood(n) => to is Some && neighborhoods.get(
                n@,
            ).buildings@.contains(to.unwrap()),
            OriginDestination::Border(_) => to is None,
        }
    }

    /// The lanes of a type that end at the border.
    pub open spec fn lanes_into(map: &RoadMap, i: IntersectionID, lane_type: LaneType) -> Seq<
        LaneID,
    > {
        lanes_of_type(map.intersections[i.0 as int].incoming_lanes@, map.lanes@, lane_type)
    }

    /// The goal of a drive: to park near the drawn building, or to leave
    /// by the first driving lane that ends at the border. Unresolved when
    /// no driving lane ends there.
    pub open spec fn spec_driving_goal(&self, map: &RoadMap, to: Option<BuildingID>) -> Option<
        DrivingGoal,
    > {
        match self {
            OriginDestination::Neighborhood(_) => match to {
                Some(b) => Some(DrivingGoal::ParkNear(b)),
                None => None,
            },
            OriginDestination::Border(i) => {
                let lanes = Self::lanes_into(map, *i, LaneType::Driving);
                if lanes.len() == 0 {
                    None
                } else {
                    Some(DrivingGoal::Border(*i, lanes[0]))
                }
            },
        }
    }

    /// The goal of a bike ride: to park near the drawn building, or to
    /// leave by the first biking lane that ends at the border, or, if
    /// there is none, by the first driving lane. Unresolved when neither
    /// kind of lane ends there.
    pub open spec fn spec_biking_goal(&self, map: &RoadMap, to: Option<BuildingID>) -> Option<
        DrivingGoal,
    > {
        match self {
            OriginDestination::Neighborhood(_) => match to {
                Some(b) => Some(DrivingGoal::ParkNear(b)),
                None => None,
            },
            OriginDestination::Border(i) => match first_of_either(
                Self::lanes_into(map, *i, LaneType::Biking),
                Self::lanes_into(map, *i, LaneType::Driving),
            ) {
                Some(l) => Some(DrivingGoal::Border(*i, l)),
                None => None,
            },
        }
    }

    /// The goal of a walk: the front of the drawn building, or the end of
    /// the first sidewalk that reaches the border. Unresolved when no
    /// sidewalk reaches it.
    pub open spec fn spec_walking_goal(&self, map: &RoadMap, to: Option<BuildingID>) -> Option<
        SidewalkSpot,
    > {
        match self {
            OriginDestination::Neighborhood(_) => match to {
                Some(b) => Some(SidewalkSpot::spec_building(b, map)),
                None => None,
            },
            OriginDestination::Border(i) => SidewalkSpot::spec_end_at_border(*i, map),
        }
    }

    /// A drive to this destination has a goal: always for a neighborhood,
    /// and for a border if a driving lane ends there.
    pub open spec fn drive_resolves(&self, map: &RoadMap) -> bool {
        self is Neighborhood || self.spec_driving_goal(map, None) is Some
    }

    /// A bike ride to this destination has a goal: always for a
    /// neighborhood, and for a border if a biking lane or a driving lane
    /// ends there.
    pub open spec fn ride_resolves(&self, map: &RoadMap) -> bool {
        self is Neighborhood || self.spec_biking_goal(map, None) is Some
    }

    /// A walk to this destination has a goal: always for a neighborhood,
    /// and for a border if a sidewalk reaches it.
    pub open spec fn walk_resolves(&self, map: &RoadMap) -> bool {
        self is Neighborhood || self.spec_walking_goal(map, None) is Some
    }

    /// The goal of a drive, for the building that was drawn.
    pub fn driving_goal(&self, map: &RoadMap, to: Option<BuildingID>) -> (goal: Option<DrivingGoal>)
        requires
            map.wf(),
            self is Border ==> map.has_intersection(self->Border_0),
        ensures
            goal == self.spec_driving_goal(map, to),
    {
        match self {
            OriginDestination::Neighborhood(_) => match to {
                Some(b) => Some(DrivingGoal::ParkNear(b)),
                None => None,
            },
            OriginDestination::Border(i) => {
                let lanes = map.get_i(*i).get_incoming_lanes(map, LaneType::Driving);
                if lanes.len() == 0 {
                    None
                } else {
                    Some(DrivingGoal::Border(*i, lanes[0]))
                }
            },
        }
    }

    /// The goal of a bike ride, for the building that was drawn.
    pub fn biking_goal(&self, map: &RoadMap, to: Option<BuildingID>) -> (goal: Option<DrivingGoal>)
        requires
            map.wf(),
            self is Border ==> map.has_intersection(self->Border_0),
        ensures
            goal == self.spec_biking_goal(map, to),
    {
        match self {
            OriginDestination::Neighborhood(_) => match to {
                Some(b) => Some(DrivingGoal::ParkNear(b)),
                None => None,
            },
            OriginDestination::Border(i) => {
                let biking = map.get_i(*i).get_incoming_lanes(map, LaneType::Biking);
                if biking.len() > 0 {
                    return Some(DrivingGoal::Border(*i, biking[0]));
                }
                let driving = map.get_i(*i).get_incoming_lanes(map, LaneType::Driving);
                if driving.len() > 0 {
                    return Some(DrivingGoal::Border(*i, driving[0]));
                }
                None
            },
        }
    }

    /// The goal of a walk, for the building that was drawn.
    pub fn walking_goal(&self, map: &RoadMap, to: Option<BuildingID>) -> (goal: Option<SidewalkSpot>)
        requires
            map.wf(),
            self is Border ==> map.has_intersection(self->Border_0),
            self is Neighborhood && to is Some ==> map.has_building(to.unwrap()),
        ensures
            goal == self.spec_walking_goal(map, to),
    {
        match self {
            OriginDestination::Neighborhood(_) => match to {
                Some(b) => Some(SidewalkSpot::building(b, map)),
                None => None,
            },
            OriginDestination::Border(i) => SidewalkSpot::end_at_border(*i, map),
        }
    }

    /// Draws the building at which a trip to this destination ends: one
    /// of the neighborhood's buildings, from a stream forked from `rng`.
    /// A border needs no draw.
    pub fn pick_building(&self, neighborhoods: &Neighborhoods, rng: &mut XorShiftRng) -> (to: Option<
        BuildingID,
    >)
        requires
            self is Neighborhood ==> neighborhoods.defines(self->Neighborhood_0@)
                && neighborhoods.get(self->Neighborhood_0@).buildings.len() > 0,
        ensures
            self.can_draw(neighborhoods, to),
            self is Border ==> *final(rng) == *old(rng),
    {
        match self {
            OriginDestination::Neighborhood(n) => {
                let at = neighborhoods.find(n).unwrap();
                let mut forked_rng = fork_rng(rng);
                match choose_one(&neighborhoods.all[at].buildings, &mut forked_rng) {
                    Some(b) => Some(*b),
                    None => None,
                }
            },
            OriginDestination::Border(_) => None,
        }
    }

    /// Resolves the goal of a drive. A drive to a neighborhood ends at a
    /// random building of it. A drive to a border is unresolved exactly
    /// when no driving lane ends at the border; a warning then names the
    /// border.
    pub fn pick_driving_goal(
        &self,
        map: &RoadMap,
        neighborhoods: &Neighborhoods,
        rng: &mut XorShiftRng,
        timer: &mut Timer,
    ) -> (goal: Option<DrivingGoal>)
        requires
            map.wf(),
            self.usable(map, neighborhoods),
        ensures
            exists|to: Option<BuildingID>|
                self.can_draw(neighborhoods, to) && goal == self.spec_driving_goal(map, to),
            self is Border ==> *final(rng) == *old(rng),
            self is Neighborhood ==> goal is Some,
            self is Border ==> (goal is None <==> Self::lanes_into(
                map,
                self->Border_0,
                LaneType::Driving,
            ).len() == 0),
            final(timer).notes == old(timer).notes,
            final(timer).warnings@ == match (goal, *self) {
                (None, OriginDestination::Border(i)) => old(timer).warnings@.push(
                    Warning::NoDrivingGoalAtBorder { border: i },
                ),
                _ => old(timer).warnings@,
            },
    {
        let to = self.pick_building(neighborhoods, rng);
        let goal = self.driving_goal(map, to);
        if let OriginDestination::Border(i) = self {
            if goal.is_none() {
                timer.warn(Warning::NoDrivingGoalAtBorder { border: *i });
            }
        }
        goal
    }

    /// Resolves the goal of a bike ride. A ride to a neighborhood ends at
    /// a random building of it. A ride to a border is unresolved exactly
    /// when neither a biking lane nor a driving lane ends at the border;
    /// a warning then names the border.
    pub fn pick_biking_goal(
        &self,
        map: &RoadMap,
        neighborhoods: &Neighborhoods,
        rng: &mut XorShiftRng,
        timer: &mut Timer,
    ) -> (goal: Option<DrivingGoal>)
        requires
            map.wf(),
            self.usable(map, neighborhoods),
        ensures
            exists|to: Option<BuildingID>|
                self.can_draw(neighborhoods, to) && goal == self.spec_biking_goal(map, to),
            self is Border ==> *final(rng) == *old(rng),
            self is Neighborhood ==> goal is Some,
            self is Border ==> (goal is None <==> Self::lanes_into(
                map,
                self->Border_0,
                LaneType::Biking,
            ).len() == 0 && Self::lanes_into(map, self->Border_0, LaneType::Driving).len() == 0),
            final(timer).notes == old(timer).notes,
            final(timer).warnings@ == match (goal, *self) {
                (None, OriginDestination::Border(i)) => old(timer).warnings@.push(
                    Warning::NoBikingGoalAtBorder { border: i },
                ),
                _ => old(timer).warnings@,
            },
    {
        let to = self.pick_building(neighborhoods, rng);
        let goal = self.biking_goal(map, to);
        if let OriginDestination::Border(i) = self {
            if goal.is_none() {
                timer.warn(Warning::NoBikingGoalAtBorder { border: *i });
            }
        }
        goal
    }

    /// Resolves the goal of a walk. A walk to a neighborhood ends at the
    /// front of a random building of it. A walk to a border is unresolved
    /// exactly when no sidewalk reaches the border; a warning then names
    /// the border.
    pub fn pick_walking_goal(
        &self,
        map: &RoadMap,
        neighborhoods: &Neighborhoods,
        rng: &mut XorShiftRng,
        timer: &mut Timer,
    ) -> (goal: Option<SidewalkSpot>)
        requires
            map.wf(),
            neighborhoods.wf(map),
            self.usable(map, neighborhoods),
        ensures
            exists|to: Option<BuildingID>|
                self.can_draw(neighborhoods, to) && goal == self.spec_walking_goal(map, to),
            self is Border ==> *final(rng) == *old(rng),
            self is Neighborhood ==> goal is Some,
            self is Border ==> (goal is None <==> Self::lanes_into(
                map,
                self->Border_0,
                LaneType::Sidewalk,
            ).len() == 0),
            final(timer).notes == old(timer).notes,
            final(timer).warnings@ == match (goal, *self) {
                (None, OriginDestination::Border(i)) => old(timer).warnings@.push(
                    Warning::NoWalkingGoalAtBorder { border: i },
                ),
                _ => old(timer).warnings@,
            },
    {
        let to = self.pick_building(neighborhoods, rng);
        proof {
            if let OriginDestination::Neighborhood(n) = self {
                let nb = neighborhoods.get(n@);
                crate::neighborhood::lemma_find_upto(
                    neighborhoods.all@,
                    n@,
                    neighborhoods.all.len() as int,
                );
                let k = choose|k: int| 0 <= k < nb.buildings.len() && nb.buildings[k] == to.unwrap();
                assert(map.has_building(nb.buildings[k]));
            }
        }
        let goal = self.walking_goal(map, to);
        if let OriginDestination::Border(i) = self {
            if goal.is_none() {
                timer.warn(Warning::NoWalkingGoalAtBorder { border: *i });
            }
        }
        goal
    }
}

} // verus!
