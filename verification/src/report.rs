//! What the demand generator has to tell its caller besides its result:
//! warnings about requests it could not serve, and notes on what it did.

use vstd::prelude::*;
use crate::ids::{BuildingID, IntersectionID, LaneID};
use crate::units::Distance;

verus! {

/// A request, or a part of one, that was skipped. None of these is fatal.
#[derive(Clone, Copy, Debug, PartialEq, Eq, Structural)]
pub enum Warning {
    /// The search for a free spot near the building ran out of roads.
    GaveUpParkingSearch { building: BuildingID, searched: usize, roads: usize },
    /// A vehicle asked for by the building could not be placed. The pass
    /// began with `total_spots` free spots for `buildings` buildings, each
    /// of which could ask for up to `most_each` cars, and had placed
    /// `new_cars` cars by then.
    NoRoomToSeed {
        building: BuildingID,
        total_spots: u128,
        most_each: usize,
        buildings: usize,
        new_cars: usize,
    },
    /// Pedestrians cannot start at the border: no sidewalk leaves it.
    NoSidewalkAtBorder { border: IntersectionID },
    /// Cars cannot start at the border: no driving lane leaves it.
    NoDrivingLaneAtBorder { border: IntersectionID },
    /// Cars cannot start at the border: the first driving lane that leaves
    /// it is shorter than the longest car.
    LaneTooShort { border: IntersectionID, lane: LaneID, length: Distance },
    /// Bikes cannot start at the border: no lane that takes bikes leaves it.
    NoBikeLaneAtBorder { border: IntersectionID },
    /// A drive cannot end at the border: no driving lane reaches it.
    NoDrivingGoalAtBorder { border: IntersectionID },
    /// A ride cannot end at the border: no biking or driving lane reaches
    /// it.
    NoBikingGoalAtBorder { border: IntersectionID },
    /// A walk cannot end at the border: no sidewalk reaches it.
    NoWalkingGoalAtBorder { border: IntersectionID },
}

/// Something that was done.
#[derive(Clone, Copy, Debug, PartialEq, Eq, Structural)]
pub enum Note {
    /// One pass of seeding parked vehicles placed `placed` of the
    /// `requested` vehicles, on `total_spots` free spots.
    SeededParkedCars { placed: usize, requested: usize, total_spots: u128 },
}

/// Collects warnings and notes in the order in which they were given.
#[derive(Clone, Debug)]
pub struct Timer {
    pub warnings: Vec<Warning>,
    pub notes: Vec<Note>,
}

/// How many of the warnings say that a vehicle could not be placed.
pub open spec fn count_no_room(warnings: Seq<Warning>) -> nat
    decreases warnings.len(),
{
    if warnings.len() == 0 {
        0
    } else if warnings.last() is NoRoomToSeed {
        count_no_room(warnings.drop_last()) + 1
    } else {
        count_no_room(warnings.drop_last())
    }
}

impl Timer {
    pub fn new() -> (t: Timer)
        ensures
            t.warnings@ == Seq::<Warning>::empty(),
            t.notes@ == Seq::<Note>::empty(),
    {
        Timer { warnings: Vec::new(), notes: Vec::new() }
    }

    /// Records a warning.
    pub fn warn(&mut self, w: Warning)
        ensures
            final(self).warnings@ == old(self).warnings@.push(w),
            final(self).notes == old(self).notes,
    {
        self.warnings.push(w);
    }

    /// Records a note.
    pub fn note(&mut self, n: Note)
        ensures
            final(self).notes@ == old(self).notes@.push(n),
            final(self).warnings == old(self).warnings,
    {
        self.notes.push(n);
    }
}

} // verus!
