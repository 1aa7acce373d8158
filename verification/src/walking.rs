//! The walking subsystem as the orchestrator sees it: the pedestrians
//! that are out, and which sidewalks and crossings are open to them.

use vstd::prelude::*;
use crate::driving::On;
use crate::ids::{LaneID, PedestrianID, TurnID};
use crate::idset::{IdSet, put_in, taken_out};
use crate::units::Distance;

verus! {

/// The record of one pedestrian who is out.
#[derive(Clone, Copy, Debug, PartialEq, Eq, Structural)]
pub struct Pedestrian {
    pub id: PedestrianID,
    pub on: On,
    /// The distance of the pedestrian from the start of what they are on.
    pub dist_along: Distance,
}

#[derive(Clone, Debug)]
pub struct WalkingSimState {
    pub peds: Vec<Pedestrian>,
    /// The sidewalks open to walking.
    pub lanes: IdSet,
    /// The crossings open to walking.
    pub turns: IdSet,
}

/// Every record is of a pedestrian whose identifier is below `bound`.
pub open spec fn peds_below(peds: Seq<Pedestrian>, bound: int) -> bool {
    forall|i: int| 0 <= i < peds.len() ==> (#[trigger] peds[i]).id.0 < bound
}

impl WalkingSimState {
    pub open spec fn wf(&self) -> bool {
        &&& self.lanes.wf()
        &&& self.turns.wf()
        &&& distinct_peds(self.peds@)
    }

    /// The state in which nobody walks yet, and no sidewalk or crossing
    /// is open.
    pub fn new() -> (s: WalkingSimState)
        ensures
            s.wf(),
            s.peds.len() == 0,
            s.lanes@ == Set::<usize>::empty(),
            s.turns@ == Set::<usize>::empty(),
            s.lanes.ids.len() == 0,
            s.turns.ids.len() == 0,
    {
        WalkingSimState { peds: Vec::new(), lanes: IdSet::new(), turns: IdSet::new() }
    }

    /// How many pedestrians are out.
    pub fn total_count(&self) -> (n: usize)
        ensures
            n == self.peds.len(),
    {
        self.peds.len()
    }

    /// Opens a sidewalk to walking. Opening an open one changes nothing.
    pub fn edit_add_lane(&mut self, id: LaneID)
        requires
            old(self).wf(),
        ensures
            final(self).wf(),
            final(self).lanes@ == old(self).lanes@.insert(id.0),
            final(self).lanes.ids@ == put_in(old(self).lanes.ids@, id.0),
            final(self).peds == old(self).peds,
            final(self).turns == old(self).turns,
    {
        self.lanes.insert(id.0);
    }

    /// Closes a sidewalk to walking. Closing a closed one changes nothing.
    pub fn edit_remove_lane(&mut self, id: LaneID)
        requires
            old(self).wf(),
        ensures
            final(self).wf(),
            final(self).lanes@ == old(self).lanes@.remove(id.0),
            final(self).lanes.ids@ == taken_out(old(self).lanes.ids@, id.0),
            final(self).peds == old(self).peds,
            final(self).turns == old(self).turns,
    {
        self.lanes.remove(id.0);
    }

    /// Opens a crossing to walking. Opening an open one changes nothing.
    pub fn edit_add_turn(&mut self, id: TurnID)
        requires
            old(self).wf(),
        ensures
            final(self).wf(),
            final(self).turns@ == old(self).turns@.insert(id.0),
            final(self).turns.ids@ == put_in(old(self).turns.ids@, id.0),
            final(self).peds == old(self).peds,
            final(self).lanes == old(self).lanes,
    {
        self.turns.insert(id.0);
    }

    /// Closes a crossing to walking. Closing a closed one changes nothing.
    pub fn edit_remove_turn(&mut self, id: TurnID)
        requires
            old(self).wf(),
        ensures
            final(self).wf(),
            final(self).turns@ == old(self).turns@.remove(id.0),
            final(self).turns.ids@ == taken_out(old(self).turns.ids@, id.0),
            final(self).peds == old(self).peds,
            final(self).lanes == old(self).lanes,
    {
        self.turns.remove(id.0);
    }
}

/// What the movement of pedestrians reports of one pedestrian after a
/// tick.
#[derive(Clone, Copy, Debug, PartialEq, Eq, Structural)]
pub enum PedEvent {
    /// The pedestrian is now at this place.
    Moved(PedestrianID, On, Distance),
    /// The pedestrian has arrived, and is out no more.
    Arrived(PedestrianID),
}

/// The position of the pedestrian `id` in `peds`, or the length of `peds`
/// if they are not there.
pub open spec fn index_of_ped(peds: Seq<Pedestrian>, id: PedestrianID) -> int
    decreases peds.len(),
{
    if peds.len() == 0 {
        0
    } else if peds[0].id == id {
        0
    } else {
        1 + index_of_ped(peds.drop_first(), id)
    }
}

/// What one report does to the records. A report about a pedestrian who
/// has no record changes nothing.
pub open spec fn apply_ped_event(peds: Seq<Pedestrian>, e: PedEvent) -> Seq<Pedestrian> {
    match e {
        PedEvent::Moved(id, on, dist_along) => {
            let i = index_of_ped(peds, id);
            if i < peds.len() {
                peds.update(i, Pedestrian { id, on, dist_along })
            } else {
                peds
            }
        },
        PedEvent::Arrived(id) => {
            let i = index_of_ped(peds, id);
            if i < peds.len() {
                peds.remove(i)
            } else {
                peds
            }
        },
    }
}

/// What the first `n` reports of `events` do to the records, one after
/// the other.
pub open spec fn apply_ped_events(peds: Seq<Pedestrian>, events: Seq<PedEvent>, n: int) -> Seq<
    Pedestrian,
>
    decreases n,
{
    if n <= 0 {
        peds
    } else {
        apply_ped_event(apply_ped_events(peds, events, n - 1), events[n - 1])
    }
}

/// No two records are of the same pedestrian.
pub open spec fn distinct_peds(peds: Seq<Pedestrian>) -> bool {
    forall|i: int, j: int| 0 <= i < j < peds.len() ==> (#[trigger] peds[i]).id != (#[trigger] peds[j]).id
}

/// The position that `index_of_ped` gives is at most the length; a
/// position below the length is that of a record of the pedestrian.
pub proof fn lemma_index_of_ped(peds: Seq<Pedestrian>, id: PedestrianID)
    ensures
        0 <= index_of_ped(peds, id) <= peds.len(),
        index_of_ped(peds, id) < peds.len() ==> peds[index_of_ped(peds, id)].id == id,
    decreases peds.len(),
{
    if peds.len() > 0 && peds[0].id != id {
        lemma_index_of_ped(peds.drop_first(), id);
    }
}

/// Reports leave the records those of distinct pedestrians with
/// identifiers below the bound.
pub proof fn lemma_apply_ped_events(
    peds: Seq<Pedestrian>,
    events: Seq<PedEvent>,
    n: int,
    bound: int,
)
    requires
        distinct_peds(peds),
        peds_below(peds, bound),
    ensures
        distinct_peds(apply_ped_events(peds, events, n)),
        peds_below(apply_ped_events(peds, events, n), bound),
        apply_ped_events(peds, events, n).len() <= peds.len(),
    decreases n,
{
    if n > 0 {
        lemma_apply_ped_events(peds, events, n - 1, bound);
        let mid = apply_ped_events(peds, events, n - 1);
        let e = events[n - 1];
        let id = match e {
            PedEvent::Moved(id, _, _) => id,
            PedEvent::Arrived(id) => id,
        };
        lemma_index_of_ped(mid, id);
        let i = index_of_ped(mid, id);
        let after = apply_ped_event(mid, e);
        if i < mid.len() && e is Arrived {
            assert forall|a: int, b: int| 0 <= a < b < after.len() implies (#[trigger] after[a]).id
                != (#[trigger] after[b]).id by {
                let a0 = if a < i {
                    a
                } else {
                    a + 1
                };
                let b0 = if b < i {
                    b
                } else {
                    b + 1
                };
                assert(after[a] == mid[a0] && after[b] == mid[b0]);
            }
            assert forall|j: int| 0 <= j < after.len() implies (#[trigger] after[j]).id.0
                < bound by {
                let j0 = if j < i {
                    j
                } else {
                    j + 1
                };
                assert(after[j] == mid[j0]);
            }
        } else {
            assert forall|j: int| 0 <= j < after.len() implies (#[trigger] after[j]).id
                == mid[j].id by {}
        }
    }
}

impl WalkingSimState {
    /// Where the pedestrian's record is, if they have one.
    pub fn find(&self, id: PedestrianID) -> (at: Option<usize>)
        ensures
            at is None <==> index_of_ped(self.peds@, id) >= self.peds.len(),
            at is Some ==> at.unwrap() == index_of_ped(self.peds@, id),
            at is Some ==> self.peds[at.unwrap() as int].id == id,
    {
        let mut i: usize = 0;
        assert(self.peds@.skip(0) == self.peds@);
        while i < self.peds.len()
            invariant
                i <= self.peds.len(),
                index_of_ped(self.peds@, id) == i + index_of_ped(self.peds@.skip(i as int), id),
            decreases self.peds.len() - i,
        {
            proof {
                assert(self.peds@.skip(i as int).drop_first() == self.peds@.skip(i + 1));
            }
            if self.peds[i].id == id {
                return Some(i);
            }
            i += 1;
        }
        None
    }

    /// Applies what the movement of pedestrians reports of one tick,
    /// report by report.
    pub fn step(&mut self, events: &Vec<PedEvent>)
        requires
            old(self).wf(),
        ensures
            final(self).wf(),
            final(self).peds@ == apply_ped_events(old(self).peds@, events@, events.len() as int),
            final(self).lanes == old(self).lanes,
            final(self).turns == old(self).turns,
    {
        let mut k: usize = 0;
        while k < events.len()
            invariant
                k <= events.len(),
                self.peds@ == apply_ped_events(old(self).peds@, events@, k as int),
                self.lanes == old(self).lanes,
                self.turns == old(self).turns,
            decreases events.len() - k,
        {
            match events[k] {
                PedEvent::Moved(id, on, dist_along) => {
                    if let Some(i) = self.find(id) {
                        self.peds.set(i, Pedestrian { id, on, dist_along });
                    }
                },
                PedEvent::Arrived(id) => {
                    if let Some(i) = self.find(id) {
                        self.peds.remove(i);
                    }
                },
            }
            k += 1;
        }
        proof {
            lemma_apply_ped_events(old(self).peds@, events@, events.len() as int, usize::MAX + 1);
        }
    }
}

} // verus!
