//! The realization of scheduled trips: the order in which they are
//! realized, and the agents that come of them.

use vstd::prelude::*;
use crate::driving::{DrivingCar, On};
use crate::ids::{CarID, PedestrianID};
use crate::map::RoadMap;
use crate::sim::Sim;
use crate::trips::TripSpec;
use crate::units::Tick;
use crate::walking::Pedestrian;

verus! {

/// A scheduled trip: when it starts, and how it is made.
pub type Scheduled = (Tick, TripSpec);

/// `sorted` with `e` put behind every entry that starts no later than
/// `e` does.
pub open spec fn insert_by_time(sorted: Seq<Scheduled>, e: Scheduled) -> Seq<Scheduled>
    decreases sorted.len(),
{
    if sorted.len() == 0 {
        seq![e]
    } else if sorted.last().0.0 <= e.0.0 {
        sorted.push(e)
    } else {
        insert_by_time(sorted.drop_last(), e).push(sorted.last())
    }
}

/// The trips in the order in which they are realized: by the time at
/// which they start and, among those that start together, in the order
/// in which they were scheduled.
pub open spec fn sort_by_time(trips: Seq<Scheduled>) -> Seq<Scheduled>
    decreases trips.len(),
{
    if trips.len() == 0 {
        trips
    } else {
        insert_by_time(sort_by_time(trips.drop_last()), trips.last())
    }
}

/// No trip starts before the one in front of it.
pub open spec fn sorted_by_time(trips: Seq<Scheduled>) -> bool {
    forall|i: int, j: int| 0 <= i <= j < trips.len() ==> trips[i].0.0 <= trips[j].0.0
}

/// Putting an entry in at position `p` is what `insert_by_time` does, if
/// every entry from `p` on starts later than the new one and the entry
/// before `p` does not.
pub proof fn lemma_insert_at(sorted: Seq<Scheduled>, e: Scheduled, p: int)
    requires
        0 <= p <= sorted.len(),
        forall|k: int| p <= k < sorted.len() ==> sorted[k].0.0 > e.0.0,
        p > 0 ==> sorted[p - 1].0.0 <= e.0.0,
    ensures
        insert_by_time(sorted, e) == sorted.insert(p, e),
    decreases sorted.len() - p,
{
    if p == sorted.len() {
        if sorted.len() == 0 {
            assert(sorted.insert(p, e) =~= seq![e]);
        } else {
            assert(sorted.insert(p, e) =~= sorted.push(e));
        }
    } else {
        lemma_insert_at(sorted.drop_last(), e, p);
        assert(sorted.insert(p, e) =~= sorted.drop_last().insert(p, e).push(sorted.last()));
    }
}

/// Putting an entry into sorted trips leaves them sorted, one longer, and
/// holding what they held and the entry.
pub proof fn lemma_insert_sorted(sorted: Seq<Scheduled>, e: Scheduled)
    requires
        sorted_by_time(sorted),
    ensures
        sorted_by_time(insert_by_time(sorted, e)),
        insert_by_time(sorted, e).len() == sorted.len() + 1,
        insert_by_time(sorted, e).to_multiset() == sorted.to_multiset().insert(e),
    decreases sorted.len(),
{
    broadcast use vstd::seq_lib::group_to_multiset_ensures;

    if sorted.len() == 0 {
        assert(seq![e] =~= sorted.push(e));
    } else if sorted.last().0.0 <= e.0.0 {
    } else {
        let rest = sorted.drop_last();
        lemma_insert_sorted(rest, e);
        let inner = insert_by_time(rest, e);
        let out = inner.push(sorted.last());
        assert(sorted =~= rest.push(sorted.last()));
        assert forall|i: int, j: int| 0 <= i <= j < out.len() implies out[i].0.0
            <= out[j].0.0 by {
            if j == out.len() - 1 && i < j {
                assert(inner.to_multiset().count(inner[i]) > 0);
                if inner[i] != e {
                    assert(rest.to_multiset().count(inner[i]) > 0);
                    assert(rest.contains(inner[i]));
                    let k = choose|k: int| 0 <= k < rest.len() && rest[k] == inner[i];
                    assert(sorted[k].0.0 <= sorted[sorted.len() - 1].0.0);
                }
            }
        }
        assert(out.to_multiset() =~= sorted.to_multiset().insert(e));
    }
}

/// The sorted trips are sorted, and are the trips in another order.
pub proof fn lemma_sort_by_time(trips: Seq<Scheduled>)
    ensures
        sorted_by_time(sort_by_time(trips)),
        sort_by_time(trips).len() == trips.len(),
        sort_by_time(trips).to_multiset() == trips.to_multiset(),
    decreases trips.len(),
{
    broadcast use vstd::seq_lib::group_to_multiset_ensures;

    if trips.len() > 0 {
        lemma_sort_by_time(trips.drop_last());
        lemma_insert_sorted(sort_by_time(trips.drop_last()), trips.last());
        assert(trips =~= trips.drop_last().push(trips.last()));
    }
}

/// Trips that are scheduled in the order of their times are realized in
/// the order in which they were scheduled.
pub proof fn lemma_sort_keeps_sorted(trips: Seq<Scheduled>)
    requires
        sorted_by_time(trips),
    ensures
        sort_by_time(trips) == trips,
    decreases trips.len(),
{
    if trips.len() > 0 {
        lemma_sort_keeps_sorted(trips.drop_last());
        if trips.len() > 1 {
            assert(trips.drop_last().last().0.0 <= trips.last().0.0);
        }
        assert(trips =~= trips.drop_last().push(trips.last()));
    }
}

/// Puts `e` into sorted trips, behind every entry that starts no later.
pub fn insert_trip(sorted: &mut Vec<Scheduled>, e: Scheduled)
    ensures
        final(sorted)@ == insert_by_time(old(sorted)@, e),
{
    let mut p: usize = sorted.len();
    while p > 0 && sorted[p - 1].0.0 > e.0.0
        invariant
            p <= sorted.len(),
            *sorted == *old(sorted),
            forall|k: int| p <= k < sorted.len() ==> sorted[k].0.0 > e.0.0,
        decreases p,
    {
        p -= 1;
    }
    proof {
        lemma_insert_at(sorted@, e, p as int);
    }
    sorted.insert(p, e);
}

/// The trips in the order in which they are realized.
pub fn sort_trips(trips: &Vec<Scheduled>) -> (sorted: Vec<Scheduled>)
    ensures
        sorted@ == sort_by_time(trips@),
{
    let mut sorted: Vec<Scheduled> = Vec::new();
    let mut i: usize = 0;
    while i < trips.len()
        invariant
            i <= trips.len(),
            sorted@ == sort_by_time(trips@.take(i as int)),
        decreases trips.len() - i,
    {
        proof {
            assert(trips@.take(i + 1).drop_last() == trips@.take(i as int));
        }
        insert_trip(&mut sorted, trips[i]);
        i += 1;
    }
    proof {
        assert(trips@.take(i as int) == trips@);
    }
    sorted
}

/// The agents that are out, and the identifiers that the next ones get.
pub struct Agents {
    pub cars: Seq<DrivingCar>,
    pub peds: Seq<Pedestrian>,
    pub next_car: int,
    pub next_ped: int,
}

/// Where a trip starts on foot, if it does.
pub open spec fn starts_on_foot(trip: TripSpec) -> Option<crate::trips::SidewalkSpot> {
    match trip {
        TripSpec::CarAppearing(_, _, _) => None,
        TripSpec::UsingParkedCar(start, _, _) => Some(start),
        TripSpec::JustWalking(start, _) => Some(start),
        TripSpec::UsingBike(start, _, _) => Some(start),
        TripSpec::UsingTransit(start, _, _, _, _) => Some(start),
    }
}

/// The agents after one more trip is realized. A vehicle that appears on
/// a lane becomes a new car on the road, at its place, held up by
/// nothing. Any other trip starts on foot: a new pedestrian stands where
/// the trip starts.
pub open spec fn realize(a: Agents, trip: TripSpec) -> Agents {
    match trip {
        TripSpec::CarAppearing(pos, vehicle, _) => Agents {
            cars: a.cars.push(
                DrivingCar {
                    vehicle: vehicle.make(CarID(a.next_car as usize)),
                    on: On::Lane(pos.lane),
                    front: pos.dist_along,
                    waiting_for: None,
                    debug: false,
                },
            ),
            next_car: a.next_car + 1,
            ..a
        },
        _ => {
            let start = starts_on_foot(trip).unwrap();
            Agents {
                peds: a.peds.push(
                    Pedestrian {
                        id: PedestrianID(a.next_ped as usize),
                        on: On::Lane(start.sidewalk_pos.lane),
                        dist_along: start.sidewalk_pos.dist_along,
                    },
                ),
                next_ped: a.next_ped + 1,
                ..a
            }
        },
    }
}

/// The agents after the first `n` of the trips are realized, one after
/// the other.
pub open spec fn realize_all(a: Agents, trips: Seq<Scheduled>, n: int) -> Agents
    decreases n,
{
    if n <= 0 {
        a
    } else {
        realize(realize_all(a, trips, n - 1), trips[n - 1].1)
    }
}

impl Sim {
    /// The agents that are out.
    pub open spec fn agents(&self) -> Agents {
        Agents {
            cars: self.driving_state.cars@,
            peds: self.walking_state.peds@,
            next_car: self.car_id_counter as int,
            next_ped: self.ped_id_counter as int,
        }
    }

    /// Realizes one trip: the agent that makes it comes to be.
    pub fn realize_trip(&mut self, start_time: Tick, spec: TripSpec)
        requires
            old(self).wf(),
            old(self).car_id_counter < usize::MAX,
            old(self).ped_id_counter < usize::MAX,
        ensures
            final(self).wf(),
            final(self).agents() == realize(old(self).agents(), spec),
            final(self).realized_trips@ == old(self).realized_trips@.push((start_time, spec)),
            final(self).queued_trips == old(self).queued_trips,
            final(self).rng == old(self).rng,
            final(self).time == old(self).time,
            final(self).debug == old(self).debug,
            final(self).parking_state == old(self).parking_state,
            final(self).driving_state.lanes == old(self).driving_state.lanes,
            final(self).driving_state.turns == old(self).driving_state.turns,
            final(self).driving_state.stepped_at == old(self).driving_state.stepped_at,
            final(self).walking_state.lanes == old(self).walking_state.lanes,
            final(self).walking_state.turns == old(self).walking_state.turns,
    {
        match spec {
            TripSpec::CarAppearing(pos, vehicle, _) => {
                self.driving_state.cars.push(
                    DrivingCar {
                        vehicle: vehicle.make(CarID(self.car_id_counter)),
                        on: On::Lane(pos.lane),
                        front: pos.dist_along,
                        waiting_for: None,
                        debug: false,
                    },
                );
                self.car_id_counter = self.car_id_counter + 1;
            },
            TripSpec::UsingParkedCar(start, _, _) => {
                self.add_pedestrian(start.sidewalk_pos);
            },
            TripSpec::JustWalking(start, _) => {
                self.add_pedestrian(start.sidewalk_pos);
            },
            TripSpec::UsingBike(start, _, _) => {
                self.add_pedestrian(start.sidewalk_pos);
            },
            TripSpec::UsingTransit(start, _, _, _, _) => {
                self.add_pedestrian(start.sidewalk_pos);
            },
        }
        self.realized_trips.push((start_time, spec));
    }

    /// A new pedestrian comes to stand at `at`.
    pub(crate) fn add_pedestrian(&mut self, at: crate::map::Position)
        requires
            old(self).wf(),
            old(self).ped_id_counter < usize::MAX,
        ensures
            final(self).wf(),
            final(self).walking_state.peds@ == old(self).walking_state.peds@.push(
                Pedestrian {
                    id: PedestrianID(old(self).ped_id_counter),
                    on: On::Lane(at.lane),
                    dist_along: at.dist_along,
                },
            ),
            final(self).ped_id_counter == old(self).ped_id_counter + 1,
            final(self).car_id_counter == old(self).car_id_counter,
            final(self).driving_state == old(self).driving_state,
            final(self).parking_state == old(self).parking_state,
            final(self).walking_state.lanes == old(self).walking_state.lanes,
            final(self).walking_state.turns == old(self).walking_state.turns,
            final(self).queued_trips == old(self).queued_trips,
            final(self).realized_trips == old(self).realized_trips,
            final(self).rng == old(self).rng,
            final(self).time == old(self).time,
            final(self).debug == old(self).debug,
    {
        self.walking_state.peds.push(
            Pedestrian {
                id: PedestrianID(self.ped_id_counter),
                on: On::Lane(at.lane),
                dist_along: at.dist_along,
            },
        );
        self.ped_id_counter = self.ped_id_counter + 1;
    }

    /// Realizes every trip of the queue, in the order of the times at
    /// which they start; trips that start together are realized in the
    /// order in which they were scheduled. The queue is empty afterwards.
    pub fn spawn_all_trips(&mut self, map: &RoadMap)
        requires
            old(self).wf(),
            old(self).car_id_counter + old(self).queued_trips.len() <= usize::MAX,
            old(self).ped_id_counter + old(self).queued_trips.len() <= usize::MAX,
        ensures
            final(self).wf(),
            final(self).queued_trips@.len() == 0,
            final(self).realized_trips@ == old(self).realized_trips@ + sort_by_time(
                old(self).queued_trips@,
            ),
            final(self).agents() == realize_all(
                old(self).agents(),
                sort_by_time(old(self).queued_trips@),
                old(self).queued_trips@.len() as int,
            ),
            final(self).rng == old(self).rng,
            final(self).time == old(self).time,
            final(self).debug == old(self).debug,
            final(self).parking_state == old(self).parking_state,
            final(self).driving_state.lanes == old(self).driving_state.lanes,
            final(self).driving_state.turns == old(self).driving_state.turns,
            final(self).driving_state.stepped_at == old(self).driving_state.stepped_at,
            final(self).walking_state.lanes == old(self).walking_state.lanes,
            final(self).walking_state.turns == old(self).walking_state.turns,
            final(self).car_id_counter <= old(self).car_id_counter + old(self).queued_trips.len(),
            final(self).car_id_counter >= old(self).car_id_counter,
    {
        let sorted = sort_trips(&self.queued_trips);
        self.queued_trips = Vec::new();
        proof {
            lemma_sort_by_time(old(self).queued_trips@);
            assert(self.realized_trips@ =~= old(self).realized_trips@ + sorted@.take(0));
        }
        let mut i: usize = 0;
        while i < sorted.len()
            invariant
                i <= sorted.len(),
                sorted@ == sort_by_time(old(self).queued_trips@),
                sorted.len() == old(self).queued_trips.len(),
                old(self).car_id_counter + old(self).queued_trips.len() <= usize::MAX,
                old(self).ped_id_counter + old(self).queued_trips.len() <= usize::MAX,
                self.wf(),
                self.queued_trips@.len() == 0,
                self.realized_trips@ == old(self).realized_trips@ + sorted@.take(i as int),
                self.agents() == realize_all(old(self).agents(), sorted@, i as int),
                old(self).car_id_counter <= self.car_id_counter <= old(self).car_id_counter + i,
                self.ped_id_counter <= old(self).ped_id_counter + i,
                self.rng == old(self).rng,
                self.time == old(self).time,
                self.debug == old(self).debug,
                self.parking_state == old(self).parking_state,
                self.driving_state.lanes == old(self).driving_state.lanes,
                self.driving_state.turns == old(self).driving_state.turns,
                self.driving_state.stepped_at == old(self).driving_state.stepped_at,
                self.walking_state.lanes == old(self).walking_state.lanes,
                self.walking_state.turns == old(self).walking_state.turns,
            decreases sorted.len() - i,
        {
            let (start_time, spec) = sorted[i];
            self.realize_trip(start_time, spec);
            proof {
                assert(sorted@.take(i + 1) =~= sorted@.take(i as int).push(sorted@[i as int]));
                assert(self.realized_trips@ =~= old(self).realized_trips@ + sorted@.take(i + 1));
            }
            i += 1;
        }
        proof {
            assert(sorted@.take(i as int) == sorted@);
        }
    }
}

} // verus!
