//! The driving subsystem as the orchestrator sees it: the vehicles that
//! are on the road, what each waits for, and which lanes and turns are
//! open to driving. How vehicles move is not decided here; what the
//! movement reports each tick is applied here.

use vstd::prelude::*;
use crate::ids::{CarID, LaneID, TurnID};
use crate::idset::{IdSet, put_in, taken_out};
use crate::trips::Vehicle;
use crate::units::{Distance, Tick};

verus! {

/// A lane or a turn: the two things an agent can be on.
#[derive(Clone, Copy, Debug, PartialEq, Eq, Structural)]
pub enum On {
    Lane(LaneID),
    Turn(TurnID),
}

/// The driving record of one vehicle on the road.
#[derive(Clone, Copy, Debug, PartialEq, Eq, Structural)]
pub struct DrivingCar {
    pub vehicle: Vehicle,
    pub on: On,
    /// The distance of the vehicle's front from the start of what it is on.
    pub front: Distance,
    /// What the vehicle waits to enter, if it is blocked.
    pub waiting_for: Option<On>,
    pub debug: bool,
}

/// What the movement of vehicles reports of one vehicle after a tick.
#[derive(Clone, Copy, Debug, PartialEq, Eq, Structural)]
pub enum CarEvent {
    /// The vehicle is now at this place, and waits for nothing.
    Moved(CarID, On, Distance),
    /// The vehicle is blocked: it waits to enter the given lane or turn.
    Blocked(CarID, On),
    /// The vehicle has left the road.
    Vanished(CarID),
}

#[derive(Clone, Debug)]
pub struct DrivingSimState {
    pub cars: Vec<DrivingCar>,
    /// The lanes open to driving.
    pub lanes: IdSet,
    /// The turns open to driving.
    pub turns: IdSet,
    /// The time of the last step.
    pub stepped_at: Tick,
}

/// The position of the vehicle `id` in `cars`, or the length of `cars` if
/// it is not there.
pub open spec fn index_of_car(cars: Seq<DrivingCar>, id: CarID) -> int
    decreases cars.len(),
{
    if cars.len() == 0 {
        0
    } else if cars[0].vehicle.id == id {
        0
    } else {
        1 + index_of_car(cars.drop_first(), id)
    }
}

/// What one report does to the records. A report about a vehicle that has
/// no record changes nothing.
pub open spec fn apply_event(cars: Seq<DrivingCar>, e: CarEvent) -> Seq<DrivingCar> {
    match e {
        CarEvent::Moved(id, on, front) => {
            let i = index_of_car(cars, id);
            if i < cars.len() {
                cars.update(i, DrivingCar { on, front, waiting_for: None, ..cars[i] })
            } else {
                cars
            }
        },
        CarEvent::Blocked(id, on) => {
            let i = index_of_car(cars, id);
            if i < cars.len() {
                cars.update(i, DrivingCar { waiting_for: Some(on), ..cars[i] })
            } else {
                cars
            }
        },
        CarEvent::Vanished(id) => {
            let i = index_of_car(cars, id);
            if i < cars.len() {
                cars.remove(i)
            } else {
                cars
            }
        },
    }
}

/// What the first `n` reports of `events` do to the records, one after
/// the other.
pub open spec fn apply_events(cars: Seq<DrivingCar>, events: Seq<CarEvent>, n: int) -> Seq<
    DrivingCar,
>
    decreases n,
{
    if n <= 0 {
        cars
    } else {
        apply_event(apply_events(cars, events, n - 1), events[n - 1])
    }
}

/// No two records are of the same vehicle.
pub open spec fn distinct_cars(cars: Seq<DrivingCar>) -> bool {
    forall|i: int, j: int|
        0 <= i < j < cars.len() ==> (#[trigger] cars[i]).vehicle.id != (#[trigger] cars[j]).vehicle.id
}

/// Every record is of a vehicle whose identifier is below `bound`.
pub open spec fn cars_below(cars: Seq<DrivingCar>, bound: int) -> bool {
    forall|i: int| 0 <= i < cars.len() ==> (#[trigger] cars[i]).vehicle.id.0 < bound
}

impl DrivingSimState {
    pub open spec fn wf(&self) -> bool {
        &&& distinct_cars(self.cars@)
        &&& self.lanes.wf()
        &&& self.turns.wf()
    }

    /// The record of the vehicle, if it is on the road.
    pub open spec fn spec_get(&self, id: CarID) -> Option<DrivingCar> {
        let i = index_of_car(self.cars@, id);
        if i < self.cars.len() {
            Some(self.cars[i])
        } else {
            None
        }
    }

    /// The state in which nothing drives yet, and no lane or turn is
    /// open to driving.
    pub fn new() -> (s: DrivingSimState)
        ensures
            s.wf(),
            s.cars.len() == 0,
            s.lanes@ == Set::<usize>::empty(),
            s.turns@ == Set::<usize>::empty(),
            s.lanes.ids.len() == 0,
            s.turns.ids.len() == 0,
            s.stepped_at == Tick(0),
    {
        DrivingSimState {
            cars: Vec::new(),
            lanes: IdSet::new(),
            turns: IdSet::new(),
            stepped_at: Tick(0),
        }
    }

    /// Where the vehicle's record is, if it has one.
    pub fn find(&self, id: CarID) -> (at: Option<usize>)
        ensures
            at is None <==> index_of_car(self.cars@, id) >= self.cars.len(),
            at is Some ==> at.unwrap() == index_of_car(self.cars@, id),
            at is Some ==> self.cars[at.unwrap() as int].vehicle.id == id,
    {
        let mut i: usize = 0;
        assert(self.cars@.skip(0) == self.cars@);
        while i < self.cars.len()
            invariant
                i <= self.cars.len(),
                index_of_car(self.cars@, id) == i + index_of_car(self.cars@.skip(i as int), id),
            decreases self.cars.len() - i,
        {
            proof {
                assert(self.cars@.skip(i as int).drop_first() == self.cars@.skip(i + 1));
            }
            if self.cars[i].vehicle.id == id {
                return Some(i);
            }
            i += 1;
        }
        None
    }

    /// The record of the vehicle, if it is on the road.
    pub fn get(&self, id: CarID) -> (car: Option<DrivingCar>)
        ensures
            car == self.spec_get(id),
    {
        match self.find(id) {
            Some(i) => Some(self.cars[i]),
            None => None,
        }
    }

    /// Opens a lane to driving. Opening an open lane changes nothing.
    pub fn edit_add_lane(&mut self, id: LaneID)
        requires
            old(self).wf(),
        ensures
            final(self).wf(),
            final(self).lanes@ == old(self).lanes@.insert(id.0),
            final(self).lanes.ids@ == put_in(old(self).lanes.ids@, id.0),
            final(self).cars == old(self).cars,
            final(self).turns == old(self).turns,
            final(self).stepped_at == old(self).stepped_at,
    {
        self.lanes.insert(id.0);
    }

    /// Closes a lane to driving. Closing a closed lane changes nothing.
    pub fn edit_remove_lane(&mut self, id: LaneID)
        requires
            old(self).wf(),
        ensures
            final(self).wf(),
            final(self).lanes@ == old(self).lanes@.remove(id.0),
            final(self).lanes.ids@ == taken_out(old(self).lanes.ids@, id.0),
            final(self).cars == old(self).cars,
            final(self).turns == old(self).turns,
            final(self).stepped_at == old(self).stepped_at,
    {
        self.lanes.remove(id.0);
    }

    /// Opens a turn to driving. Opening an open turn changes nothing.
    pub fn edit_add_turn(&mut self, id: TurnID)
        requires
            old(self).wf(),
        ensures
            final(self).wf(),
            final(self).turns@ == old(self).turns@.insert(id.0),
            final(self).turns.ids@ == put_in(old(self).turns.ids@, id.0),
            final(self).cars == old(self).cars,
            final(self).lanes == old(self).lanes,
            final(self).stepped_at == old(self).stepped_at,
    {
        self.turns.insert(id.0);
    }

    /// Closes a turn to driving. Closing a closed turn changes nothing.
    pub fn edit_remove_turn(&mut self, id: TurnID)
        requires
            old(self).wf(),
        ensures
            final(self).wf(),
            final(self).turns@ == old(self).turns@.remove(id.0),
            final(self).turns.ids@ == taken_out(old(self).turns.ids@, id.0),
            final(self).cars == old(self).cars,
            final(self).lanes == old(self).lanes,
            final(self).stepped_at == old(self).stepped_at,
    {
        self.turns.remove(id.0);
    }
}

/// The position that `index_of_car` gives is at most the length; a
/// position below the length is that of a record of the vehicle.
pub proof fn lemma_index_of_car(cars: Seq<DrivingCar>, id: CarID)
    ensures
        0 <= index_of_car(cars, id) <= cars.len(),
        index_of_car(cars, id) < cars.len() ==> cars[index_of_car(cars, id)].vehicle.id == id,
    decreases cars.len(),
{
    if cars.len() > 0 && cars[0].vehicle.id != id {
        lemma_index_of_car(cars.drop_first(), id);
    }
}

/// No record in front of the position that `index_of_car` gives is of the
/// vehicle.
pub proof fn lemma_index_of_car_first(cars: Seq<DrivingCar>, id: CarID, j: int)
    requires
        0 <= j < cars.len(),
        cars[j].vehicle.id == id,
    ensures
        index_of_car(cars, id) <= j,
    decreases cars.len(),
{
    if cars[0].vehicle.id != id {
        assert(cars.drop_first()[j - 1] == cars[j]);
        lemma_index_of_car_first(cars.drop_first(), id, j - 1);
    }
}

/// Some record of `cars` is of the vehicle `v`.
pub open spec fn has_vehicle(cars: Seq<DrivingCar>, v: Vehicle) -> bool {
    exists|i: int| 0 <= i < cars.len() && (#[trigger] cars[i]).vehicle == v
}

/// Every record of `after` is of a vehicle that has a record in
/// `before`.
pub open spec fn cars_from(after: Seq<DrivingCar>, before: Seq<DrivingCar>) -> bool {
    forall|j: int| 0 <= j < after.len() ==> has_vehicle(before, (#[trigger] after[j]).vehicle)
}

/// A report leaves the records those of distinct vehicles with
/// identifiers below the bound, and adds no vehicle.
pub proof fn lemma_apply_event(cars: Seq<DrivingCar>, e: CarEvent, bound: int)
    requires
        distinct_cars(cars),
        cars_below(cars, bound),
    ensures
        distinct_cars(apply_event(cars, e)),
        cars_below(apply_event(cars, e), bound),
        cars_from(apply_event(cars, e), cars),
{
    let id = match e {
        CarEvent::Moved(id, _, _) => id,
        CarEvent::Blocked(id, _) => id,
        CarEvent::Vanished(id) => id,
    };
    lemma_index_of_car(cars, id);
    let i = index_of_car(cars, id);
    let after = apply_event(cars, e);
    if i < cars.len() && e is Vanished {
        assert forall|a: int, b: int| 0 <= a < b < after.len() implies (
        #[trigger] after[a]).vehicle.id != (#[trigger] after[b]).vehicle.id by {
            let a0 = if a < i {
                a
            } else {
                a + 1
            };
            let b0 = if b < i {
                b
            } else {
                b + 1
            };
            assert(after[a] == cars[a0] && after[b] == cars[b0]);
        }
        assert forall|j: int| 0 <= j < after.len() implies (#[trigger] after[j]).vehicle.id.0
            < bound && has_vehicle(cars, after[j].vehicle) by {
            let j0 = if j < i {
                j
            } else {
                j + 1
            };
            assert(after[j] == cars[j0]);
        }
    } else {
        assert forall|j: int| 0 <= j < after.len() implies has_vehicle(
            cars,
            (#[trigger] after[j]).vehicle,
        ) by {
            assert(cars[j].vehicle == after[j].vehicle);
        }
    }
}

/// A vehicle that has a record after two stretches had one before them.
pub proof fn lemma_cars_from_trans(a: Seq<DrivingCar>, b: Seq<DrivingCar>, c: Seq<DrivingCar>)
    requires
        cars_from(c, b),
        cars_from(b, a),
    ensures
        cars_from(c, a),
{
    assert forall|j: int| 0 <= j < c.len() implies has_vehicle(a, (#[trigger] c[j]).vehicle) by {
        let m = choose|m: int| 0 <= m < b.len() && (#[trigger] b[m]).vehicle == c[j].vehicle;
        assert(has_vehicle(a, b[m].vehicle));
    }
}

/// Every vehicle that has a record has had it.
pub proof fn lemma_cars_from_self(a: Seq<DrivingCar>)
    ensures
        cars_from(a, a),
{
    assert forall|j: int| 0 <= j < a.len() implies has_vehicle(a, (#[trigger] a[j]).vehicle) by {
        assert(a[j].vehicle == a[j].vehicle);
    }
}

/// Reports leave the records those of distinct vehicles with identifiers
/// below the bound, and add no vehicle.
pub proof fn lemma_apply_events(cars: Seq<DrivingCar>, events: Seq<CarEvent>, n: int, bound: int)
    requires
        distinct_cars(cars),
        cars_below(cars, bound),
    ensures
        distinct_cars(apply_events(cars, events, n)),
        cars_below(apply_events(cars, events, n), bound),
        cars_from(apply_events(cars, events, n), cars),
    decreases n,
{
    if n > 0 {
        lemma_apply_events(cars, events, n - 1, bound);
        let mid = apply_events(cars, events, n - 1);
        lemma_apply_event(mid, events[n - 1], bound);
        lemma_cars_from_trans(cars, mid, apply_event(mid, events[n - 1]));
    } else {
        lemma_cars_from_self(cars);
    }
}

impl DrivingSimState {
    /// Applies what the movement of vehicles reports of one tick, report
    /// by report.
    pub fn step(&mut self, now: Tick, events: &Vec<CarEvent>)
        requires
            old(self).wf(),
        ensures
            final(self).wf(),
            final(self).cars@ == apply_events(old(self).cars@, events@, events.len() as int),
            final(self).stepped_at == now,
            final(self).lanes == old(self).lanes,
            final(self).turns == old(self).turns,
    {
        let mut k: usize = 0;
        while k < events.len()
            invariant
                k <= events.len(),
                self.cars@ == apply_events(old(self).cars@, events@, k as int),
                self.lanes == old(self).lanes,
                self.turns == old(self).turns,
            decreases events.len() - k,
        {
            match events[k] {
                CarEvent::Moved(id, on, front) => {
                    if let Some(i) = self.find(id) {
                        let car = self.cars[i];
                        self.cars.set(i, DrivingCar { on, front, waiting_for: None, ..car });
                    }
                },
                CarEvent::Blocked(id, on) => {
                    if let Some(i) = self.find(id) {
                        let car = self.cars[i];
                        self.cars.set(i, DrivingCar { waiting_for: Some(on), ..car });
                    }
                },
                CarEvent::Vanished(id) => {
                    if let Some(i) = self.find(id) {
                        self.cars.remove(i);
                    }
                },
            }
            k += 1;
        }
        self.stepped_at = now;
        proof {
            lemma_apply_events(old(self).cars@, events@, events.len() as int, usize::MAX + 1);
        }
    }
}

} // verus!
