//! The parking subsystem: which vehicle stands in which spot. It is
//! passive: it changes only when it is told to park or unpark a vehicle,
//! or when a lane is edited.

use vstd::prelude::*;
use crate::ids::{BuildingID, CarID, LaneID};
use crate::map::{Lane, LaneType, RoadMap};
use crate::trips::{ParkedCar, ParkingSpot};

verus! {

/// The length of lane that one parking spot takes, in centimetres.
pub const PARKING_SPOT_LENGTH: u64 = 800;

/// One spot of a parking lane: empty, or holding a parked vehicle.
pub type Slot = Option<ParkedCar>;

#[derive(Clone, Debug)]
pub struct ParkingSimState {
    /// The spots of each lane, by the lane's identifier. A lane that is not
    /// tracked as a parking lane has none.
    pub lanes: Vec<Vec<Slot>>,
    /// How many vehicles are parked.
    pub num_parked: usize,
}

/// The number of spots on a lane of the given type and length.
pub open spec fn spots_on(lane: Lane) -> nat {
    if lane.lane_type == LaneType::Parking {
        (lane.length.0 / PARKING_SPOT_LENGTH) as nat
    } else {
        0
    }
}

/// The free spots among the first `n` spots of a lane, in order.
pub open spec fn free_upto(slots: Seq<Slot>, lane: LaneID, n: int) -> Seq<ParkingSpot>
    decreases n,
{
    if n <= 0 {
        Seq::empty()
    } else if slots[n - 1] is None {
        free_upto(slots, lane, n - 1).push(ParkingSpot { lane, idx: (n - 1) as usize })
    } else {
        free_upto(slots, lane, n - 1)
    }
}

/// The vehicles in the first `n` spots of a lane, in order.
pub open spec fn cars_upto(slots: Seq<Slot>, n: int) -> Seq<ParkedCar>
    decreases n,
{
    if n <= 0 {
        Seq::empty()
    } else {
        match slots[n - 1] {
            Some(c) => cars_upto(slots, n - 1).push(c),
            None => cars_upto(slots, n - 1),
        }
    }
}

/// The vehicles on the first `k` lanes, lane by lane and spot by spot.
pub open spec fn all_cars_upto(lanes: Seq<Vec<Slot>>, k: int) -> Seq<ParkedCar>
    decreases k,
{
    if k <= 0 {
        Seq::empty()
    } else {
        all_cars_upto(lanes, k - 1) + cars_upto(lanes[k - 1]@, lanes[k - 1]@.len() as int)
    }
}

/// Those of `cars` that `owner` owns, in order.
pub open spec fn owned_by(cars: Seq<ParkedCar>, owner: BuildingID) -> Seq<ParkedCar>
    decreases cars.len(),
{
    if cars.len() == 0 {
        Seq::empty()
    } else if cars.last().owner == Some(owner) {
        owned_by(cars.drop_last(), owner).push(cars.last())
    } else {
        owned_by(cars.drop_last(), owner)
    }
}

impl ParkingSimState {
    pub open spec fn has_spot(&self, spot: ParkingSpot) -> bool {
        spot.lane.0 < self.lanes.len() && spot.idx < self.lanes[spot.lane.0 as int].len()
    }

    /// What stands in a spot.
    pub open spec fn at(&self, spot: ParkingSpot) -> Slot {
        self.lanes[spot.lane.0 as int][spot.idx as int]
    }

    pub open spec fn spec_is_free(&self, spot: ParkingSpot) -> bool {
        self.has_spot(spot) && self.at(spot) is None
    }

    /// Some spot holds the vehicle `id`.
    pub open spec fn holds(&self, id: CarID) -> bool {
        exists|spot: ParkingSpot|
            self.has_spot(spot) && (#[trigger] self.at(spot)) is Some && self.at(
                spot,
            ).unwrap().vehicle.id == id
    }

    /// The free spots of a lane, in order. A lane without spots has none.
    pub open spec fn spec_free_spots(&self, lane: LaneID) -> Seq<ParkingSpot> {
        if lane.0 < self.lanes.len() {
            free_upto(self.lanes[lane.0 as int]@, lane, self.lanes[lane.0 as int].len() as int)
        } else {
            Seq::empty()
        }
    }

    /// Every parked vehicle, lane by lane and spot by spot.
    pub open spec fn all_cars(&self) -> Seq<ParkedCar> {
        all_cars_upto(self.lanes@, self.lanes.len() as int)
    }

    /// The parked vehicles that a building owns.
    pub open spec fn spec_parked_cars_by_owner(&self, owner: BuildingID) -> Seq<ParkedCar> {
        owned_by(self.all_cars(), owner)
    }

    /// Each parked vehicle knows its spot, no vehicle is parked twice, and
    /// the count is right.
    pub open spec fn wf(&self) -> bool {
        &&& forall|spot: ParkingSpot|
            self.has_spot(spot) && (#[trigger] self.at(spot)) is Some ==> self.at(
                spot,
            ).unwrap().spot == spot
        &&& forall|s1: ParkingSpot, s2: ParkingSpot|
            self.has_spot(s1) && self.has_spot(s2) && s1 != s2 && (#[trigger] self.at(s1)) is Some
                && (#[trigger] self.at(s2)) is Some ==> self.at(s1).unwrap().vehicle.id != self.at(
                s2,
            ).unwrap().vehicle.id
        &&& self.num_parked == self.all_cars().len()
    }

    /// The state for a map on which nothing is parked yet: each parking
    /// lane has as many spots as fit on its length.
    pub fn new(map: &RoadMap) -> (s: ParkingSimState)
        ensures
            s.wf(),
            s.num_parked == 0,
            s.lanes.len() == map.lanes.len(),
            forall|l: int|
                0 <= l < map.lanes.len() ==> (#[trigger] s.lanes[l]).len() == spots_on(
                    map.lanes[l],
                ),
            forall|spot: ParkingSpot| s.has_spot(spot) ==> s.spec_is_free(spot),
    {
        let mut lanes: Vec<Vec<Slot>> = Vec::new();
        let mut l: usize = 0;
        while l < map.lanes.len()
            invariant
                l <= map.lanes.len(),
                lanes.len() == l,
                forall|j: int| 0 <= j < l ==> (#[trigger] lanes[j]).len() == spots_on(map.lanes[j]),
                forall|j: int, i: int|
                    0 <= j < l && 0 <= i < lanes[j].len() ==> (#[trigger] lanes[j][i]) is None,
                all_cars_upto(lanes@, l as int).len() == 0,
            decreases map.lanes.len() - l,
        {
            let slots = empty_slots(&map.lanes[l]);
            proof {
                lemma_no_cars_in_empty(slots@, slots@.len() as int);
                assert(all_cars_upto(lanes@.push(slots), l as int) == all_cars_upto(lanes@, l as int))
                    by {
                    lemma_all_cars_prefix(lanes@, lanes@.push(slots), l as int);
                }
            }
            lanes.push(slots);
            l += 1;
        }
        ParkingSimState { lanes, num_parked: 0 }
    }

    /// Whether nothing stands in the spot.
    #[verifier::when_used_as_spec(spec_is_free)]
    pub fn is_free(&self, spot: ParkingSpot) -> (free: bool)
        ensures
            free == self.spec_is_free(spot),
    {
        spot.lane.0 < self.lanes.len() && spot.idx < self.lanes[spot.lane.0].len()
            && self.lanes[spot.lane.0][spot.idx].is_none()
    }

    /// The free spots of a lane, in order.
    pub fn get_free_spots(&self, lane: LaneID) -> (spots: Vec<ParkingSpot>)
        ensures
            spots@ == self.spec_free_spots(lane),
    {
        let mut spots: Vec<ParkingSpot> = Vec::new();
        if lane.0 < self.lanes.len() {
            let slots = &self.lanes[lane.0];
            let mut i: usize = 0;
            while i < slots.len()
                invariant
                    i <= slots.len(),
                    spots@ == free_upto(slots@, lane, i as int),
                decreases slots.len() - i,
            {
                if slots[i].is_none() {
                    spots.push(ParkingSpot { lane, idx: i });
                }
                i += 1;
            }
        }
        spots
    }

    /// Parks a vehicle in its spot.
    pub fn add_parked_car(&mut self, p: ParkedCar)
        requires
            old(self).wf(),
            old(self).spec_is_free(p.spot),
            !old(self).holds(p.vehicle.id),
            old(self).num_parked < usize::MAX,
        ensures
            final(self).wf(),
            final(self).lanes.len() == old(self).lanes.len(),
            forall|l: int|
                0 <= l < old(self).lanes.len() ==> (#[trigger] final(self).lanes[l]).len() == old(self).lanes[l].len(),
            final(self).at(p.spot) == Some(p),
            forall|spot: ParkingSpot|
                old(self).has_spot(spot) && spot != p.spot ==> final(self).at(spot) == old(self).at(
                    spot,
                ),
            final(self).num_parked == old(self).num_parked + 1,
    {
        let ghost before = *self;
        let mut slots: Vec<Slot> = Vec::new();
        std::mem::swap(&mut slots, &mut self.lanes[p.spot.lane.0]);
        slots[p.spot.idx] = Some(p);
        self.lanes[p.spot.lane.0] = slots;
        self.num_parked = self.num_parked + 1;
        proof {
            assert(self.lanes@ == before.lanes@.update(p.spot.lane.0 as int, self.lanes[p.spot.lane.0 as int]));
            lemma_park_counts(before.lanes@, self.lanes@, p.spot, p, before.lanes.len() as int);
            assert forall|spot: ParkingSpot|
                self.has_spot(spot) && (#[trigger] self.at(spot)) is Some implies self.at(
                spot,
            ).unwrap().spot == spot by {
                if spot != p.spot {
                    assert(before.has_spot(spot));
                    assert(self.at(spot) == before.at(spot));
                }
            }
            assert forall|s1: ParkingSpot, s2: ParkingSpot|
                self.has_spot(s1) && self.has_spot(s2) && s1 != s2 && (#[trigger] self.at(s1))
                    is Some && (#[trigger] self.at(s2)) is Some implies self.at(
                s1,
            ).unwrap().vehicle.id != self.at(s2).unwrap().vehicle.id by {
                assert(before.has_spot(s1) && before.has_spot(s2));
                if s1 != p.spot {
                    assert(self.at(s1) == before.at(s1));
                }
                if s2 != p.spot {
                    assert(self.at(s2) == before.at(s2));
                }
            }
        }
    }

    /// Every parked vehicle that the building owns, lane by lane and spot
    /// by spot.
    pub fn get_parked_cars_by_owner(&self, owner: BuildingID) -> (cars: Vec<ParkedCar>)
        ensures
            cars@ == self.spec_parked_cars_by_owner(owner),
    {
        let mut cars: Vec<ParkedCar> = Vec::new();
        let mut l: usize = 0;
        while l < self.lanes.len()
            invariant
                l <= self.lanes.len(),
                cars@ == owned_by(all_cars_upto(self.lanes@, l as int), owner),
            decreases self.lanes.len() - l,
        {
            let slots = &self.lanes[l];
            let ghost done = all_cars_upto(self.lanes@, l as int);
            let mut i: usize = 0;
            while i < slots.len()
                invariant
                    i <= slots.len(),
                    l < self.lanes.len(),
                    slots == &self.lanes[l as int],
                    done == all_cars_upto(self.lanes@, l as int),
                    cars@ == owned_by(done + cars_upto(slots@, i as int), owner),
                decreases slots.len() - i,
            {
                proof {
                    let here = cars_upto(slots@, i as int);
                    if let Some(c) = slots[i as int] {
                        assert((done + here.push(c)).drop_last() == done + here);
                    }
                }
                if let Some(c) = slots[i] {
                    if c.owner == Some(owner) {
                        cars.push(c);
                    }
                }
                i += 1;
            }
            l += 1;
        }
        cars
    }

    /// How many vehicles are parked.
    pub fn total_count(&self) -> (n: usize)
        requires
            self.wf(),
        ensures
            n == self.all_cars().len(),
    {
        self.num_parked
    }
}

/// As many empty spots as fit on the lane.
fn empty_slots(lane: &Lane) -> (slots: Vec<Slot>)
    ensures
        slots.len() == spots_on(*lane),
        forall|i: int| 0 <= i < slots.len() ==> (#[trigger] slots[i]) is None,
{
    let mut slots: Vec<Slot> = Vec::new();
    if lane.lane_type == LaneType::Parking {
        let n = lane.length.0 / PARKING_SPOT_LENGTH;
        let mut i: u64 = 0;
        while i < n
            invariant
                i <= n,
                slots.len() == i,
                forall|j: int| 0 <= j < slots.len() ==> (#[trigger] slots[j]) is None,
            decreases n - i,
        {
            slots.push(None);
            i += 1;
        }
    }
    slots
}

/// Empty spots hold no vehicle.
pub proof fn lemma_no_cars_in_empty(slots: Seq<Slot>, n: int)
    requires
        0 <= n <= slots.len(),
        forall|i: int| 0 <= i < slots.len() ==> (#[trigger] slots[i]) is None,
    ensures
        cars_upto(slots, n).len() == 0,
    decreases n,
{
    if n > 0 {
        lemma_no_cars_in_empty(slots, n - 1);
    }
}

/// The vehicles on the first `k` lanes depend on those lanes alone.
pub proof fn lemma_all_cars_prefix(a: Seq<Vec<Slot>>, b: Seq<Vec<Slot>>, k: int)
    requires
        0 <= k <= a.len(),
        k <= b.len(),
        forall|j: int| 0 <= j < k ==> a[j] == b[j],
    ensures
        all_cars_upto(a, k) == all_cars_upto(b, k),
    decreases k,
{
    if k > 0 {
        lemma_all_cars_prefix(a, b, k - 1);
    }
}

/// Filling one empty spot of a lane adds one vehicle to the lane.
pub proof fn lemma_fill_counts(a: Seq<Slot>, b: Seq<Slot>, idx: int, p: ParkedCar, n: int)
    requires
        0 <= idx < a.len(),
        a[idx] is None,
        b == a.update(idx, Some(p)),
        0 <= n <= a.len(),
    ensures
        cars_upto(b, n).len() == cars_upto(a, n).len() + if idx < n {
            1int
        } else {
            0int
        },
    decreases n,
{
    if n > 0 {
        lemma_fill_counts(a, b, idx, p, n - 1);
    }
}

/// Parking one vehicle in an empty spot adds one vehicle to the whole.
pub proof fn lemma_park_counts(
    a: Seq<Vec<Slot>>,
    b: Seq<Vec<Slot>>,
    spot: ParkingSpot,
    p: ParkedCar,
    k: int,
)
    requires
        spot.lane.0 < a.len(),
        spot.idx < a[spot.lane.0 as int].len(),
        a[spot.lane.0 as int][spot.idx as int] is None,
        b.len() == a.len(),
        forall|j: int| 0 <= j < a.len() && j != spot.lane.0 ==> a[j] == b[j],
        b[spot.lane.0 as int]@ == a[spot.lane.0 as int]@.update(spot.idx as int, Some(p)),
        0 <= k <= a.len(),
    ensures
        all_cars_upto(b, k).len() == all_cars_upto(a, k).len() + if spot.lane.0 < k {
            1int
        } else {
            0int
        },
    decreases k,
{
    if k > 0 {
        lemma_park_counts(a, b, spot, p, k - 1);
        if k - 1 == spot.lane.0 {
            lemma_fill_counts(
                a[k - 1]@,
                b[k - 1]@,
                spot.idx as int,
                p,
                a[k - 1]@.len() as int,
            );
        }
    }
}

/// Each vehicle among those in the first `n` spots of a lane stands in one
/// of those spots.
pub proof fn lemma_cars_upto_stand(slots: Seq<Slot>, n: int, k: int)
    requires
        0 <= n <= slots.len(),
        0 <= k < cars_upto(slots, n).len(),
    ensures
        exists|i: int| 0 <= i < n && slots[i] == Some(cars_upto(slots, n)[k]),
    decreases n,
{
    if n > 0 {
        let before = cars_upto(slots, n - 1);
        if k < before.len() {
            lemma_cars_upto_stand(slots, n - 1, k);
            let i = choose|i: int| 0 <= i < n - 1 && slots[i] == Some(before[k]);
            assert(0 <= i < n && slots[i] == Some(cars_upto(slots, n)[k]));
        } else {
            assert(slots[n - 1] == Some(cars_upto(slots, n)[k]));
        }
    }
}

/// Each vehicle among those on the first `k` lanes stands in a spot of one
/// of those lanes.
pub proof fn lemma_all_cars_stand(lanes: Seq<Vec<Slot>>, k: int, j: int)
    requires
        0 <= k <= lanes.len(),
        0 <= j < all_cars_upto(lanes, k).len(),
    ensures
        exists|l: int, i: int|
            0 <= l < k && 0 <= i < lanes[l]@.len() && lanes[l]@[i] == Some(
                all_cars_upto(lanes, k)[j],
            ),
    decreases k,
{
    if k > 0 {
        let before = all_cars_upto(lanes, k - 1);
        if j < before.len() {
            lemma_all_cars_stand(lanes, k - 1, j);
            let (l, i) = choose|l: int, i: int|
                0 <= l < k - 1 && 0 <= i < lanes[l]@.len() && lanes[l]@[i] == Some(before[j]);
            assert(0 <= l < k && 0 <= i < lanes[l]@.len() && lanes[l]@[i] == Some(
                all_cars_upto(lanes, k)[j],
            ));
        } else {
            let row = lanes[k - 1]@;
            let here = cars_upto(row, row.len() as int);
            let c = here[j - before.len()];
            lemma_cars_upto_stand(row, row.len() as int, j - before.len());
            let i = choose|i: int| 0 <= i < row.len() && row[i] == Some(c);
            let l = k - 1;
            assert(0 <= l < k && 0 <= i < lanes[l]@.len() && lanes[l]@[i] == Some(
                all_cars_upto(lanes, k)[j],
            ));
        }
    }
}

/// Each of the vehicles that a building owns is one of `cars`, and the
/// building owns it.
pub proof fn lemma_owned_by_member(cars: Seq<ParkedCar>, owner: BuildingID, j: int)
    requires
        0 <= j < owned_by(cars, owner).len(),
    ensures
        cars.contains(owned_by(cars, owner)[j]),
        owned_by(cars, owner)[j].owner == Some(owner),
    decreases cars.len(),
{
    if cars.len() > 0 {
        let before = owned_by(cars.drop_last(), owner);
        if j < before.len() {
            lemma_owned_by_member(cars.drop_last(), owner, j);
            let i = choose|i: int| 0 <= i < cars.drop_last().len() && cars.drop_last()[i] == before[j];
            assert(cars[i] == before[j]);
        } else {
            assert(cars[cars.len() - 1] == owned_by(cars, owner)[j]);
        }
    }
}

impl ParkingSimState {
    /// Each of the parked vehicles that a building owns stands in the spot
    /// that it names, and the building owns it.
    pub proof fn lemma_owned_car_stands(&self, owner: BuildingID, j: int)
        requires
            self.wf(),
            0 <= j < self.spec_parked_cars_by_owner(owner).len(),
        ensures
            ({
                let c = self.spec_parked_cars_by_owner(owner)[j];
                &&& self.has_spot(c.spot)
                &&& self.at(c.spot) == Some(c)
                &&& c.owner == Some(owner)
            }),
    {
        let c = self.spec_parked_cars_by_owner(owner)[j];
        lemma_owned_by_member(self.all_cars(), owner, j);
        let k = choose|k: int| 0 <= k < self.all_cars().len() && self.all_cars()[k] == c;
        lemma_all_cars_stand(self.lanes@, self.lanes.len() as int, k);
        let (l, i) = choose|l: int, i: int|
            0 <= l < self.lanes.len() && 0 <= i < self.lanes[l]@.len() && self.lanes[l]@[i]
                == Some(c);
        let spot = ParkingSpot { lane: LaneID(l as usize), idx: i as usize };
        assert(self.has_spot(spot));
        assert(self.at(spot) == Some(c));
    }
}

/// Replacing the empty row of spots of one lane by another empty row
/// leaves the vehicles as they are.
pub proof fn lemma_replace_empty(a: Seq<Vec<Slot>>, b: Seq<Vec<Slot>>, l: int, k: int)
    requires
        0 <= l < a.len(),
        b.len() == a.len(),
        forall|j: int| 0 <= j < a.len() && j != l ==> a[j] == b[j],
        forall|i: int| 0 <= i < a[l]@.len() ==> (#[trigger] a[l]@[i]) is None,
        forall|i: int| 0 <= i < b[l]@.len() ==> (#[trigger] b[l]@[i]) is None,
        0 <= k <= a.len(),
    ensures
        all_cars_upto(b, k) == all_cars_upto(a, k),
    decreases k,
{
    if k > 0 {
        lemma_replace_empty(a, b, l, k - 1);
        if k - 1 == l {
            lemma_no_cars_in_empty(a[l]@, a[l]@.len() as int);
            lemma_no_cars_in_empty(b[l]@, b[l]@.len() as int);
            assert(cars_upto(a[l]@, a[l]@.len() as int) =~= cars_upto(
                b[l]@,
                b[l]@.len() as int,
            ));
        }
    }
}

impl ParkingSimState {
    /// No vehicle stands on the lane.
    pub open spec fn lane_is_empty(&self, lane: LaneID) -> bool {
        lane.0 < self.lanes.len() ==> forall|i: int|
            0 <= i < self.lanes[lane.0 as int].len() ==> (#[trigger] self.lanes[lane.0 as int][i])
                is None
    }

    /// Whether no vehicle stands on the lane.
    pub fn is_lane_empty(&self, lane: LaneID) -> (empty: bool)
        ensures
            empty == self.lane_is_empty(lane),
    {
        if lane.0 >= self.lanes.len() {
            return true;
        }
        let slots = &self.lanes[lane.0];
        let mut i: usize = 0;
        while i < slots.len()
            invariant
                i <= slots.len(),
                lane.0 < self.lanes.len(),
                slots == &self.lanes[lane.0 as int],
                forall|j: int| 0 <= j < i ==> (#[trigger] slots[j]) is None,
            decreases slots.len() - i,
        {
            if slots[i].is_some() {
                assert(self.lanes[lane.0 as int][i as int] is Some);
                return false;
            }
            i += 1;
        }
        true
    }

    /// Gives the lane the row of spots `slots`, all of them empty, in
    /// place of the empty row that it has.
    fn set_row(&mut self, lane: LaneID, slots: Vec<Slot>)
        requires
            old(self).wf(),
            lane.0 < old(self).lanes.len(),
            old(self).lane_is_empty(lane),
            forall|i: int| 0 <= i < slots.len() ==> (#[trigger] slots[i]) is None,
        ensures
            final(self).wf(),
            final(self).lanes.len() == old(self).lanes.len(),
            final(self).lanes[lane.0 as int] == slots,
            forall|l: int|
                0 <= l < old(self).lanes.len() && l != lane.0 ==> (#[trigger] final(self).lanes[l])
                    == old(self).lanes[l],
            final(self).num_parked == old(self).num_parked,
    {
        let ghost before = *self;
        self.lanes.set(lane.0, slots);
        proof {
            lemma_replace_empty(
                before.lanes@,
                self.lanes@,
                lane.0 as int,
                before.lanes.len() as int,
            );
            assert forall|spot: ParkingSpot|
                self.has_spot(spot) && (#[trigger] self.at(spot)) is Some implies before.has_spot(
                spot,
            ) && before.at(spot) == self.at(spot) by {
                if spot.lane.0 == lane.0 {
                    assert(self.lanes[lane.0 as int][spot.idx as int] is None);
                } else {
                    assert(self.lanes[spot.lane.0 as int] == before.lanes[spot.lane.0 as int]);
                }
            }
        }
    }

    /// Stops tracking a lane as a parking lane: it has no spots any more.
    /// A lane on which a vehicle stands, or which is not tracked, is left
    /// as it is.
    pub fn edit_remove_lane(&mut self, id: LaneID)
        requires
            old(self).wf(),
        ensures
            final(self).wf(),
            final(self).lanes.len() == old(self).lanes.len(),
            final(self).num_parked == old(self).num_parked,
            forall|l: int|
                0 <= l < old(self).lanes.len() && l != id.0 ==> (#[trigger] final(self).lanes[l])
                    == old(self).lanes[l],
            id.0 < old(self).lanes.len() ==> (if old(self).lane_is_empty(id) {
                final(self).lanes[id.0 as int].len() == 0
            } else {
                final(self).lanes[id.0 as int] == old(self).lanes[id.0 as int]
            }),
    {
        if id.0 < self.lanes.len() && self.is_lane_empty(id) {
            self.set_row(id, Vec::new());
        }
    }

    /// Starts tracking a lane as a parking lane: it gets as many empty
    /// spots as fit on its length. A lane that has spots already is left
    /// as it is.
    pub fn edit_add_lane(&mut self, lane: &Lane)
        requires
            old(self).wf(),
        ensures
            final(self).wf(),
            final(self).lanes.len() == old(self).lanes.len(),
            final(self).num_parked == old(self).num_parked,
            forall|l: int|
                0 <= l < old(self).lanes.len() && l != lane.id.0 ==> (
                #[trigger] final(self).lanes[l]) == old(self).lanes[l],
            lane.id.0 < old(self).lanes.len() ==> (if old(self).lanes[lane.id.0 as int].len() == 0 {
                final(self).lanes[lane.id.0 as int].len() == spots_on(*lane) && final(self).lane_is_empty(lane.id)
            } else {
                final(self).lanes[lane.id.0 as int] == old(self).lanes[lane.id.0 as int]
            }),
    {
        if lane.id.0 < self.lanes.len() && self.lanes[lane.id.0].len() == 0 {
            let slots = empty_slots(lane);
            self.set_row(lane.id, slots);
        }
    }
}

/// The vehicle in the last of the first `n` spots that is not empty, if
/// one of them is not.
pub open spec fn last_car_upto(slots: Seq<Slot>, n: int) -> Option<ParkedCar>
    decreases n,
{
    if n <= 0 {
        None
    } else {
        match slots[n - 1] {
            Some(c) => Some(c),
            None => last_car_upto(slots, n - 1),
        }
    }
}

/// Emptying one spot of a lane takes one vehicle from the lane.
pub proof fn lemma_empty_counts(a: Seq<Slot>, b: Seq<Slot>, idx: int, n: int)
    requires
        0 <= idx < a.len(),
        a[idx] is Some,
        b == a.update(idx, None),
        0 <= n <= a.len(),
    ensures
        cars_upto(b, n).len() == cars_upto(a, n).len() - if idx < n {
            1int
        } else {
            0int
        },
    decreases n,
{
    if n > 0 {
        lemma_empty_counts(a, b, idx, n - 1);
    }
}

/// Taking one vehicle out of its spot takes one vehicle from the whole.
pub proof fn lemma_unpark_counts(a: Seq<Vec<Slot>>, b: Seq<Vec<Slot>>, spot: ParkingSpot, k: int)
    requires
        spot.lane.0 < a.len(),
        spot.idx < a[spot.lane.0 as int].len(),
        a[spot.lane.0 as int][spot.idx as int] is Some,
        b.len() == a.len(),
        forall|j: int| 0 <= j < a.len() && j != spot.lane.0 ==> a[j] == b[j],
        b[spot.lane.0 as int]@ == a[spot.lane.0 as int]@.update(spot.idx as int, None),
        0 <= k <= a.len(),
    ensures
        all_cars_upto(b, k).len() == all_cars_upto(a, k).len() - if spot.lane.0 < k {
            1int
        } else {
            0int
        },
    decreases k,
{
    if k > 0 {
        lemma_unpark_counts(a, b, spot, k - 1);
        if k - 1 == spot.lane.0 {
            lemma_empty_counts(a[k - 1]@, b[k - 1]@, spot.idx as int, a[k - 1]@.len() as int);
        }
    }
}

impl ParkingSimState {
    /// The vehicle that stands last on the lane, if any stands there.
    pub open spec fn spec_last_parked_car(&self, lane: LaneID) -> Option<ParkedCar> {
        if lane.0 < self.lanes.len() {
            last_car_upto(self.lanes[lane.0 as int]@, self.lanes[lane.0 as int].len() as int)
        } else {
            None
        }
    }

    /// The vehicle that stands last on the lane, if any stands there.
    pub fn get_last_parked_car(&self, lane: LaneID) -> (car: Option<ParkedCar>)
        ensures
            car == self.spec_last_parked_car(lane),
            car is Some ==> lane.0 < self.lanes.len() && exists|i: int|
                0 <= i < self.lanes[lane.0 as int].len() && (#[trigger] self.lanes[lane.0 as int][i])
                    == car,
    {
        if lane.0 >= self.lanes.len() {
            return None;
        }
        let slots = &self.lanes[lane.0];
        let mut n: usize = slots.len();
        while n > 0
            invariant
                n <= slots.len(),
                lane.0 < self.lanes.len(),
                slots == &self.lanes[lane.0 as int],
                last_car_upto(slots@, slots.len() as int) == last_car_upto(slots@, n as int),
            decreases n,
        {
            if let Some(c) = slots[n - 1] {
                assert(self.lanes[lane.0 as int][n - 1] == Some(c));
                return Some(c);
            }
            n -= 1;
        }
        None
    }

    /// Takes the vehicle out of a spot.
    pub fn remove_parked_car(&mut self, spot: ParkingSpot) -> (car: ParkedCar)
        requires
            old(self).wf(),
            old(self).has_spot(spot),
            old(self).at(spot) is Some,
        ensures
            final(self).wf(),
            Some(car) == old(self).at(spot),
            final(self).lanes.len() == old(self).lanes.len(),
            forall|l: int|
                0 <= l < old(self).lanes.len() ==> (#[trigger] final(self).lanes[l]).len() == old(self).lanes[l].len(),
            final(self).at(spot) is None,
            forall|other: ParkingSpot|
                old(self).has_spot(other) && other != spot ==> final(self).at(other) == old(self).at(
                    other,
                ),
            final(self).num_parked == old(self).num_parked - 1,
    {
        let ghost before = *self;
        let mut slots: Vec<Slot> = Vec::new();
        std::mem::swap(&mut slots, &mut self.lanes[spot.lane.0]);
        let car = slots[spot.idx].unwrap();
        slots[spot.idx] = None;
        self.lanes[spot.lane.0] = slots;
        proof {
            lemma_unpark_counts(before.lanes@, self.lanes@, spot, before.lanes.len() as int);
        }
        self.num_parked = self.num_parked - 1;
        proof {
            assert forall|s: ParkingSpot|
                self.has_spot(s) && (#[trigger] self.at(s)) is Some implies self.at(
                s,
            ).unwrap().spot == s by {
                assert(before.has_spot(s));
                if s != spot {
                    assert(self.at(s) == before.at(s));
                }
            }
            assert forall|s1: ParkingSpot, s2: ParkingSpot|
                self.has_spot(s1) && self.has_spot(s2) && s1 != s2 && (#[trigger] self.at(s1))
                    is Some && (#[trigger] self.at(s2)) is Some implies self.at(
                s1,
            ).unwrap().vehicle.id != self.at(s2).unwrap().vehicle.id by {
                assert(before.has_spot(s1) && before.has_spot(s2));
                if s1 != spot {
                    assert(self.at(s1) == before.at(s1));
                }
                if s2 != spot {
                    assert(self.at(s2) == before.at(s2));
                }
            }
        }
        car
    }
}

} // verus!
