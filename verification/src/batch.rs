//! What a batch of agents leaves behind: the words in which the contracts
//! of the functions that schedule trips speak.

use vstd::prelude::*;
use crate::parking::ParkingSimState;
use crate::realize::Scheduled;
use crate::report::{Warning, count_no_room};
use crate::sim::Sim;
use crate::trips::TripSpec;
use crate::units::Tick;

verus! {

/// Nothing of the simulation but its queue of scheduled trips differs
/// between `before` and `after`; its random stream is among what stays.
pub open spec fn same_but_queue(before: &Sim, after: &Sim) -> bool {
    &&& after.rng == before.rng
    &&& after.time == before.time
    &&& after.car_id_counter == before.car_id_counter
    &&& after.ped_id_counter == before.ped_id_counter
    &&& after.debug == before.debug
    &&& after.driving_state == before.driving_state
    &&& after.parking_state == before.parking_state
    &&& after.walking_state == before.walking_state
    &&& after.realized_trips == before.realized_trips
}

/// Among the trips of the queue from position `from` on, each one that
/// uses a parked car names a spot in which a reserved car stands, and no
/// two of them name the same spot.
pub open spec fn reservations_ok(
    parking: &ParkingSimState,
    queue: Seq<(Tick, TripSpec)>,
    from: int,
    reserved: Set<usize>,
) -> bool {
    &&& forall|k: int|
        from <= k < queue.len() && (#[trigger] queue[k]).1 is UsingParkedCar ==> {
            let spot = queue[k].1->UsingParkedCar_1;
            &&& parking.has_spot(spot)
            &&& parking.at(spot) is Some
            &&& reserved.contains(parking.at(spot).unwrap().vehicle.id.0)
        }
    &&& no_car_twice(queue, from)
}

/// No two trips of the queue from position `from` on use the parked car
/// of the same spot.
pub open spec fn no_car_twice(queue: Seq<(Tick, TripSpec)>, from: int) -> bool {
    forall|k1: int, k2: int|
        from <= k1 < k2 < queue.len() && (#[trigger] queue[k1]).1 is UsingParkedCar && (
        #[trigger] queue[k2]).1 is UsingParkedCar ==> queue[k1].1->UsingParkedCar_1
            != queue[k2].1->UsingParkedCar_1
}

/// `longer` is `shorter` with something at its end.
pub open spec fn extends<A>(shorter: Seq<A>, longer: Seq<A>) -> bool {
    shorter.len() <= longer.len() && longer.subrange(0, shorter.len() as int) == shorter
}

/// What a batch of agents leaves behind, seen from the start of the
/// batch: the queue is the old one with at least `min` and at most `max`
/// trips at its end, each of which `each` holds of; the warnings are the
/// old ones with more at their end, none of them of no room; nothing
/// else differs.
pub open spec fn batch_done(
    before: &Sim,
    after: &Sim,
    warned_before: Seq<Warning>,
    warned_after: Seq<Warning>,
    min: int,
    max: int,
    each: spec_fn((Tick, TripSpec)) -> bool,
) -> bool {
    &&& same_but_queue(before, after)
    &&& extends(before.queued_trips@, after.queued_trips@)
    &&& before.queued_trips@.len() + min <= after.queued_trips@.len()
    &&& after.queued_trips@.len() <= before.queued_trips@.len() + max
    &&& forall|k: int|
        before.queued_trips@.len() <= k < after.queued_trips@.len() ==> each(
            #[trigger] after.queued_trips@[k],
        )
    &&& extends(warned_before, warned_after)
    &&& count_no_room(warned_after) == count_no_room(warned_before)
}

/// One more warning that is not of no room leaves the count of those as
/// it is.
pub proof fn lemma_other_warning(before: Seq<Warning>, now: Seq<Warning>, w: Warning)
    requires
        !(w is NoRoomToSeed),
    ensures
        count_no_room(now.push(w)) == count_no_room(now),
        extends(before, now) ==> extends(before, now.push(w)),
{
    assert(now.push(w).drop_last() == now);
    if extends(before, now) {
        assert(now.push(w).subrange(0, before.len() as int) =~= now.subrange(
            0,
            before.len() as int,
        ));
    }
}

/// Two batches, one after the other, are one batch.
pub proof fn lemma_batches_join(
    before: &Sim,
    mid: &Sim,
    after: &Sim,
    w0: Seq<Warning>,
    w1: Seq<Warning>,
    w2: Seq<Warning>,
    min1: int,
    max1: int,
    min2: int,
    max2: int,
    each: spec_fn((Tick, TripSpec)) -> bool,
)
    requires
        batch_done(before, mid, w0, w1, min1, max1, each),
        batch_done(mid, after, w1, w2, min2, max2, each),
    ensures
        batch_done(before, after, w0, w2, min1 + min2, max1 + max2, each),
{
    let q0 = before.queued_trips@;
    let q1 = mid.queued_trips@;
    let q2 = after.queued_trips@;
    assert(q2.subrange(0, q0.len() as int) =~= q1.subrange(0, q0.len() as int));
    assert(w2.subrange(0, w0.len() as int) =~= w1.subrange(0, w0.len() as int));
    assert forall|k: int| q0.len() <= k < q2.len() implies each(#[trigger] q2[k]) by {
        if k < q1.len() {
            assert(q2.subrange(0, q1.len() as int)[k] == q2[k]);
            assert(q2[k] == q1[k]);
        }
    }
}

/// A batch that schedules trips of one kind is a batch that schedules
/// trips of a wider kind, of at most as many or more.
pub proof fn lemma_batch_widen(
    before: &Sim,
    after: &Sim,
    w0: Seq<Warning>,
    w1: Seq<Warning>,
    min: int,
    max1: int,
    max2: int,
    narrow: spec_fn((Tick, TripSpec)) -> bool,
    wide: spec_fn((Tick, TripSpec)) -> bool,
)
    requires
        batch_done(before, after, w0, w1, min, max1, narrow),
        max1 <= max2,
        forall|e: (Tick, TripSpec)| narrow(e) ==> #[trigger] wide(e),
    ensures
        batch_done(before, after, w0, w1, min, max2, wide),
{
    assert forall|k: int|
        before.queued_trips@.len() <= k < after.queued_trips@.len() implies wide(
        #[trigger] after.queued_trips@[k],
    ) by {
        assert(narrow(after.queued_trips@[k]));
    }
}

/// Trips that use no parked car, put at the end of the queue, leave the
/// reservations in order.
pub proof fn lemma_others_keep_reservations(
    parking: &ParkingSimState,
    before: Seq<Scheduled>,
    after: Seq<Scheduled>,
    from: int,
    reserved: Set<usize>,
)
    requires
        0 <= from <= before.len(),
        reservations_ok(parking, before, from, reserved),
        extends(before, after),
        forall|k: int| before.len() <= k < after.len() ==> !((#[trigger] after[k]).1 is UsingParkedCar),
    ensures
        reservations_ok(parking, after, from, reserved),
{
    assert forall|k: int| 0 <= k < before.len() implies after[k] == before[k] by {
        assert(after.subrange(0, before.len() as int)[k] == after[k]);
    }
    assert forall|k: int| from <= k < after.len() && (#[trigger] after[k]).1 is UsingParkedCar implies ({
        let spot = after[k].1->UsingParkedCar_1;
        &&& parking.has_spot(spot)
        &&& parking.at(spot) is Some
        &&& reserved.contains(parking.at(spot).unwrap().vehicle.id.0)
    }) by {
        assert(after[k] == before[k]);
    }
    assert forall|k1: int, k2: int|
        from <= k1 < k2 < after.len() && (#[trigger] after[k1]).1 is UsingParkedCar && (
        #[trigger] after[k2]).1 is UsingParkedCar implies after[k1].1->UsingParkedCar_1
        != after[k2].1->UsingParkedCar_1 by {
        assert(after[k1] == before[k1]);
        assert(after[k2] == before[k2]);
    }
}

} // verus!
