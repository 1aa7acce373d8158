//! The instantiation of a scenario: its requests are turned into parked
//! vehicles and scheduled trips, and the trips are realized.

use vstd::prelude::*;
use rand_xorshift::XorShiftRng;
use crate::batch::{
    batch_done, extends, lemma_batch_widen, lemma_batches_join, lemma_others_keep_reservations,
    no_car_twice, reservations_ok,
};
use crate::demand::{
    BorderSpawnOverTime, Scenario, ScenarioError, SeedParkedCars, SpawnOverTime,
    lemma_seeds_undefined,
};
use std::collections::HashSet;
use crate::map::RoadMap;
use crate::neighborhood::Neighborhoods;
use crate::parking::ParkingSimState;
use crate::realize::{Agents, Scheduled, realize_all, sort_by_time};
use crate::report::{Note, Timer, Warning, count_no_room};
use crate::seeding::{
    SeedingReport, is_seeded_car, roads_upto, same_but_parking, seed_parked_cars, seeded,
};
use crate::sim::Sim;
use crate::spawning::{AgentDraws, Spawned};
use crate::trips::{ParkingSpot, VehicleSpec};

verus! {

broadcast use vstd::std_specs::hash::group_hash_axioms;

/// The most cars that the first `n` requests can place: for each, as
/// many as it has buildings, times the most that a building can ask for.
pub open spec fn max_seeded(seeds: Seq<SeedParkedCars>, neighborhoods: &Neighborhoods, n: int) -> int
    decreases n,
{
    if n <= 0 {
        0
    } else {
        max_seeded(seeds, neighborhoods, n - 1) + if neighborhoods.defines(
            seeds[n - 1].neighborhood@,
        ) {
            neighborhoods.get(seeds[n - 1].neighborhood@).buildings.len()
                * seeds[n - 1].cars_per_building.weights.len()
        } else {
            0
        }
    }
}

/// The more requests, the more cars they can place.
pub proof fn lemma_max_seeded_grows(
    seeds: Seq<SeedParkedCars>,
    neighborhoods: &Neighborhoods,
    n: int,
    m: int,
)
    requires
        0 <= n <= m,
    ensures
        0 <= max_seeded(seeds, neighborhoods, n) <= max_seeded(seeds, neighborhoods, m),
    decreases m,
{
    if m > 0 {
        if n < m {
            lemma_max_seeded_grows(seeds, neighborhoods, n, m - 1);
        } else {
            lemma_max_seeded_grows(seeds, neighborhoods, n - 1, m - 1);
        }
        assert(0 <= neighborhoods.get(seeds[m - 1].neighborhood@).buildings.len()
            * seeds[m - 1].cars_per_building.weights.len()) by (nonlinear_arith);
    }
}

/// How many cars the first `n` passes placed.
pub open spec fn sum_placed(reports: Seq<SeedingReport>, n: int) -> int
    decreases n,
{
    if n <= 0 {
        0
    } else {
        sum_placed(reports, n - 1) + reports[n - 1].placed
    }
}

/// How many cars were asked for in the first `n` passes.
pub open spec fn sum_requested(reports: Seq<SeedingReport>, n: int) -> int
    decreases n,
{
    if n <= 0 {
        0
    } else {
        sum_requested(reports, n - 1) + reports[n - 1].requested
    }
}

/// The notes of the first `n` passes, one for each.
pub open spec fn notes_of(reports: Seq<SeedingReport>, n: int) -> Seq<Note>
    decreases n,
{
    if n <= 0 {
        Seq::empty()
    } else {
        notes_of(reports, n - 1).push(
            Note::SeededParkedCars {
                placed: reports[n - 1].placed,
                requested: reports[n - 1].requested,
                total_spots: reports[n - 1].total_spots,
            },
        )
    }
}

/// The sums and the notes of the first `n` reports depend on those
/// reports alone.
pub proof fn lemma_sums_prefix(a: Seq<SeedingReport>, b: Seq<SeedingReport>, n: int)
    requires
        0 <= n <= a.len(),
        n <= b.len(),
        forall|i: int| 0 <= i < n ==> a[i] == b[i],
    ensures
        sum_placed(a, n) == sum_placed(b, n),
        sum_requested(a, n) == sum_requested(b, n),
        notes_of(a, n) == notes_of(b, n),
    decreases n,
{
    if n > 0 {
        lemma_sums_prefix(a, b, n - 1);
    }
}

/// The parking subsystem of `after` has the spots of `before`. Each spot
/// that held a vehicle holds it still; each spot that was free is free,
/// or holds a car that was made since, and that a building owns.
pub open spec fn kept_parked(before: &Sim, after: &Sim) -> bool {
    &&& before.car_id_counter <= after.car_id_counter
    &&& after.parking_state.lanes.len() == before.parking_state.lanes.len()
    &&& forall|l: int|
        0 <= l < before.parking_state.lanes.len() ==> (#[trigger] after.parking_state.lanes[l]).len()
            == before.parking_state.lanes[l].len()
    &&& forall|spot: ParkingSpot|
        before.parking_state.has_spot(spot) && (#[trigger] before.parking_state.at(spot)) is Some
            ==> after.parking_state.at(spot) == before.parking_state.at(spot)
    &&& forall|spot: ParkingSpot|
        before.parking_state.has_spot(spot) && before.parking_state.at(spot) is None && (
        #[trigger] after.parking_state.at(spot)) is Some ==> {
            let c = after.parking_state.at(spot).unwrap();
            &&& c.spot == spot
            &&& c.owner is Some
            &&& before.car_id_counter <= c.vehicle.id.0 < after.car_id_counter
            &&& crate::random::is_random_car(
                VehicleSpec {
                    vehicle_type: c.vehicle.vehicle_type,
                    length: c.vehicle.length,
                    max_speed: c.vehicle.max_speed,
                },
            )
        }
}

/// What is kept over one stretch and over the next is kept over both.
pub proof fn lemma_kept_parked_trans(a: &Sim, b: &Sim, c: &Sim)
    requires
        kept_parked(a, b),
        kept_parked(b, c),
    ensures
        kept_parked(a, c),
{
    assert forall|spot: ParkingSpot|
        a.parking_state.has_spot(spot) && (#[trigger] a.parking_state.at(spot))
            is Some implies c.parking_state.at(spot) == a.parking_state.at(spot) by {
        assert(b.parking_state.has_spot(spot));
        assert(b.parking_state.at(spot) == a.parking_state.at(spot));
    }
    assert forall|spot: ParkingSpot|
        a.parking_state.has_spot(spot) && a.parking_state.at(spot) is None && (
        #[trigger] c.parking_state.at(spot)) is Some implies ({
        let x = c.parking_state.at(spot).unwrap();
        &&& x.spot == spot
        &&& x.owner is Some
        &&& a.car_id_counter <= x.vehicle.id.0 < c.car_id_counter
        &&& crate::random::is_random_car(
            VehicleSpec {
                vehicle_type: x.vehicle.vehicle_type,
                length: x.vehicle.length,
                max_speed: x.vehicle.max_speed,
            },
        )
    }) by {
        assert(b.parking_state.has_spot(spot));
        if b.parking_state.at(spot) is Some {
            assert(c.parking_state.at(spot) == b.parking_state.at(spot));
        }
    }
}

/// The request with the number `n - 1` for parked cars leads from `mid`
/// to `after`, with the draws `draws` and the table `table`.
pub open spec fn seed_step(
    seeds: Seq<SeedParkedCars>,
    neighborhoods: &Neighborhoods,
    map: &RoadMap,
    mid: &Sim,
    after: &Sim,
    warned_mid: Seq<Warning>,
    warned_after: Seq<Warning>,
    reports: Seq<SeedingReport>,
    n: int,
    draws: Seq<usize>,
    table: Seq<Seq<ParkingSpot>>,
) -> bool {
    let at = neighborhoods.get(seeds[n - 1].neighborhood@);
    &&& n > 0
    &&& seeded(
        mid,
        after,
        map,
        seeds[n - 1].cars_per_building.weights@,
        at.buildings@,
        roads_upto(at.roads@, map.roads.len() as int),
        warned_mid,
        warned_after,
        reports[n - 1],
        draws,
        table,
    )
}

/// The first `n` requests for parked cars were served one after the
/// other, each by a pass of seeding on the state that the one before it
/// left, and `reports` holds the report of each.
pub open spec fn seeds_served(
    seeds: Seq<SeedParkedCars>,
    neighborhoods: &Neighborhoods,
    map: &RoadMap,
    before: &Sim,
    after: &Sim,
    warned_before: Seq<Warning>,
    warned_after: Seq<Warning>,
    reports: Seq<SeedingReport>,
    n: int,
) -> bool
    decreases n,
{
    if n <= 0 {
        *after == *before && warned_after == warned_before
    } else {
        exists|mid: Sim, warned_mid: Seq<Warning>, draws: Seq<usize>, table: Seq<Seq<ParkingSpot>>|
            {
                &&& #[trigger] seed_step(
                    seeds,
                    neighborhoods,
                    map,
                    &mid,
                    after,
                    warned_mid,
                    warned_after,
                    reports,
                    n,
                    draws,
                    table,
                )
                &&& seeds_served(
                    seeds,
                    neighborhoods,
                    map,
                    before,
                    &mid,
                    warned_before,
                    warned_mid,
                    reports,
                    n - 1,
                )
            }
    }
}

/// How the first `n` requests were served depends on the first `n`
/// reports only.
pub proof fn lemma_seeds_served_prefix(
    seeds: Seq<SeedParkedCars>,
    neighborhoods: &Neighborhoods,
    map: &RoadMap,
    before: &Sim,
    after: &Sim,
    warned_before: Seq<Warning>,
    warned_after: Seq<Warning>,
    a: Seq<SeedingReport>,
    b: Seq<SeedingReport>,
    n: int,
)
    requires
        n <= a.len(),
        n <= b.len(),
        forall|k: int| 0 <= k < n ==> a[k] == b[k],
        seeds_served(seeds, neighborhoods, map, before, after, warned_before, warned_after, a, n),
    ensures
        seeds_served(seeds, neighborhoods, map, before, after, warned_before, warned_after, b, n),
    decreases n,
{
    if n > 0 {
        let (mid, warned_mid, draws, table) = choose|
            mid: Sim,
            warned_mid: Seq<Warning>,
            draws: Seq<usize>,
            table: Seq<Seq<ParkingSpot>>,
        |
            {
                &&& #[trigger] seed_step(
                    seeds,
                    neighborhoods,
                    map,
                    &mid,
                    after,
                    warned_mid,
                    warned_after,
                    a,
                    n,
                    draws,
                    table,
                )
                &&& seeds_served(
                    seeds,
                    neighborhoods,
                    map,
                    before,
                    &mid,
                    warned_before,
                    warned_mid,
                    a,
                    n - 1,
                )
            };
        lemma_seeds_served_prefix(
            seeds,
            neighborhoods,
            map,
            before,
            &mid,
            warned_before,
            warned_mid,
            a,
            b,
            n - 1,
        );
        assert(seed_step(
            seeds,
            neighborhoods,
            map,
            &mid,
            after,
            warned_mid,
            warned_after,
            b,
            n,
            draws,
            table,
        ));
    }
}

impl Scenario {
    /// Every request can be served.
    pub open spec fn can_run(&self, map: &RoadMap, neighborhoods: &Neighborhoods) -> bool {
        &&& forall|i: int|
            0 <= i < self.seed_parked_cars.len() ==> (
            #[trigger] self.seed_parked_cars[i]).cars_per_building.wf()
        &&& forall|i: int|
            0 <= i < self.spawn_over_time.len() ==> (#[trigger] self.spawn_over_time[i]).can_run(
                map,
                neighborhoods,
            )
        &&& forall|i: int|
            0 <= i < self.border_spawn_over_time.len() ==> (
            #[trigger] self.border_spawn_over_time[i]).can_run(map, neighborhoods)
    }

    /// The most cars that the requests for parked cars can place.
    pub open spec fn spec_max_seeded(&self, neighborhoods: &Neighborhoods) -> int {
        max_seeded(self.seed_parked_cars@, neighborhoods, self.seed_parked_cars.len() as int)
    }

    /// Serves the requests for parked cars, one after the other, and
    /// gives the report of each.
    pub fn seed_all(
        &self,
        sim: &mut Sim,
        map: &RoadMap,
        neighborhoods: &Neighborhoods,
        rng: &mut XorShiftRng,
        timer: &mut Timer,
    ) -> (reports: Vec<SeedingReport>)
        requires
            map.wf(),
            neighborhoods.wf(map),
            old(sim).wf(),
            old(sim).fits(map),
            forall|i: int|
                0 <= i < self.seed_parked_cars.len() ==> neighborhoods.defines(
                    (#[trigger] self.seed_parked_cars[i]).neighborhood@,
                ) && self.seed_parked_cars[i].cars_per_building.wf(),
            old(sim).car_id_counter + self.spec_max_seeded(neighborhoods) <= usize::MAX,
        ensures
            final(sim).wf(),
            final(sim).fits(map),
            reports.len() == self.seed_parked_cars.len(),
            seeds_served(
                self.seed_parked_cars@,
                neighborhoods,
                map,
                old(sim),
                final(sim),
                old(timer).warnings@,
                final(timer).warnings@,
                reports@,
                reports.len() as int,
            ),
            self.seed_parked_cars.len() == 0 ==> *final(rng) == *old(rng),
            same_but_parking(old(sim), final(sim)),
            kept_parked(old(sim), final(sim)),
            final(sim).car_id_counter == old(sim).car_id_counter + sum_placed(
                reports@,
                reports.len() as int,
            ),
            final(sim).parking_state.num_parked == old(sim).parking_state.num_parked + sum_placed(
                reports@,
                reports.len() as int,
            ),
            sum_placed(reports@, reports.len() as int) <= self.spec_max_seeded(neighborhoods),
            sum_placed(reports@, reports.len() as int) + count_no_room(final(timer).warnings@)
                == sum_requested(reports@, reports.len() as int) + count_no_room(
                old(timer).warnings@,
            ),
            forall|i: int|
                0 <= i < reports.len() ==> (#[trigger] reports[i]).placed <= reports[i].total_spots,
            extends(old(timer).warnings@, final(timer).warnings@),
            final(timer).notes@ == old(timer).notes@ + notes_of(reports@, reports.len() as int),
    {
        let mut reports: Vec<SeedingReport> = Vec::new();
        let ghost seeds = self.seed_parked_cars@;
        let mut i: usize = 0;
        proof {
            assert(timer.warnings@.subrange(0, timer.warnings@.len() as int) =~= timer.warnings@);
            assert(timer.notes@ =~= timer.notes@ + notes_of(reports@, 0));
        }
        while i < self.seed_parked_cars.len()
            invariant
                map.wf(),
                neighborhoods.wf(map),
                seeds == self.seed_parked_cars@,
                forall|k: int|
                    0 <= k < self.seed_parked_cars.len() ==> neighborhoods.defines(
                        (#[trigger] self.seed_parked_cars[k]).neighborhood@,
                    ) && self.seed_parked_cars[k].cars_per_building.wf(),
                old(sim).car_id_counter + self.spec_max_seeded(neighborhoods) <= usize::MAX,
                i <= self.seed_parked_cars.len(),
                i == 0 ==> *rng == *old(rng),
                seeds_served(
                    seeds,
                    neighborhoods,
                    map,
                    old(sim),
                    sim,
                    old(timer).warnings@,
                    timer.warnings@,
                    reports@,
                    i as int,
                ),
                sim.wf(),
                sim.fits(map),
                same_but_parking(old(sim), sim),
                kept_parked(old(sim), sim),
                reports.len() == i,
                sim.car_id_counter == old(sim).car_id_counter + sum_placed(reports@, i as int),
                sim.parking_state.num_parked == old(sim).parking_state.num_parked + sum_placed(
                    reports@,
                    i as int,
                ),
                sum_placed(reports@, i as int) <= max_seeded(seeds, neighborhoods, i as int),
                sum_placed(reports@, i as int) + count_no_room(timer.warnings@) == sum_requested(
                    reports@,
                    i as int,
                ) + count_no_room(old(timer).warnings@),
                forall|k: int|
                    0 <= k < reports.len() ==> (#[trigger] reports[k]).placed
                        <= reports[k].total_spots,
                extends(old(timer).warnings@, timer.warnings@),
                timer.notes@ == old(timer).notes@ + notes_of(reports@, i as int),
            decreases self.seed_parked_cars.len() - i,
        {
            let s = &self.seed_parked_cars[i];
            let at = neighborhoods.find(&s.neighborhood).unwrap();
            let nb = &neighborhoods.all[at];
            let ghost mid = *sim;
            let ghost warned = timer.warnings@;
            let ghost done = reports@;
            proof {
                lemma_max_seeded_grows(seeds, neighborhoods, i + 1, seeds.len() as int);
                assert(nb.wf(map));
            }
            let report = seed_parked_cars(
                sim,
                &s.cars_per_building,
                &nb.buildings,
                &nb.roads,
                rng,
                map,
                timer,
            );
            reports.push(report);
            proof {
                let (draws, table) = choose|draws: Seq<usize>, table: Seq<Seq<ParkingSpot>>|
                    #[trigger] seeded(
                        &mid,
                        sim,
                        map,
                        s.cars_per_building.weights@,
                        nb.buildings@,
                        roads_upto(nb.roads@, map.roads.len() as int),
                        warned,
                        timer.warnings@,
                        report,
                        draws,
                        table,
                    );
                lemma_seeds_served_prefix(
                    seeds,
                    neighborhoods,
                    map,
                    old(sim),
                    &mid,
                    old(timer).warnings@,
                    warned,
                    done,
                    reports@,
                    i as int,
                );
                assert(seed_step(
                    seeds,
                    neighborhoods,
                    map,
                    &mid,
                    sim,
                    warned,
                    timer.warnings@,
                    reports@,
                    i + 1,
                    draws,
                    table,
                ));
                lemma_sums_prefix(done, reports@, i as int);
                assert(kept_parked(&mid, sim)) by {
                    assert forall|spot: ParkingSpot|
                        mid.parking_state.has_spot(spot) && mid.parking_state.at(spot) is None && (
                        #[trigger] sim.parking_state.at(spot)) is Some implies ({
                        let c = sim.parking_state.at(spot).unwrap();
                        &&& c.spot == spot
                        &&& c.owner is Some
                        &&& mid.car_id_counter <= c.vehicle.id.0 < sim.car_id_counter
                        &&& crate::random::is_random_car(
                            VehicleSpec {
                                vehicle_type: c.vehicle.vehicle_type,
                                length: c.vehicle.length,
                                max_speed: c.vehicle.max_speed,
                            },
                        )
                    }) by {
                        assert(is_seeded_car(
                            sim.parking_state.at(spot).unwrap(),
                            spot,
                            nb.buildings@,
                            mid.car_id_counter as int,
                            sim.car_id_counter as int,
                        ));
                    }
                }
                lemma_kept_parked_trans(old(sim), &mid, sim);
                assert(report.requested <= nb.buildings.len() * s.cars_per_building.weights.len())
                    by (nonlinear_arith)
                    requires
                        report.requested <= nb.buildings.len() * (
                        s.cars_per_building.weights.len() - 1),
                        0 <= nb.buildings.len(),
                ;
                assert(timer.warnings@.subrange(0, old(timer).warnings@.len() as int) =~= warned.subrange(
                    0,
                    old(timer).warnings@.len() as int,
                ));
                assert(timer.notes@ =~= old(timer).notes@ + notes_of(reports@, i + 1));
            }
            i += 1;
        }
        reports
    }
}

/// How many agents the first `n` requests ask for.
pub open spec fn agents_of_spawns(spawns: Seq<SpawnOverTime>, n: int) -> int
    decreases n,
{
    if n <= 0 {
        0
    } else {
        agents_of_spawns(spawns, n - 1) + spawns[n - 1].num_agents
    }
}

/// How many agents the first `n` requests ask for.
pub open spec fn agents_of_borders(borders: Seq<BorderSpawnOverTime>, n: int) -> int
    decreases n,
{
    if n <= 0 {
        0
    } else {
        agents_of_borders(borders, n - 1) + borders[n - 1].num_peds + borders[n - 1].num_cars
            + borders[n - 1].num_bikes
    }
}

/// The least number of trips that the first `n` requests schedule.
pub open spec fn sure_of_spawns(spawns: Seq<SpawnOverTime>, map: &RoadMap, n: int) -> int
    decreases n,
{
    if n <= 0 {
        0
    } else {
        sure_of_spawns(spawns, map, n - 1) + spawns[n - 1].sure_agents(map)
    }
}

/// How many agents the first `n` requests start.
pub open spec fn counts_of_borders(borders: Seq<BorderSpawnOverTime>, map: &RoadMap, n: int) -> int
    decreases n,
{
    if n <= 0 {
        0
    } else {
        counts_of_borders(borders, map, n - 1) + borders[n - 1].spec_count(map)
    }
}

/// No more trips are sure, and no more agents start, than are asked for.
pub proof fn lemma_counts_bounded(
    spawns: Seq<SpawnOverTime>,
    borders: Seq<BorderSpawnOverTime>,
    map: &RoadMap,
    n: int,
)
    requires
        0 <= n,
    ensures
        0 <= sure_of_spawns(spawns, map, n) <= agents_of_spawns(spawns, n),
        0 <= counts_of_borders(borders, map, n) <= agents_of_borders(borders, n),
    decreases n,
{
    if n > 0 {
        lemma_counts_bounded(spawns, borders, map, n - 1);
    }
}

/// The more requests, the more agents they ask for.
pub proof fn lemma_agents_grow(
    spawns: Seq<SpawnOverTime>,
    borders: Seq<BorderSpawnOverTime>,
    n: int,
    m: int,
)
    requires
        0 <= n <= m,
    ensures
        0 <= agents_of_spawns(spawns, n) <= agents_of_spawns(spawns, m),
        0 <= agents_of_borders(borders, n) <= agents_of_borders(borders, m),
    decreases m,
{
    if m > 0 {
        if n < m {
            lemma_agents_grow(spawns, borders, n, m - 1);
        } else {
            lemma_agents_grow(spawns, borders, n - 1, m - 1);
        }
    }
}

/// The warnings that the first `n` requests for agents at borders leave,
/// in the order of the requests.
pub open spec fn border_warnings(borders: Seq<BorderSpawnOverTime>, map: &RoadMap, n: int) -> Seq<
    Warning,
>
    decreases n,
{
    if n <= 0 {
        Seq::empty()
    } else {
        border_warnings(borders, map, n - 1) + borders[n - 1].spec_warnings(map)
    }
}

/// The trips of the first `n` requests for agents at borders stand in
/// the queue from position `from` on, request after request, and those
/// of each request mode after mode.
pub open spec fn borders_served(
    borders: Seq<BorderSpawnOverTime>,
    map: &RoadMap,
    neighborhoods: &Neighborhoods,
    queue: Seq<Scheduled>,
    from: int,
    n: int,
) -> bool
    decreases n,
{
    if n <= 0 {
        true
    } else {
        &&& borders_served(borders, map, neighborhoods, queue, from, n - 1)
        &&& borders[n - 1].served(
            map,
            neighborhoods,
            queue,
            from + counts_of_borders(borders, map, n - 1),
        )
    }
}

/// Whether one of the first `n` requests for agents at borders makes a
/// draw.
pub open spec fn borders_draw(borders: Seq<BorderSpawnOverTime>, map: &RoadMap, n: int) -> bool {
    exists|i: int| 0 <= i < n && (#[trigger] borders[i]).spawns_anything(map)
}

/// Trips added at the end of the queue leave the trips of the requests
/// where they stand.
pub proof fn lemma_borders_served_stays(
    borders: Seq<BorderSpawnOverTime>,
    map: &RoadMap,
    neighborhoods: &Neighborhoods,
    shorter: Seq<Scheduled>,
    longer: Seq<Scheduled>,
    from: int,
    n: int,
)
    requires
        0 <= n,
        0 <= from,
        from + counts_of_borders(borders, map, n) <= shorter.len(),
        extends(shorter, longer),
        borders_served(borders, map, neighborhoods, shorter, from, n),
    ensures
        borders_served(borders, map, neighborhoods, longer, from, n),
    decreases n,
{
    if n > 0 {
        lemma_counts_bounded(Seq::empty(), borders, map, n - 1);
        lemma_borders_served_stays(borders, map, neighborhoods, shorter, longer, from, n - 1);
        assert forall|k: int| 0 <= k < shorter.len() implies longer[k] == shorter[k] by {
            assert(longer.subrange(0, shorter.len() as int)[k] == longer[k]);
        }
    }
}

/// What the first `n` requests for agents of neighborhoods come to, one
/// after the other, where `all_draws` holds the draws of each request.
pub open spec fn spawn_fold(
    spawns: Seq<SpawnOverTime>,
    parking: &ParkingSimState,
    map: &RoadMap,
    start: Spawned,
    all_draws: Seq<Seq<AgentDraws>>,
    n: int,
) -> Spawned
    decreases n,
{
    if n <= 0 {
        start
    } else {
        spawns[n - 1].spec_spawn(
            parking,
            map,
            spawn_fold(spawns, parking, map, start, all_draws, n - 1),
            all_draws[n - 1],
            all_draws[n - 1].len() as int,
        )
    }
}

/// `all_draws` holds, for each of the requests, what can be drawn for its
/// agents.
pub open spec fn all_drawn(
    spawns: Seq<SpawnOverTime>,
    neighborhoods: &Neighborhoods,
    all_draws: Seq<Seq<AgentDraws>>,
) -> bool {
    &&& all_draws.len() == spawns.len()
    &&& forall|i: int|
        0 <= i < spawns.len() ==> (#[trigger] spawns[i]).drawn(neighborhoods, all_draws[i])
}

/// The requests were served with the draws `all_draws`: from `start`,
/// their agents come to `end`.
pub open spec fn all_spawned(
    spawns: Seq<SpawnOverTime>,
    parking: &ParkingSimState,
    map: &RoadMap,
    neighborhoods: &Neighborhoods,
    start: Spawned,
    end: Spawned,
    all_draws: Seq<Seq<AgentDraws>>,
) -> bool {
    &&& all_drawn(spawns, neighborhoods, all_draws)
    &&& end == spawn_fold(spawns, parking, map, start, all_draws, spawns.len() as int)
}

/// What the first `n` requests come to depends on the draws of the first
/// `n` requests only.
pub proof fn lemma_spawn_fold_prefix(
    spawns: Seq<SpawnOverTime>,
    parking: &ParkingSimState,
    map: &RoadMap,
    start: Spawned,
    a: Seq<Seq<AgentDraws>>,
    b: Seq<Seq<AgentDraws>>,
    n: int,
)
    requires
        n <= a.len(),
        n <= b.len(),
        forall|k: int| 0 <= k < n ==> a[k] == b[k],
    ensures
        spawn_fold(spawns, parking, map, start, a, n) == spawn_fold(
            spawns,
            parking,
            map,
            start,
            b,
            n,
        ),
    decreases n,
{
    if n > 0 {
        lemma_spawn_fold_prefix(spawns, parking, map, start, a, b, n - 1);
    }
}

/// Requests that ask for no agent leave everything as it was.
pub proof fn lemma_no_agents_fold(
    spawns: Seq<SpawnOverTime>,
    parking: &ParkingSimState,
    map: &RoadMap,
    neighborhoods: &Neighborhoods,
    start: Spawned,
    all_draws: Seq<Seq<AgentDraws>>,
    n: int,
)
    requires
        0 <= n <= spawns.len(),
        all_drawn(spawns, neighborhoods, all_draws),
        agents_of_spawns(spawns, n) == 0,
    ensures
        spawn_fold(spawns, parking, map, start, all_draws, n) == start,
    decreases n,
{
    if n > 0 {
        lemma_agents_grow(spawns, Seq::empty(), n - 1, n);
        lemma_no_agents_fold(spawns, parking, map, neighborhoods, start, all_draws, n - 1);
        assert(spawns[n - 1].drawn(neighborhoods, all_draws[n - 1]));
    }
}

impl Scenario {
    /// How many agents the scenario asks for.
    pub open spec fn total_agents(&self) -> int {
        agents_of_spawns(self.spawn_over_time@, self.spawn_over_time.len() as int)
            + agents_of_borders(
            self.border_spawn_over_time@,
            self.border_spawn_over_time.len() as int,
        )
    }

    /// The least number of trips that the scenario schedules, whatever
    /// is drawn.
    pub open spec fn min_trips(&self, map: &RoadMap) -> int {
        sure_of_spawns(self.spawn_over_time@, map, self.spawn_over_time.len() as int)
            + counts_of_borders(
            self.border_spawn_over_time@,
            map,
            self.border_spawn_over_time.len() as int,
        )
    }

    /// The greatest number of trips that the scenario schedules, whatever
    /// is drawn.
    pub open spec fn max_trips(&self, map: &RoadMap) -> int {
        agents_of_spawns(self.spawn_over_time@, self.spawn_over_time.len() as int)
            + counts_of_borders(
            self.border_spawn_over_time@,
            map,
            self.border_spawn_over_time.len() as int,
        )
    }

    /// Whether some request of the scenario can put `entry` in the queue.
    pub open spec fn may_schedule(
        &self,
        parking: &ParkingSimState,
        map: &RoadMap,
        neighborhoods: &Neighborhoods,
        entry: Scheduled,
    ) -> bool {
        ||| exists|i: int|
            0 <= i < self.spawn_over_time.len() && (#[trigger] self.spawn_over_time[i]).may_schedule(
                parking,
                map,
                neighborhoods,
                entry,
            )
        ||| exists|i: int|
            0 <= i < self.border_spawn_over_time.len() && !(entry.1 is UsingParkedCar) && (
            #[trigger] self.border_spawn_over_time[i]).may_schedule(map, neighborhoods, entry)
    }

    /// Serves the requests for agents of neighborhoods, one after the
    /// other.
    pub fn spawn_all(
        &self,
        sim: &mut Sim,
        reserved_cars: &mut HashSet<usize>,
        map: &RoadMap,
        neighborhoods: &Neighborhoods,
        rng: &mut XorShiftRng,
        timer: &mut Timer,
        pass_start: usize,
    )
        requires
            map.wf(),
            neighborhoods.wf(map),
            forall|i: int|
                0 <= i < self.spawn_over_time.len() ==> (
                #[trigger] self.spawn_over_time[i]).can_run(map, neighborhoods),
            old(sim).parking_state.wf(),
            pass_start <= old(sim).queued_trips@.len(),
            reservations_ok(
                &old(sim).parking_state,
                old(sim).queued_trips@,
                pass_start as int,
                old(reserved_cars)@,
            ),
        ensures
            final(timer).notes == old(timer).notes,
            exists|all_draws: Seq<Seq<AgentDraws>>|
                #[trigger] all_spawned(
                    self.spawn_over_time@,
                    &old(sim).parking_state,
                    map,
                    neighborhoods,
                    (Spawned {
                        queue: old(sim).queued_trips@,
                        reserved: old(reserved_cars)@,
                        warnings: old(timer).warnings@,
                    }),
                    (Spawned {
                        queue: final(sim).queued_trips@,
                        reserved: final(reserved_cars)@,
                        warnings: final(timer).warnings@,
                    }),
                    all_draws,
                ),
            agents_of_spawns(self.spawn_over_time@, self.spawn_over_time.len() as int) == 0
                ==> *final(rng) == *old(rng),
            batch_done(
                old(sim),
                final(sim),
                old(timer).warnings@,
                final(timer).warnings@,
                sure_of_spawns(self.spawn_over_time@, map, self.spawn_over_time.len() as int),
                agents_of_spawns(self.spawn_over_time@, self.spawn_over_time.len() as int),
                |e: Scheduled| self.may_schedule(&old(sim).parking_state, map, neighborhoods, e),
            ),
            reservations_ok(
                &final(sim).parking_state,
                final(sim).queued_trips@,
                pass_start as int,
                final(reserved_cars)@,
            ),
    {
        let ghost parking = sim.parking_state;
        let ghost each = |e: Scheduled|
            self.may_schedule(&old(sim).parking_state, map, neighborhoods, e);
        let ghost spawns = self.spawn_over_time@;
        let ghost start = Spawned {
            queue: sim.queued_trips@,
            reserved: reserved_cars@,
            warnings: timer.warnings@,
        };
        let ghost all_draws: Seq<Seq<AgentDraws>> = Seq::empty();
        let mut i: usize = 0;
        proof {
            assert(sim.queued_trips@.subrange(0, sim.queued_trips@.len() as int)
                =~= sim.queued_trips@);
            assert(timer.warnings@.subrange(0, timer.warnings@.len() as int) =~= timer.warnings@);
        }
        while i < self.spawn_over_time.len()
            invariant
                map.wf(),
                neighborhoods.wf(map),
                forall|k: int|
                    0 <= k < self.spawn_over_time.len() ==> (
                    #[trigger] self.spawn_over_time[k]).can_run(map, neighborhoods),
                spawns == self.spawn_over_time@,
                parking == old(sim).parking_state,
                parking.wf(),
                each == |e: Scheduled|
                    self.may_schedule(&old(sim).parking_state, map, neighborhoods, e),
                i <= self.spawn_over_time.len(),
                agents_of_spawns(spawns, i as int) == 0 ==> *rng == *old(rng),
                all_draws.len() == i,
                forall|k: int|
                    0 <= k < i ==> (#[trigger] spawns[k]).drawn(neighborhoods, all_draws[k]),
                (Spawned {
                    queue: sim.queued_trips@,
                    reserved: reserved_cars@,
                    warnings: timer.warnings@,
                }) == spawn_fold(spawns, &parking, map, start, all_draws, i as int),
                pass_start <= old(sim).queued_trips@.len(),
                timer.notes == old(timer).notes,
                batch_done(
                    old(sim),
                    sim,
                    old(timer).warnings@,
                    timer.warnings@,
                    sure_of_spawns(spawns, map, i as int),
                    agents_of_spawns(spawns, i as int),
                    each,
                ),
                reservations_ok(&parking, sim.queued_trips@, pass_start as int, reserved_cars@),
            decreases self.spawn_over_time.len() - i,
        {
            let s = &self.spawn_over_time[i];
            let ghost mid = *sim;
            let ghost reserved = reserved_cars@;
            let ghost warned = timer.warnings@;
            s.spawn_agents(sim, reserved_cars, map, neighborhoods, rng, timer, pass_start);
            proof {
                let before = Spawned { queue: mid.queued_trips@, reserved: reserved, warnings: warned };
                let now = Spawned {
                    queue: sim.queued_trips@,
                    reserved: reserved_cars@,
                    warnings: timer.warnings@,
                };
                let draws = choose|draws: Seq<AgentDraws>|
                    #[trigger] s.agents_spawned(&parking, map, neighborhoods, before, now, draws);
                lemma_spawn_fold_prefix(
                    spawns,
                    &parking,
                    map,
                    start,
                    all_draws,
                    all_draws.push(draws),
                    i as int,
                );
                all_draws = all_draws.push(draws);
                assert(spawns[i as int].drawn(neighborhoods, all_draws[i as int]));
                let narrow = |e: Scheduled| s.may_schedule(&parking, map, neighborhoods, e);
                assert forall|e: Scheduled| narrow(e) implies #[trigger] each(e) by {
                    assert(self.spawn_over_time[i as int].may_schedule(
                        &parking,
                        map,
                        neighborhoods,
                        e,
                    ));
                }
                lemma_batch_widen(
                    &mid,
                    sim,
                    warned,
                    timer.warnings@,
                    s.sure_agents(map),
                    s.num_agents as int,
                    s.num_agents as int,
                    narrow,
                    each,
                );
                lemma_batches_join(
                    old(sim),
                    &mid,
                    sim,
                    old(timer).warnings@,
                    warned,
                    timer.warnings@,
                    sure_of_spawns(spawns, map, i as int),
                    agents_of_spawns(spawns, i as int),
                    s.sure_agents(map),
                    s.num_agents as int,
                    each,
                );
            }
            i += 1;
        }
        proof {
            assert(all_spawned(
                spawns,
                &parking,
                map,
                neighborhoods,
                start,
                Spawned {
                    queue: sim.queued_trips@,
                    reserved: reserved_cars@,
                    warnings: timer.warnings@,
                },
                all_draws,
            ));
        }
    }

    /// Serves the requests for agents at borders, one after the other.
    pub fn border_all(
        &self,
        sim: &mut Sim,
        map: &RoadMap,
        neighborhoods: &Neighborhoods,
        rng: &mut XorShiftRng,
        timer: &mut Timer,
    )
        requires
            map.wf(),
            neighborhoods.wf(map),
            forall|i: int|
                0 <= i < self.border_spawn_over_time.len() ==> (
                #[trigger] self.border_spawn_over_time[i]).can_run(map, neighborhoods),
        ensures
            final(timer).notes == old(timer).notes,
            final(timer).warnings@ == old(timer).warnings@ + border_warnings(
                self.border_spawn_over_time@,
                map,
                self.border_spawn_over_time.len() as int,
            ),
            borders_served(
                self.border_spawn_over_time@,
                map,
                neighborhoods,
                final(sim).queued_trips@,
                old(sim).queued_trips@.len() as int,
                self.border_spawn_over_time.len() as int,
            ),
            !borders_draw(
                self.border_spawn_over_time@,
                map,
                self.border_spawn_over_time.len() as int,
            ) ==> *final(rng) == *old(rng),
            batch_done(
                old(sim),
                final(sim),
                old(timer).warnings@,
                final(timer).warnings@,
                counts_of_borders(
                    self.border_spawn_over_time@,
                    map,
                    self.border_spawn_over_time.len() as int,
                ),
                counts_of_borders(
                    self.border_spawn_over_time@,
                    map,
                    self.border_spawn_over_time.len() as int,
                ),
                |e: Scheduled|
                    !(e.1 is UsingParkedCar) && self.may_schedule(
                        &old(sim).parking_state,
                        map,
                        neighborhoods,
                        e,
                    ),
            ),
    {
        let ghost parking = sim.parking_state;
        let ghost each = |e: Scheduled|
            !(e.1 is UsingParkedCar) && self.may_schedule(
                &old(sim).parking_state,
                map,
                neighborhoods,
                e,
            );
        let ghost borders = self.border_spawn_over_time@;
        let mut i: usize = 0;
        proof {
            assert(sim.queued_trips@.subrange(0, sim.queued_trips@.len() as int)
                =~= sim.queued_trips@);
            assert(timer.warnings@.subrange(0, timer.warnings@.len() as int) =~= timer.warnings@);
        }
        while i < self.border_spawn_over_time.len()
            invariant
                map.wf(),
                neighborhoods.wf(map),
                forall|k: int|
                    0 <= k < self.border_spawn_over_time.len() ==> (
                    #[trigger] self.border_spawn_over_time[k]).can_run(map, neighborhoods),
                borders == self.border_spawn_over_time@,
                parking == old(sim).parking_state,
                each == |e: Scheduled|
                    !(e.1 is UsingParkedCar) && self.may_schedule(
                        &old(sim).parking_state,
                        map,
                        neighborhoods,
                        e,
                    ),
                i <= self.border_spawn_over_time.len(),
                timer.warnings@ == old(timer).warnings@ + border_warnings(borders, map, i as int),
                borders_served(
                    borders,
                    map,
                    neighborhoods,
                    sim.queued_trips@,
                    old(sim).queued_trips@.len() as int,
                    i as int,
                ),
                sim.queued_trips@.len() == old(sim).queued_trips@.len() + counts_of_borders(
                    borders,
                    map,
                    i as int,
                ),
                !borders_draw(borders, map, i as int) ==> *rng == *old(rng),
                timer.notes == old(timer).notes,
                batch_done(
                    old(sim),
                    sim,
                    old(timer).warnings@,
                    timer.warnings@,
                    counts_of_borders(borders, map, i as int),
                    counts_of_borders(borders, map, i as int),
                    each,
                ),
            decreases self.border_spawn_over_time.len() - i,
        {
            let s = &self.border_spawn_over_time[i];
            let ghost mid = *sim;
            let ghost warned = timer.warnings@;
            s.spawn_at_border(sim, map, neighborhoods, rng, timer);
            proof {
                lemma_borders_served_stays(
                    borders,
                    map,
                    neighborhoods,
                    mid.queued_trips@,
                    sim.queued_trips@,
                    old(sim).queued_trips@.len() as int,
                    i as int,
                );
                assert(timer.warnings@ =~= old(timer).warnings@ + border_warnings(
                    borders,
                    map,
                    i + 1,
                ));
                if !borders_draw(borders, map, i + 1) {
                    assert(!borders[i as int].spawns_anything(map));
                    assert(!borders_draw(borders, map, i as int)) by {
                        if borders_draw(borders, map, i as int) {
                            let j = choose|j: int|
                                0 <= j < i && (#[trigger] borders[j]).spawns_anything(map);
                            assert(0 <= j < i + 1 && borders[j].spawns_anything(map));
                        }
                    }
                }
                let narrow = |e: Scheduled| s.may_schedule(map, neighborhoods, e);
                assert forall|e: Scheduled| narrow(e) implies #[trigger] each(e) by {
                    s.lemma_no_parked_car(map, neighborhoods, e);
                    assert(self.border_spawn_over_time[i as int].may_schedule(
                        map,
                        neighborhoods,
                        e,
                    ));
                }
                lemma_batch_widen(
                    &mid,
                    sim,
                    warned,
                    timer.warnings@,
                    s.spec_count(map),
                    s.spec_count(map),
                    s.spec_count(map),
                    narrow,
                    each,
                );
                lemma_batches_join(
                    old(sim),
                    &mid,
                    sim,
                    old(timer).warnings@,
                    warned,
                    timer.warnings@,
                    counts_of_borders(borders, map, i as int),
                    counts_of_borders(borders, map, i as int),
                    s.spec_count(map),
                    s.spec_count(map),
                    each,
                );
            }
            i += 1;
        }
    }
}

/// What an instantiation did.
#[derive(Clone, Debug)]
pub struct Instantiation {
    /// The reports of the passes of seeding, one for each request for
    /// parked cars, in the order of the requests.
    pub seeded: Vec<SeedingReport>,
    /// The trips that were scheduled, in the order in which they were.
    pub scheduled: Vec<Scheduled>,
}

/// What instantiating `scenario` leaves behind, where `reports` are the
/// reports of its passes of seeding and `scheduled` are the trips that
/// it scheduled, in the order in which it did.
pub open spec fn instantiated(
    scenario: &Scenario,
    before: &Sim,
    after: &Sim,
    map: &RoadMap,
    neighborhoods: &Neighborhoods,
    warned_before: Seq<Warning>,
    warned_after: Seq<Warning>,
    noted_before: Seq<Note>,
    noted_after: Seq<Note>,
    reports: Seq<SeedingReport>,
    scheduled: Seq<Scheduled>,
) -> bool {
    let placed = sum_placed(reports, reports.len() as int);
    let trips = sort_by_time(before.queued_trips@ + scheduled);
    &&& after.wf()
    &&& after.fits(map)
    &&& after.rng == before.rng
    &&& after.time == before.time
    &&& after.debug == before.debug
    &&& after.driving_state.lanes == before.driving_state.lanes
    &&& after.driving_state.turns == before.driving_state.turns
    &&& after.driving_state.stepped_at == before.driving_state.stepped_at
    &&& after.walking_state.lanes == before.walking_state.lanes
    &&& after.walking_state.turns
        == before.walking_state.turns
    // The parked cars.
    &&& kept_parked(before, after)
    &&& after.parking_state.num_parked == before.parking_state.num_parked + placed
    &&& reports.len() == scenario.seed_parked_cars.len()
    &&& placed + count_no_room(warned_after) == sum_requested(reports, reports.len() as int)
        + count_no_room(warned_before)
    &&& forall|i: int|
        0 <= i < reports.len() ==> (#[trigger] reports[i]).placed <= reports[i].total_spots
    &&& extends(warned_before, warned_after)
    &&& noted_after == noted_before + notes_of(reports, reports.len() as int)
    // The trips.
    &&& scenario.min_trips(map) <= scheduled.len() <= scenario.max_trips(map)
    &&& scheduled.len() <= scenario.total_agents()
    &&& forall|k: int|
        0 <= k < scheduled.len() ==> scenario.may_schedule(
            &after.parking_state,
            map,
            neighborhoods,
            #[trigger] scheduled[k],
        )
    &&& no_car_twice(scheduled, 0)
    &&& after.queued_trips@.len() == 0
    &&& after.realized_trips@ == before.realized_trips@ + trips
    &&& after.agents() == realize_all(
        Agents { next_car: before.car_id_counter + placed, ..before.agents() },
        trips,
        trips.len() as int,
    )
}

/// How the demand of `scenario` was met, where `seeded` is the state
/// after the requests for parked cars with the warnings `seed_warnings`,
/// and `all_draws` holds the draws of the requests for agents of
/// neighborhoods.
///
/// The requests for parked cars were served one after the other; what
/// is parked in `seeded` is what is parked in `after`. Then the agents
/// of neighborhoods were planned one after the other on the parked cars
/// of `seeded`, with no car reserved at first; their trips
/// come first among `scheduled`. Then come the trips of the requests at
/// borders, request after request and mode after mode. The warnings are
/// those of the three stages, in this order.
pub open spec fn demand_met(
    scenario: &Scenario,
    before: &Sim,
    after: &Sim,
    map: &RoadMap,
    neighborhoods: &Neighborhoods,
    warned_before: Seq<Warning>,
    warned_after: Seq<Warning>,
    reports: Seq<SeedingReport>,
    scheduled: Seq<Scheduled>,
    seeded: &Sim,
    seed_warnings: Seq<Warning>,
    all_draws: Seq<Seq<AgentDraws>>,
) -> bool {
    let spawns = scenario.spawn_over_time@;
    let borders = scenario.border_spawn_over_time@;
    let queue = before.queued_trips@ + scheduled;
    let spawned = spawn_fold(
        spawns,
        &seeded.parking_state,
        map,
        Spawned { queue: before.queued_trips@, reserved: Set::empty(), warnings: seed_warnings },
        all_draws,
        spawns.len() as int,
    );
    &&& seeds_served(
        scenario.seed_parked_cars@,
        neighborhoods,
        map,
        before,
        seeded,
        warned_before,
        seed_warnings,
        reports,
        reports.len() as int,
    )
    &&& after.parking_state == seeded.parking_state
    &&& all_drawn(spawns, neighborhoods, all_draws)
    &&& extends(spawned.queue, queue)
    &&& queue.len() == spawned.queue.len() + counts_of_borders(borders, map, borders.len() as int)
    &&& borders_served(
        borders,
        map,
        neighborhoods,
        queue,
        spawned.queue.len() as int,
        borders.len() as int,
    )
    &&& warned_after == spawned.warnings + border_warnings(borders, map, borders.len() as int)
}

impl Scenario {
    /// Instantiates the scenario: first every request for parked cars is
    /// served, then every request for agents of neighborhoods, then every
    /// request for agents at borders; at the end the trips that were
    /// scheduled, and those that were in the queue before, are realized
    /// in one go.
    ///
    /// If a request names a neighborhood that is not defined, nothing is
    /// done, and the error names the first such neighborhood.
    pub fn instantiate(
        &self,
        sim: &mut Sim,
        map: &RoadMap,
        neighborhoods: &Neighborhoods,
        rng: &mut XorShiftRng,
        timer: &mut Timer,
    ) -> (result: Result<Instantiation, ScenarioError>)
        requires
            map.wf(),
            neighborhoods.wf(map),
            old(sim).wf(),
            old(sim).fits(map),
            self.names_defined(neighborhoods) ==> self.can_run(map, neighborhoods),
            old(sim).car_id_counter + self.spec_max_seeded(neighborhoods) + old(sim).queued_trips.len() + self.total_agents() <= usize::MAX,
            old(sim).ped_id_counter + old(sim).queued_trips.len() + self.total_agents()
                <= usize::MAX,
        ensures
            result is Ok <==> self.names_defined(neighborhoods),
            result is Ok ==> instantiated(
                self,
                old(sim),
                final(sim),
                map,
                neighborhoods,
                old(timer).warnings@,
                final(timer).warnings@,
                old(timer).notes@,
                final(timer).notes@,
                result->Ok_0.seeded@,
                result->Ok_0.scheduled@,
            ),
            result is Ok ==> exists|
                seeded: Sim,
                seed_warnings: Seq<Warning>,
                all_draws: Seq<Seq<AgentDraws>>,
            |
                #[trigger] demand_met(
                    self,
                    old(sim),
                    final(sim),
                    map,
                    neighborhoods,
                    old(timer).warnings@,
                    final(timer).warnings@,
                    result->Ok_0.seeded@,
                    result->Ok_0.scheduled@,
                    &seeded,
                    seed_warnings,
                    all_draws,
                ),
            result is Ok && self.seed_parked_cars.len() == 0 && agents_of_spawns(
                self.spawn_over_time@,
                self.spawn_over_time.len() as int,
            ) == 0 && self.border_spawn_over_time.len() == 0 ==> {
                &&& final(timer).warnings@ == old(timer).warnings@
                &&& final(timer).notes@ == old(timer).notes@
            },
            result is Ok && self.seed_parked_cars.len() == 0 && agents_of_spawns(
                self.spawn_over_time@,
                self.spawn_over_time.len() as int,
            ) == 0 && !borders_draw(
                self.border_spawn_over_time@,
                map,
                self.border_spawn_over_time.len() as int,
            ) ==> *final(rng) == *old(rng),
            result matches Err(ScenarioError::UndefinedNeighborhood(name)) ==> {
                &&& self.spec_undefined(neighborhoods) == Some(name@)
                &&& *final(sim) == *old(sim)
                &&& *final(timer) == *old(timer)
                &&& *final(rng) == *old(rng)
            },
    {
        if let Some(name) = self.undefined_neighborhood(neighborhoods) {
            return Err(ScenarioError::UndefinedNeighborhood(name));
        }
        proof {
            lemma_seeds_undefined(
                self.seed_parked_cars@,
                neighborhoods,
                0,
                self.seed_parked_cars.len() as int,
            );
            lemma_agents_grow(
                self.spawn_over_time@,
                self.border_spawn_over_time@,
                0,
                self.spawn_over_time.len() as int,
            );
            lemma_agents_grow(
                self.spawn_over_time@,
                self.border_spawn_over_time@,
                0,
                self.border_spawn_over_time.len() as int,
            );
            lemma_counts_bounded(
                self.spawn_over_time@,
                self.border_spawn_over_time@,
                map,
                self.spawn_over_time.len() as int,
            );
            lemma_counts_bounded(
                self.spawn_over_time@,
                self.border_spawn_over_time@,
                map,
                self.border_spawn_over_time.len() as int,
            );
        }
        let ghost w0 = timer.warnings@;
        let reports = self.seed_all(sim, map, neighborhoods, rng, timer);
        let ghost s1 = *sim;
        let ghost w1 = timer.warnings@;
        let ghost parking = sim.parking_state;
        let ghost from = sim.queued_trips@.len() as int;
        // An agent never takes a parked car that another one has taken.
        let mut reserved_cars = HashSet::new();
        let pass_start = sim.queued_trips.len();
        self.spawn_all(sim, &mut reserved_cars, map, neighborhoods, rng, timer, pass_start);
        let ghost all_draws = choose|all_draws: Seq<Seq<AgentDraws>>|
            #[trigger] all_spawned(
                self.spawn_over_time@,
                &parking,
                map,
                neighborhoods,
                Spawned { queue: s1.queued_trips@, reserved: Set::empty(), warnings: w1 },
                Spawned {
                    queue: sim.queued_trips@,
                    reserved: reserved_cars@,
                    warnings: timer.warnings@,
                },
                all_draws,
            );
        let ghost s2 = *sim;
        let ghost w2 = timer.warnings@;
        self.border_all(sim, map, neighborhoods, rng, timer);
        let ghost s3 = *sim;
        let ghost w3 = timer.warnings@;
        let ghost queue = sim.queued_trips@;
        let mut scheduled: Vec<Scheduled> = Vec::new();
        let mut at: usize = pass_start;
        proof {
            assert(pass_start <= queue.len()) by {
                assert(s1.queued_trips@.len() <= s2.queued_trips@.len());
            }
        }
        while at < sim.queued_trips.len()
            invariant
                pass_start <= at <= sim.queued_trips.len(),
                sim.queued_trips@ == queue,
                scheduled@ == queue.subrange(pass_start as int, at as int),
            decreases sim.queued_trips.len() - at,
        {
            scheduled.push(sim.queued_trips[at]);
            proof {
                assert(queue.subrange(pass_start as int, at + 1) =~= queue.subrange(
                    pass_start as int,
                    at as int,
                ).push(queue[at as int]));
            }
            at += 1;
        }
        let trips = scheduled;
        let ghost scheduled = trips@;
        proof {
            assert(scheduled == queue.subrange(from, queue.len() as int));
            let q1 = s1.queued_trips@;
            let q2 = s2.queued_trips@;
            assert(q1 == old(sim).queued_trips@);
            assert forall|k: int| 0 <= k < q2.len() implies queue[k] == q2[k] by {
                assert(queue.subrange(0, q2.len() as int)[k] == queue[k]);
            }
            assert forall|k: int| 0 <= k < q1.len() implies queue[k] == q1[k] by {
                assert(q2.subrange(0, q1.len() as int)[k] == q2[k]);
            }
            lemma_others_keep_reservations(&parking, q2, queue, from, reserved_cars@);
            assert(queue =~= old(sim).queued_trips@ + scheduled);
            assert(extends(w0, w3)) by {
                assert(w3.subrange(0, w0.len() as int) =~= w2.subrange(0, w0.len() as int));
                assert(w2.subrange(0, w0.len() as int) =~= w1.subrange(0, w0.len() as int));
            }
            assert forall|k: int| 0 <= k < scheduled.len() implies self.may_schedule(
                &parking,
                map,
                neighborhoods,
                #[trigger] scheduled[k],
            ) by {
                assert(scheduled[k] == queue[from + k]);
                if from + k < q2.len() {
                    assert(queue[from + k] == q2[from + k]);
                }
            }
            assert(no_car_twice(scheduled, 0)) by {
                assert forall|k1: int, k2: int|
                    0 <= k1 < k2 < scheduled.len() && (#[trigger] scheduled[k1]).1 is UsingParkedCar
                        && (#[trigger] scheduled[k2]).1
                        is UsingParkedCar implies scheduled[k1].1->UsingParkedCar_1
                    != scheduled[k2].1->UsingParkedCar_1 by {
                    assert(scheduled[k1] == queue[from + k1]);
                    assert(scheduled[k2] == queue[from + k2]);
                }
            }
            crate::realize::lemma_sort_by_time(queue);
        }
        sim.spawn_all_trips(map);
        proof {
            assert(sim.parking_state == parking);
            assert(kept_parked(old(sim), sim));
            assert(s3.agents() == Agents {
                next_car: old(sim).car_id_counter + sum_placed(reports@, reports.len() as int),
                ..old(sim).agents()
            });
            assert(w0 == old(timer).warnings@);
            assert(demand_met(
                self,
                old(sim),
                sim,
                map,
                neighborhoods,
                old(timer).warnings@,
                timer.warnings@,
                reports@,
                scheduled,
                &s1,
                w1,
                all_draws,
            ));
            if self.seed_parked_cars.len() == 0 && agents_of_spawns(
                self.spawn_over_time@,
                self.spawn_over_time.len() as int,
            ) == 0 && self.border_spawn_over_time.len() == 0 {
                lemma_no_agents_fold(
                    self.spawn_over_time@,
                    &parking,
                    map,
                    neighborhoods,
                    Spawned { queue: s1.queued_trips@, reserved: Set::empty(), warnings: w1 },
                    all_draws,
                    self.spawn_over_time.len() as int,
                );
                assert(timer.warnings@ =~= old(timer).warnings@);
                assert(timer.notes@ =~= old(timer).notes@);
            }
            assert(instantiated(
                self,
                old(sim),
                sim,
                map,
                neighborhoods,
                old(timer).warnings@,
                timer.warnings@,
                old(timer).notes@,
                timer.notes@,
                reports@,
                scheduled,
            ));
        }
        let result = Ok(Instantiation { seeded: reports, scheduled: trips });
        proof {
            assert(demand_met(
                self,
                old(sim),
                sim,
                map,
                neighborhoods,
                old(timer).warnings@,
                timer.warnings@,
                result->Ok_0.seeded@,
                result->Ok_0.scheduled@,
                &s1,
                w1,
                all_draws,
            ));
        }
        result
    }
}

/// A scenario that asks for no agent schedules no trip: what it realizes
/// is what was in the queue before. With an empty queue it realizes
/// nothing.
pub proof fn lemma_no_agents_no_trips(
    scenario: &Scenario,
    before: &Sim,
    after: &Sim,
    map: &RoadMap,
    neighborhoods: &Neighborhoods,
    warned_before: Seq<Warning>,
    warned_after: Seq<Warning>,
    noted_before: Seq<Note>,
    noted_after: Seq<Note>,
    reports: Seq<SeedingReport>,
    scheduled: Seq<Scheduled>,
)
    requires
        instantiated(
            scenario,
            before,
            after,
            map,
            neighborhoods,
            warned_before,
            warned_after,
            noted_before,
            noted_after,
            reports,
            scheduled,
        ),
        scenario.total_agents() == 0,
    ensures
        scheduled.len() == 0,
        after.realized_trips@ == before.realized_trips@ + sort_by_time(before.queued_trips@),
        before.queued_trips@.len() == 0 ==> after.realized_trips@ == before.realized_trips@,
{
    assert(before.queued_trips@ + scheduled =~= before.queued_trips@);
    if before.queued_trips@.len() == 0 {
        assert(before.realized_trips@ + sort_by_time(before.queued_trips@)
            =~= before.realized_trips@);
    }
}

impl Scenario {
    /// Whether every request can be served.
    pub fn is_runnable(&self, map: &RoadMap, neighborhoods: &Neighborhoods) -> (ok: bool)
        requires
            map.wf(),
        ensures
            ok == self.can_run(map, neighborhoods),
    {
        let mut i: usize = 0;
        while i < self.seed_parked_cars.len()
            invariant
                i <= self.seed_parked_cars.len(),
                forall|k: int|
                    0 <= k < i ==> (#[trigger] self.seed_parked_cars[k]).cars_per_building.wf(),
            decreases self.seed_parked_cars.len() - i,
        {
            if !self.seed_parked_cars[i].cars_per_building.is_valid() {
                return false;
            }
            i += 1;
        }
        let mut i: usize = 0;
        while i < self.spawn_over_time.len()
            invariant
                i <= self.spawn_over_time.len(),
                forall|k: int|
                    0 <= k < self.seed_parked_cars.len() ==> (
                    #[trigger] self.seed_parked_cars[k]).cars_per_building.wf(),
                forall|k: int|
                    0 <= k < i ==> (#[trigger] self.spawn_over_time[k]).can_run(map, neighborhoods),
            decreases self.spawn_over_time.len() - i,
        {
            if !self.spawn_over_time[i].is_runnable(map, neighborhoods) {
                return false;
            }
            i += 1;
        }
        let mut i: usize = 0;
        while i < self.border_spawn_over_time.len()
            invariant
                map.wf(),
                i <= self.border_spawn_over_time.len(),
                forall|k: int|
                    0 <= k < self.seed_parked_cars.len() ==> (
                    #[trigger] self.seed_parked_cars[k]).cars_per_building.wf(),
                forall|k: int|
                    0 <= k < self.spawn_over_time.len() ==> (
                    #[trigger] self.spawn_over_time[k]).can_run(map, neighborhoods),
                forall|k: int|
                    0 <= k < i ==> (#[trigger] self.border_spawn_over_time[k]).can_run(
                        map,
                        neighborhoods,
                    ),
            decreases self.border_spawn_over_time.len() - i,
        {
            if !self.border_spawn_over_time[i].is_runnable(map, neighborhoods) {
                return false;
            }
            i += 1;
        }
        true
    }

    /// The most identifiers that instantiating the scenario can use up,
    /// for vehicles or for pedestrians: one for each car that can be
    /// seeded, and one for each agent. `None` if that is too many to
    /// count.
    pub fn id_demand(&self, neighborhoods: &Neighborhoods) -> (demand: Option<usize>)
        ensures
            demand is Some <==> self.spec_max_seeded(neighborhoods) + self.total_agents()
                <= usize::MAX,
            demand is Some ==> demand.unwrap() == self.spec_max_seeded(neighborhoods)
                + self.total_agents(),
    {
        let ghost seeds = self.seed_parked_cars@;
        let ghost spawns = self.spawn_over_time@;
        let ghost borders = self.border_spawn_over_time@;
        let mut total: usize = 0;
        let mut i: usize = 0;
        proof {
            lemma_agents_grow(spawns, borders, 0, spawns.len() as int);
            lemma_agents_grow(spawns, borders, 0, borders.len() as int);
        }
        while i < self.seed_parked_cars.len()
            invariant
                seeds == self.seed_parked_cars@,
                spawns == self.spawn_over_time@,
                borders == self.border_spawn_over_time@,
                i <= self.seed_parked_cars.len(),
                total == max_seeded(seeds, neighborhoods, i as int),
                0 <= self.total_agents(),
            decreases self.seed_parked_cars.len() - i,
        {
            proof {
                lemma_max_seeded_grows(seeds, neighborhoods, i + 1, seeds.len() as int);
            }
            if let Some(at) = neighborhoods.find(&self.seed_parked_cars[i].neighborhood) {
                let term = match neighborhoods.all[at].buildings.len().checked_mul(
                    self.seed_parked_cars[i].cars_per_building.weights.len(),
                ) {
                    Some(t) => t,
                    None => {
                        return None;
                    },
                };
                total = match total.checked_add(term) {
                    Some(t) => t,
                    None => {
                        return None;
                    },
                };
            }
            i += 1;
        }
        let ghost seeded = total as int;
        let mut i: usize = 0;
        while i < self.spawn_over_time.len()
            invariant
                seeds == self.seed_parked_cars@,
                spawns == self.spawn_over_time@,
                borders == self.border_spawn_over_time@,
                i <= self.spawn_over_time.len(),
                seeded == self.spec_max_seeded(neighborhoods),
                total == seeded + agents_of_spawns(spawns, i as int),
                0 <= agents_of_borders(borders, borders.len() as int),
            decreases self.spawn_over_time.len() - i,
        {
            proof {
                lemma_agents_grow(spawns, borders, i + 1, spawns.len() as int);
            }
            total = match total.checked_add(self.spawn_over_time[i].num_agents) {
                Some(t) => t,
                None => {
                    return None;
                },
            };
            i += 1;
        }
        let ghost spawned = agents_of_spawns(spawns, spawns.len() as int);
        let mut i: usize = 0;
        while i < self.border_spawn_over_time.len()
            invariant
                seeds == self.seed_parked_cars@,
                spawns == self.spawn_over_time@,
                borders == self.border_spawn_over_time@,
                i <= self.border_spawn_over_time.len(),
                seeded == self.spec_max_seeded(neighborhoods),
                spawned == agents_of_spawns(spawns, spawns.len() as int),
                total == seeded + spawned + agents_of_borders(borders, i as int),
            decreases self.border_spawn_over_time.len() - i,
        {
            proof {
                lemma_agents_grow(spawns, borders, i + 1, borders.len() as int);
            }
            let s = &self.border_spawn_over_time[i];
            total = match total.checked_add(s.num_peds) {
                Some(t) => t,
                None => {
                    return None;
                },
            };
            total = match total.checked_add(s.num_cars) {
                Some(t) => t,
                None => {
                    return None;
                },
            };
            total = match total.checked_add(s.num_bikes) {
                Some(t) => t,
                None => {
                    return None;
                },
            };
            i += 1;
        }
        Some(total)
    }
}

impl Scenario {
    /// A trip that the scenario can schedule and that uses a parked car
    /// names a spot in which a car stands.
    pub proof fn lemma_parked_car_is_there(
        &self,
        parking: &ParkingSimState,
        map: &RoadMap,
        neighborhoods: &Neighborhoods,
        entry: Scheduled,
    )
        requires
            parking.wf(),
            self.may_schedule(parking, map, neighborhoods, entry),
            entry.1 is UsingParkedCar,
        ensures
            parking.has_spot(entry.1->UsingParkedCar_1),
            parking.at(entry.1->UsingParkedCar_1) is Some,
    {
        let i = choose|i: int|
            0 <= i < self.spawn_over_time.len() && (#[trigger] self.spawn_over_time[i]).may_schedule(
                parking,
                map,
                neighborhoods,
                entry,
            );
        let s = self.spawn_over_time[i];
        let (d, reserved) = choose|d: AgentDraws, reserved: Set<usize>|
            s.can_draw(neighborhoods, d) && entry.0 == d.spawn_time && (#[trigger] s.spec_plan(
                parking,
                reserved,
                map,
                d,
            )).trip == Some(entry.1);
        s.lemma_plan_reserves(parking, reserved, map, d);
    }
}

/// No two trips of one instantiation drive the same parked vehicle: each
/// trip that uses a parked car names a spot in which a car stands, and
/// the cars of two such trips are two cars.
pub proof fn lemma_no_car_driven_twice(
    scenario: &Scenario,
    before: &Sim,
    after: &Sim,
    map: &RoadMap,
    neighborhoods: &Neighborhoods,
    warned_before: Seq<Warning>,
    warned_after: Seq<Warning>,
    noted_before: Seq<Note>,
    noted_after: Seq<Note>,
    reports: Seq<SeedingReport>,
    scheduled: Seq<Scheduled>,
    k1: int,
    k2: int,
)
    requires
        instantiated(
            scenario,
            before,
            after,
            map,
            neighborhoods,
            warned_before,
            warned_after,
            noted_before,
            noted_after,
            reports,
            scheduled,
        ),
        0 <= k1 < k2 < scheduled.len(),
        scheduled[k1].1 is UsingParkedCar,
        scheduled[k2].1 is UsingParkedCar,
    ensures
        ({
            let first = after.parking_state.at(scheduled[k1].1->UsingParkedCar_1);
            let second = after.parking_state.at(scheduled[k2].1->UsingParkedCar_1);
            &&& first is Some
            &&& second is Some
            &&& first.unwrap().vehicle.id != second.unwrap().vehicle.id
        }),
{
    let parking = &after.parking_state;
    scenario.lemma_parked_car_is_there(parking, map, neighborhoods, scheduled[k1]);
    scenario.lemma_parked_car_is_there(parking, map, neighborhoods, scheduled[k2]);
    let s1 = scheduled[k1].1->UsingParkedCar_1;
    let s2 = scheduled[k2].1->UsingParkedCar_1;
    assert(s1 != s2);
    assert(parking.at(s1).unwrap().vehicle.id != parking.at(s2).unwrap().vehicle.id);
}

} // verus!
