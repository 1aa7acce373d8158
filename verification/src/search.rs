//! The search for a free parking spot near a building: breadth first over
//! the roads of a neighborhood, from the building's own road.

use vstd::prelude::*;
use std::collections::{HashMap, HashSet, VecDeque};
use crate::ids::{BuildingID, RoadID};
use crate::map::RoadMap;
use crate::report::{Timer, Warning};
use crate::trips::ParkingSpot;

verus! {

broadcast use vstd::std_specs::hash::group_hash_axioms;

/// The free spots of a neighborhood, road by road. The spots of a road
/// form a stack: the last one is handed out first. A road belongs to
/// the neighborhood exactly if the table has a stack for it, which may
/// be empty.
#[derive(Clone, Debug)]
pub struct OpenSpots {
    /// The stack of each road of the neighborhood, by the number of the
    /// road's identifier.
    pub per_road: HashMap<usize, Vec<ParkingSpot>>,
    /// How many roads the map has.
    pub roads: usize,
}

/// How many of the roads have not been visited.
pub open spec fn count_unvisited(visited: Seq<bool>) -> nat
    decreases visited.len(),
{
    if visited.len() == 0 {
        0
    } else if visited.last() {
        count_unvisited(visited.drop_last())
    } else {
        count_unvisited(visited.drop_last()) + 1
    }
}

/// The frontier of the search: the roads found so far, in the order in
/// which they were found, and which roads have been found.
pub struct Frontier {
    pub queue: Seq<RoadID>,
    pub visited: Seq<bool>,
}

/// The frontier after the first `n` roads of `next` were looked at: each
/// one that belongs to the neighborhood and was not found before joins
/// the end of the queue.
pub open spec fn enqueue_next(next: Seq<RoadID>, member: Seq<bool>, f: Frontier, n: int) -> Frontier
    decreases n,
{
    if n <= 0 {
        f
    } else {
        let g = enqueue_next(next, member, f, n - 1);
        let r = next[n - 1].0 as int;
        if r < g.visited.len() && r < member.len() && !g.visited[r] && member[r] {
            Frontier { queue: g.queue.push(next[n - 1]), visited: g.visited.update(r, true) }
        } else {
            g
        }
    }
}

/// The roads that `road` meets, as the search reads them.
pub open spec fn next_of(map: &RoadMap, road: RoadID) -> Seq<RoadID> {
    map.roads[road.0 as int].next_roads@
}

/// The breadth-first search from position `head` of the queue on: the
/// first road in the order of the queue whose stack is not empty. A road
/// whose stack is empty brings the roads it meets into the queue.
pub open spec fn search(
    map: &RoadMap,
    stacks: Seq<Seq<ParkingSpot>>,
    member: Seq<bool>,
    f: Frontier,
    head: int,
) -> Option<RoadID>
    decreases count_unvisited(f.visited) + f.queue.len() - head,
    when 0 <= head <= f.queue.len()
{
    if head >= f.queue.len() {
        None
    } else {
        let r = f.queue[head];
        if r.0 < stacks.len() && stacks[r.0 as int].len() > 0 {
            Some(r)
        } else {
            let next = next_of(map, r);
            proof {
                lemma_enqueue_measure(next, member, f, next.len() as int);
            }
            search(map, stacks, member, enqueue_next(next, member, f, next.len() as int), head + 1)
        }
    }
}

/// How many roads a search that ends without a spot has looked at: the
/// length of the queue when its end is reached.
pub open spec fn search_span(
    map: &RoadMap,
    stacks: Seq<Seq<ParkingSpot>>,
    member: Seq<bool>,
    f: Frontier,
    head: int,
) -> nat
    decreases count_unvisited(f.visited) + f.queue.len() - head,
    when 0 <= head <= f.queue.len()
{
    if head >= f.queue.len() {
        f.queue.len()
    } else {
        let r = f.queue[head];
        if r.0 < stacks.len() && stacks[r.0 as int].len() > 0 {
            0
        } else {
            let next = next_of(map, r);
            proof {
                lemma_enqueue_measure(next, member, f, next.len() as int);
            }
            search_span(
                map,
                stacks,
                member,
                enqueue_next(next, member, f, next.len() as int),
                head + 1,
            )
        }
    }
}

/// How many of the first `n` roads belong to the neighborhood.
pub open spec fn count_members(member: Seq<bool>, n: int) -> nat
    decreases n,
{
    if n <= 0 {
        0
    } else if member[n - 1] {
        count_members(member, n - 1) + 1
    } else {
        count_members(member, n - 1)
    }
}

/// The warning of a search for building `b` that found no spot: it
/// says how many roads were looked at, and how many the neighborhood
/// has.
pub open spec fn gave_up(
    map: &RoadMap,
    stacks: Seq<Seq<ParkingSpot>>,
    member: Seq<bool>,
    b: BuildingID,
) -> Warning {
    Warning::GaveUpParkingSearch {
        building: b,
        searched: search_span(
            map,
            stacks,
            member,
            first_frontier(map, map.spec_building_to_road(b)),
            0,
        ) as usize,
        roads: count_members(member, member.len() as int) as usize,
    }
}

/// The frontier with which the search from `start` begins.
pub open spec fn first_frontier(map: &RoadMap, start: RoadID) -> Frontier {
    Frontier {
        queue: seq![start],
        visited: Seq::new(map.roads.len() as nat, |r: int| r == start.0),
    }
}

/// The road on which a vehicle for building `b` is placed: the first road
/// with a free spot that the search from the building's own road comes
/// to. `None` if the search runs out of roads.
pub open spec fn first_road_with_spot(
    map: &RoadMap,
    stacks: Seq<Seq<ParkingSpot>>,
    member: Seq<bool>,
    b: BuildingID,
) -> Option<RoadID> {
    search(map, stacks, member, first_frontier(map, map.spec_building_to_road(b)), 0)
}

/// A vehicle is placed on the road of its building if that road has a
/// free spot: the search looks at no other road before.
pub proof fn lemma_own_road_first(
    map: &RoadMap,
    stacks: Seq<Seq<ParkingSpot>>,
    member: Seq<bool>,
    b: BuildingID,
)
    requires
        map.spec_building_to_road(b).0 < stacks.len(),
        stacks[map.spec_building_to_road(b).0 as int].len() > 0,
    ensures
        first_road_with_spot(map, stacks, member, b) == Some(map.spec_building_to_road(b)),
{
    let start = map.spec_building_to_road(b);
    let f = first_frontier(map, start);
    assert(f.queue[0] == start);
}

/// Marking one road as visited makes the unvisited one fewer.
pub proof fn lemma_visit_one(visited: Seq<bool>, r: int)
    requires
        0 <= r < visited.len(),
        !visited[r],
    ensures
        count_unvisited(visited.update(r, true)) + 1 == count_unvisited(visited),
    decreases visited.len(),
{
    let after = visited.update(r, true);
    if r == visited.len() - 1 {
        assert(after.drop_last() == visited.drop_last());
    } else {
        assert(after.drop_last() == visited.drop_last().update(r, true));
        lemma_visit_one(visited.drop_last(), r);
    }
}

/// Looking at roads moves them from the unvisited to the queue: the two
/// together stay as many, and what was in the queue stays where it was.
pub proof fn lemma_enqueue_measure(next: Seq<RoadID>, member: Seq<bool>, f: Frontier, n: int)
    ensures
        ({
            let g = enqueue_next(next, member, f, n);
            &&& g.visited.len() == f.visited.len()
            &&& g.queue.len() >= f.queue.len()
            &&& g.queue.len() + count_unvisited(g.visited) == f.queue.len() + count_unvisited(
                f.visited,
            )
            &&& forall|k: int| 0 <= k < f.queue.len() ==> g.queue[k] == f.queue[k]
        }),
    decreases n,
{
    if n > 0 {
        lemma_enqueue_measure(next, member, f, n - 1);
        let g = enqueue_next(next, member, f, n - 1);
        let r = next[n - 1].0 as int;
        if r < g.visited.len() && r < member.len() && !g.visited[r] && member[r] {
            lemma_visit_one(g.visited, r);
        }
    }
}

/// How many spots the stacks of the first `k` roads hold.
pub open spec fn total_upto(stacks: Seq<Seq<ParkingSpot>>, k: int) -> nat
    decreases k,
{
    if k <= 0 {
        0
    } else {
        total_upto(stacks, k - 1) + stacks[k - 1].len()
    }
}

/// Changing the stack of one road changes the total by the change of
/// that stack.
pub proof fn lemma_total_update(stacks: Seq<Seq<ParkingSpot>>, r: int, s: Seq<ParkingSpot>, k: int)
    requires
        0 <= r < stacks.len(),
        0 <= k <= stacks.len(),
    ensures
        total_upto(stacks.update(r, s), k) == if r < k {
            total_upto(stacks, k) - stacks[r].len() + s.len()
        } else {
            total_upto(stacks, k) as int
        },
    decreases k,
{
    if k > 0 {
        lemma_total_update(stacks, r, s, k - 1);
    }
}

impl OpenSpots {
    /// The stack of the road with the number `r`; a road without a
    /// stack has no spot.
    pub open spec fn stack(&self, r: int) -> Seq<ParkingSpot> {
        if self.per_road@.contains_key(r as usize) {
            self.per_road@[r as usize]@
        } else {
            Seq::empty()
        }
    }

    /// The stacks, road by road.
    pub open spec fn stacks(&self) -> Seq<Seq<ParkingSpot>> {
        Seq::new(self.roads as nat, |r: int| self.stack(r))
    }

    /// Whether each road belongs to the neighborhood, road by road.
    pub open spec fn member(&self) -> Seq<bool> {
        Seq::new(self.roads as nat, |r: int| self.per_road@.contains_key(r as usize))
    }

    /// How many spots the table holds.
    pub open spec fn total(&self) -> nat {
        total_upto(self.stacks(), self.roads as int)
    }

    /// The table is made for the roads of the map.
    pub open spec fn wf(&self, map: &RoadMap) -> bool {
        self.roads == map.roads.len()
    }

    /// A table for `map` in which no road belongs to the neighborhood and
    /// no stack holds a spot.
    pub fn new(map: &RoadMap) -> (t: OpenSpots)
        ensures
            t.wf(map),
            t.total() == 0,
            t.per_road@ == Map::<usize, Vec<ParkingSpot>>::empty(),
            forall|r: int| 0 <= r < map.roads.len() ==> (#[trigger] t.stacks()[r]).len() == 0,
            forall|r: int| 0 <= r < map.roads.len() ==> !(#[trigger] t.member()[r]),
    {
        let t = OpenSpots { per_road: HashMap::new(), roads: map.roads.len() };
        proof {
            lemma_total_of_empty(t.stacks(), t.roads as int);
        }
        t
    }

    /// How many spots the stack of the road holds.
    pub fn spots_left(&self, r: RoadID) -> (n: usize)
        requires
            r.0 < self.roads,
        ensures
            n == self.stacks()[r.0 as int].len(),
    {
        match self.per_road.get(&r.0) {
            Some(stack) => stack.len(),
            None => 0,
        }
    }

    /// Whether the road belongs to the neighborhood.
    pub fn is_member(&self, r: RoadID) -> (yes: bool)
        requires
            r.0 < self.roads,
        ensures
            yes == self.member()[r.0 as int],
    {
        self.per_road.contains_key(&r.0)
    }

    /// Takes the last spot from the stack of the road.
    pub fn take_last(&mut self, r: RoadID) -> (spot: Option<ParkingSpot>)
        requires
            r.0 < old(self).roads,
        ensures
            final(self).roads == old(self).roads,
            final(self).member() == old(self).member(),
            old(self).stacks()[r.0 as int].len() == 0 ==> spot is None && final(self).stacks()
                == old(self).stacks(),
            old(self).stacks()[r.0 as int].len() > 0 ==> spot == Some(
                old(self).stacks()[r.0 as int].last(),
            ) && final(self).stacks() == old(self).stacks().update(
                r.0 as int,
                old(self).stacks()[r.0 as int].drop_last(),
            ),
    {
        match self.per_road.remove(&r.0) {
            Some(stack) => {
                let mut stack = stack;
                let spot = stack.pop();
                self.per_road.insert(r.0, stack);
                proof {
                    assert(self.member() =~= old(self).member());
                    if old(self).stacks()[r.0 as int].len() > 0 {
                        assert(self.stacks() =~= old(self).stacks().update(
                            r.0 as int,
                            old(self).stacks()[r.0 as int].drop_last(),
                        ));
                    } else {
                        assert(self.stacks() =~= old(self).stacks());
                    }
                }
                spot
            },
            None => {
                proof {
                    assert(self.member() =~= old(self).member());
                    assert(self.stacks() =~= old(self).stacks());
                }
                None
            },
        }
    }

    /// How many roads belong to the neighborhood.
    pub fn count_roads(&self) -> (c: usize)
        ensures
            c == count_members(self.member(), self.roads as int),
    {
        let mut c: usize = 0;
        let mut k: usize = 0;
        while k < self.roads
            invariant
                k <= self.roads,
                c <= k,
                c == count_members(self.member(), k as int),
            decreases self.roads - k,
        {
            if self.per_road.contains_key(&k) {
                c += 1;
            }
            k += 1;
        }
        c
    }
}

/// Empty stacks hold no spot.
pub proof fn lemma_total_of_empty(stacks: Seq<Seq<ParkingSpot>>, k: int)
    requires
        0 <= k <= stacks.len(),
        forall|r: int| 0 <= r < stacks.len() ==> (#[trigger] stacks[r]).len() == 0,
    ensures
        total_upto(stacks, k) == 0,
    decreases k,
{
    if k > 0 {
        lemma_total_of_empty(stacks, k - 1);
    }
}

/// Picks a parking spot for the building. The search starts at the
/// building's own road and goes breadth first over the roads of the
/// neighborhood, each road once; the first road that has a free spot
/// gives its last one. If no road has one, a warning is recorded.
pub fn find_spot_near_building(
    b: BuildingID,
    open_spots: &mut OpenSpots,
    map: &RoadMap,
    timer: &mut Timer,
) -> (found: Option<ParkingSpot>)
    requires
        map.wf(),
        map.has_building(b),
        old(open_spots).wf(map),
    ensures
        final(open_spots).wf(map),
        final(open_spots).member() == old(open_spots).member(),
        final(timer).notes == old(timer).notes,
        match first_road_with_spot(map, old(open_spots).stacks(), old(open_spots).member(), b) {
            Some(r) => {
                &&& r.0 < map.roads.len()
                &&& old(open_spots).stacks()[r.0 as int].len() > 0
                &&& found == Some(old(open_spots).stacks()[r.0 as int].last())
                &&& final(open_spots).stacks() == old(open_spots).stacks().update(
                    r.0 as int,
                    old(open_spots).stacks()[r.0 as int].drop_last(),
                )
                &&& final(timer).warnings == old(timer).warnings
                &&& can_reach(map, old(open_spots).member(), map.spec_building_to_road(b), r)
            },
            None => {
                &&& found is None
                &&& final(open_spots).stacks() == old(open_spots).stacks()
                &&& final(timer).warnings@ == old(timer).warnings@.push(
                    gave_up(map, old(open_spots).stacks(), old(open_spots).member(), b),
                )
                &&& forall|r: RoadID|
                    #[trigger] can_reach(
                        map,
                        old(open_spots).member(),
                        map.spec_building_to_road(b),
                        r,
                    ) && r.0 < map.roads.len() ==> old(open_spots).stacks()[r.0 as int].len() == 0
            },
        },
        old(open_spots).stacks()[map.spec_building_to_road(b).0 as int].len() > 0 ==> found
            == Some(old(open_spots).stacks()[map.spec_building_to_road(b).0 as int].last()),
{
    proof {
        let start = map.spec_building_to_road(b);
        assert(map.buildings[b.0 as int].front_path.lane.0 < map.lanes.len());
        assert(start.0 < map.roads.len());
        lemma_first_road_with_spot(map, open_spots.stacks(), open_spots.member(), b);
        if open_spots.stacks()[start.0 as int].len() > 0 {
            lemma_own_road_first(map, open_spots.stacks(), open_spots.member(), b);
        }
    }
    search_near_building(b, open_spots, map, timer)
}

/// The search itself: breadth first from the building's own road.
fn search_near_building(
    b: BuildingID,
    open_spots: &mut OpenSpots,
    map: &RoadMap,
    timer: &mut Timer,
) -> (found: Option<ParkingSpot>)
    requires
        map.wf(),
        map.has_building(b),
        old(open_spots).wf(map),
    ensures
        final(open_spots).wf(map),
        final(open_spots).member() == old(open_spots).member(),
        final(timer).notes == old(timer).notes,
        match first_road_with_spot(map, old(open_spots).stacks(), old(open_spots).member(), b) {
            Some(r) => {
                &&& r.0 < map.roads.len()
                &&& old(open_spots).stacks()[r.0 as int].len() > 0
                &&& found == Some(old(open_spots).stacks()[r.0 as int].last())
                &&& final(open_spots).stacks() == old(open_spots).stacks().update(
                    r.0 as int,
                    old(open_spots).stacks()[r.0 as int].drop_last(),
                )
                &&& final(timer).warnings == old(timer).warnings
            },
            None => {
                &&& found is None
                &&& final(open_spots).stacks() == old(open_spots).stacks()
                &&& final(timer).warnings@ == old(timer).warnings@.push(
                    gave_up(map, old(open_spots).stacks(), old(open_spots).member(), b),
                )
            },
        },
{
    let n = map.roads.len();
    let start = map.building_to_road(b).id;
    let mut visited: HashSet<usize> = HashSet::new();
    visited.insert(start.0);
    let mut queue: VecDeque<RoadID> = VecDeque::new();
    queue.push_back(start);
    let ghost stacks = open_spots.stacks();
    let ghost member = open_spots.member();
    let ghost first = first_frontier(map, start);
    // Every road that was ever in the queue, and how many of them have
    // been taken out.
    let ghost mut full: Seq<RoadID> = first.queue;
    let ghost mut vis: Seq<bool> = first.visited;
    let ghost mut head: int = 0;
    proof {
        assert(queue@ =~= full.subrange(0, 1));
        assert(visited@ =~= Set::<usize>::empty().insert(start.0));
    }
    while queue.len() > 0
        invariant
            map.wf(),
            n == map.roads.len(),
            open_spots.wf(map),
            *open_spots == *old(open_spots),
            *timer == *old(timer),
            stacks == old(open_spots).stacks(),
            member == old(open_spots).member(),
            first == first_frontier(map, map.spec_building_to_road(b)),
            0 <= head <= full.len(),
            queue@ == full.subrange(head, full.len() as int),
            vis.len() == n,
            forall|j: int| 0 <= j < n ==> vis[j] == visited@.contains(j as usize),
            visited@.finite(),
            visited@.len() == full.len(),
            forall|j: int| 0 <= j < full.len() ==> (#[trigger] full[j]).0 < n,
            search(map, stacks, member, first, 0) == search(
                map,
                stacks,
                member,
                (Frontier { queue: full, visited: vis }),
                head,
            ),
            search_span(map, stacks, member, first, 0) == search_span(
                map,
                stacks,
                member,
                (Frontier { queue: full, visited: vis }),
                head,
            ),
        decreases count_unvisited(vis) + full.len() - head,
    {
        let r = queue.pop_front().unwrap();
        let ghost f = Frontier { queue: full, visited: vis };
        proof {
            assert(r == full[head]);
        }
        if open_spots.spots_left(r) > 0 {
            let spot = open_spots.take_last(r);
            proof {
                assert(stacks[r.0 as int].len() > 0);
                assert(search(map, stacks, member, f, head) == Some(r));
                assert(open_spots.stacks() =~= stacks.update(
                    r.0 as int,
                    stacks[r.0 as int].drop_last(),
                ));
            }
            return spot;
        }
        let next = map.get_next_roads(r);
        let mut i: usize = 0;
        proof {
            assert(queue@ =~= full.subrange(head + 1, full.len() as int));
        }
        while i < next.len()
            invariant
                i <= next.len(),
                n == map.roads.len(),
                open_spots.wf(map),
                member == open_spots.member(),
                roads_in(next@, n as int),
                0 <= head < full.len(),
                queue@ == full.subrange(head + 1, full.len() as int),
                vis.len() == n,
                forall|j: int| 0 <= j < n ==> vis[j] == visited@.contains(j as usize),
                visited@.finite(),
                visited@.len() == full.len(),
                forall|j: int| 0 <= j < full.len() ==> (#[trigger] full[j]).0 < n,
                (Frontier { queue: full, visited: vis }) == enqueue_next(
                    next@,
                    member,
                    f,
                    i as int,
                ),
            decreases next.len() - i,
        {
            let next_r = next[i];
            if !visited.contains(&next_r.0) && open_spots.is_member(next_r) {
                queue.push_back(next_r);
                visited.insert(next_r.0);
                proof {
                    full = full.push(next_r);
                    vis = vis.update(next_r.0 as int, true);
                    assert(queue@ =~= full.subrange(head + 1, full.len() as int));
                }
            }
            i += 1;
        }
        proof {
            assert(stacks[r.0 as int].len() == 0);
            lemma_enqueue_measure(next@, member, f, next.len() as int);
            head = head + 1;
        }
    }
    let searched = visited.len();
    let roads = open_spots.count_roads();
    timer.warn(Warning::GaveUpParkingSearch { building: b, searched, roads });
    None
}

/// Every road of `ids` is a road of a table with `n` roads.
pub open spec fn roads_in(ids: Seq<RoadID>, n: int) -> bool {
    crate::map::roads_below(ids, n)
}

/// The search may go from road `from` to road `to`: the two meet, and
/// `to` belongs to the neighborhood.
pub open spec fn may_go(map: &RoadMap, member: Seq<bool>, from: RoadID, to: RoadID) -> bool {
    &&& to.0 < member.len()
    &&& member[to.0 as int]
    &&& next_of(map, from).contains(to)
}

/// `path` is a way that the search can take from `start`.
pub open spec fn is_way(map: &RoadMap, member: Seq<bool>, start: RoadID, path: Seq<RoadID>) -> bool {
    &&& path.len() > 0
    &&& path[0] == start
    &&& forall|i: int| 0 < i < path.len() ==> may_go(map, member, path[i - 1], #[trigger] path[i])
}

/// The search from `start` can come to `r`: over roads that meet, all of
/// them but the first in the neighborhood.
pub open spec fn can_reach(map: &RoadMap, member: Seq<bool>, start: RoadID, r: RoadID) -> bool {
    exists|path: Seq<RoadID>| #[trigger] is_way(map, member, start, path) && path.last() == r
}

/// The road with the number `r` is in the queue.
pub open spec fn in_queue(queue: Seq<RoadID>, r: int) -> bool {
    exists|k: int| 0 <= k < queue.len() && (#[trigger] queue[k]).0 == r
}

/// The search is through with road `r`: it has no free spot, and every
/// road of the neighborhood that it meets has been found.
pub open spec fn is_through(
    map: &RoadMap,
    stacks: Seq<Seq<ParkingSpot>>,
    member: Seq<bool>,
    visited: Seq<bool>,
    r: RoadID,
) -> bool {
    &&& r.0 < stacks.len() ==> stacks[r.0 as int].len() == 0
    &&& forall|j: int|
        0 <= j < next_of(map, r).len() ==> {
            let to = #[trigger] next_of(map, r)[j];
            to.0 < member.len() && member[to.0 as int] ==> to.0 < visited.len()
                && visited[to.0 as int]
        }
}

/// What holds of the frontier all through the search: the roads of the
/// queue are those that have been found, each can be reached, and the
/// search is through with those in front of `head`.
pub open spec fn frontier_ok(
    map: &RoadMap,
    stacks: Seq<Seq<ParkingSpot>>,
    member: Seq<bool>,
    start: RoadID,
    f: Frontier,
    head: int,
) -> bool {
    &&& 0 <= head <= f.queue.len()
    &&& f.visited.len() == map.roads.len()
    &&& member.len() == map.roads.len()
    &&& f.queue.len() > 0
    &&& f.queue[0] == start
    &&& forall|k: int|
        0 <= k < f.queue.len() ==> {
            let r = #[trigger] f.queue[k];
            r.0 < map.roads.len() && f.visited[r.0 as int] && can_reach(map, member, start, r)
        }
    &&& forall|r: int| 0 <= r < f.visited.len() && #[trigger] f.visited[r] ==> in_queue(f.queue, r)
    &&& forall|k: int|
        0 <= k < head ==> is_through(map, stacks, member, f.visited, #[trigger] f.queue[k])
}

/// A road that the search can go to from a road that it can reach is a
/// road that it can reach.
pub proof fn lemma_reach_on(
    map: &RoadMap,
    member: Seq<bool>,
    start: RoadID,
    from: RoadID,
    to: RoadID,
)
    requires
        can_reach(map, member, start, from),
        may_go(map, member, from, to),
    ensures
        can_reach(map, member, start, to),
{
    let path = choose|path: Seq<RoadID>|
        #[trigger] is_way(map, member, start, path) && path.last() == from;
    let longer = path.push(to);
    assert forall|i: int| 0 < i < longer.len() implies may_go(
        map,
        member,
        longer[i - 1],
        #[trigger] longer[i],
    ) by {
        if i < path.len() {
            assert(may_go(map, member, path[i - 1], path[i]));
        }
    }
    assert(is_way(map, member, start, longer) && longer.last() == to);
}

/// Looking at the roads that a road of the queue meets keeps the
/// frontier in order, and finds each of them that belongs to the
/// neighborhood.
pub proof fn lemma_enqueue_ok(
    map: &RoadMap,
    stacks: Seq<Seq<ParkingSpot>>,
    member: Seq<bool>,
    start: RoadID,
    f: Frontier,
    head: int,
    n: int,
)
    requires
        map.wf(),
        frontier_ok(map, stacks, member, start, f, head),
        head < f.queue.len(),
        0 <= n <= next_of(map, f.queue[head]).len(),
    ensures
        ({
            let next = next_of(map, f.queue[head]);
            let g = enqueue_next(next, member, f, n);
            &&& frontier_ok(map, stacks, member, start, g, head)
            &&& g.queue.len() >= f.queue.len()
            &&& forall|k: int| 0 <= k < f.queue.len() ==> g.queue[k] == f.queue[k]
            &&& forall|r: int| 0 <= r < f.visited.len() && f.visited[r] ==> g.visited[r]
            &&& forall|j: int|
                0 <= j < n ==> {
                    let to = #[trigger] next[j];
                    member[to.0 as int] ==> g.visited[to.0 as int]
                }
        }),
    decreases n,
{
    let from = f.queue[head];
    let next = next_of(map, from);
    assert(from.0 < map.roads.len());
    assert(crate::map::roads_below(next, map.roads.len() as int));
    if n > 0 {
        lemma_enqueue_ok(map, stacks, member, start, f, head, n - 1);
        let g = enqueue_next(next, member, f, n - 1);
        let h = enqueue_next(next, member, f, n);
        let to = next[n - 1];
        let r = to.0 as int;
        assert(r < map.roads.len());
        if !g.visited[r] && member[r] {
            assert(next.contains(to));
            assert(may_go(map, member, from, to));
            assert(g.queue[head] == from);
            lemma_reach_on(map, member, start, from, to);
            assert forall|k: int| 0 <= k < h.queue.len() implies ({
                let x = #[trigger] h.queue[k];
                x.0 < map.roads.len() && h.visited[x.0 as int] && can_reach(map, member, start, x)
            }) by {
                if k < g.queue.len() {
                    assert(h.queue[k] == g.queue[k]);
                }
            }
            assert forall|x: int| 0 <= x < h.visited.len() && #[trigger] h.visited[x] implies in_queue(
                h.queue,
                x,
            ) by {
                if x == r {
                    assert(h.queue[g.queue.len() as int].0 == x);
                } else {
                    assert(g.visited[x]);
                    let k = choose|k: int| 0 <= k < g.queue.len() && (#[trigger] g.queue[k]).0 == x;
                    assert(h.queue[k].0 == x);
                }
            }
            assert forall|k: int| 0 <= k < head implies is_through(
                map,
                stacks,
                member,
                h.visited,
                #[trigger] h.queue[k],
            ) by {
                assert(h.queue[k] == g.queue[k]);
                assert(is_through(map, stacks, member, g.visited, g.queue[k]));
            }
            assert forall|k: int| 0 <= k < f.queue.len() implies h.queue[k] == f.queue[k] by {
                assert(h.queue[k] == g.queue[k]);
            }
        }
        assert forall|j: int| 0 <= j < n implies ({
            let to = #[trigger] next[j];
            member[to.0 as int] ==> h.visited[to.0 as int]
        }) by {
            assert(next[j].0 < map.roads.len());
        }
    }
}

/// If every road of the queue is one that the search is through with, so
/// is every road that can be reached.
pub proof fn lemma_closed(
    map: &RoadMap,
    stacks: Seq<Seq<ParkingSpot>>,
    member: Seq<bool>,
    start: RoadID,
    f: Frontier,
    path: Seq<RoadID>,
    i: int,
)
    requires
        frontier_ok(map, stacks, member, start, f, f.queue.len() as int),
        is_way(map, member, start, path),
        0 <= i < path.len(),
    ensures
        path[i].0 < f.visited.len(),
        f.visited[path[i].0 as int],
        is_through(map, stacks, member, f.visited, path[i]),
    decreases i,
{
    if i == 0 {
        assert(f.queue[0] == start);
    } else {
        lemma_closed(map, stacks, member, start, f, path, i - 1);
        let from = path[i - 1];
        let to = path[i];
        assert(may_go(map, member, from, to));
        let j = choose|j: int| 0 <= j < next_of(map, from).len() && next_of(map, from)[j] == to;
        assert(next_of(map, from)[j] == to);
    }
    let r = path[i].0 as int;
    assert(in_queue(f.queue, r));
    let k = choose|k: int| 0 <= k < f.queue.len() && (#[trigger] f.queue[k]).0 == r;
    assert(is_through(map, stacks, member, f.visited, f.queue[k]));
}

/// What the search from a frontier that is in order comes to: a road that
/// can be reached and has a free spot; or nothing, and then no road that
/// can be reached has a free spot.
pub proof fn lemma_search(
    map: &RoadMap,
    stacks: Seq<Seq<ParkingSpot>>,
    member: Seq<bool>,
    start: RoadID,
    f: Frontier,
    head: int,
)
    requires
        map.wf(),
        frontier_ok(map, stacks, member, start, f, head),
    ensures
        match search(map, stacks, member, f, head) {
            Some(r) => can_reach(map, member, start, r) && r.0 < stacks.len()
                && stacks[r.0 as int].len() > 0,
            None => forall|r: RoadID|
                #[trigger] can_reach(map, member, start, r) && r.0 < stacks.len()
                    ==> stacks[r.0 as int].len() == 0,
        },
    decreases count_unvisited(f.visited) + f.queue.len() - head,
{
    if head >= f.queue.len() {
        assert forall|r: RoadID|
            #[trigger] can_reach(map, member, start, r) && r.0 < stacks.len()
                implies stacks[r.0 as int].len() == 0 by {
            let path = choose|path: Seq<RoadID>|
                #[trigger] is_way(map, member, start, path) && path.last() == r;
            lemma_closed(map, stacks, member, start, f, path, path.len() - 1);
        }
    } else {
        let r = f.queue[head];
        if r.0 < stacks.len() && stacks[r.0 as int].len() > 0 {
        } else {
            let next = next_of(map, r);
            let g = enqueue_next(next, member, f, next.len() as int);
            lemma_enqueue_measure(next, member, f, next.len() as int);
            lemma_enqueue_ok(map, stacks, member, start, f, head, next.len() as int);
            assert(frontier_ok(map, stacks, member, start, g, head + 1)) by {
                assert forall|k: int| 0 <= k < head + 1 implies is_through(
                    map,
                    stacks,
                    member,
                    g.visited,
                    #[trigger] g.queue[k],
                ) by {
                    if k == head {
                        assert(g.queue[head] == r);
                        assert forall|j: int| 0 <= j < next.len() implies ({
                            let to = #[trigger] next[j];
                            to.0 < member.len() && member[to.0 as int] ==> to.0 < g.visited.len()
                                && g.visited[to.0 as int]
                        }) by {
                            assert(crate::map::roads_below(next, map.roads.len() as int));
                            assert(next[j].0 < map.roads.len());
                        }
                    }
                }
            }
            lemma_search(map, stacks, member, start, g, head + 1);
        }
    }
}

/// What the search for a spot near a building comes to: a road that can
/// be reached from the building's own road and has a free spot; or
/// nothing, and then no road that can be reached has a free spot.
pub proof fn lemma_first_road_with_spot(
    map: &RoadMap,
    stacks: Seq<Seq<ParkingSpot>>,
    member: Seq<bool>,
    b: BuildingID,
)
    requires
        map.wf(),
        map.has_building(b),
        member.len() == map.roads.len(),
    ensures
        match first_road_with_spot(map, stacks, member, b) {
            Some(r) => can_reach(map, member, map.spec_building_to_road(b), r) && r.0
                < stacks.len() && stacks[r.0 as int].len() > 0,
            None => forall|r: RoadID|
                #[trigger] can_reach(map, member, map.spec_building_to_road(b), r) && r.0
                    < stacks.len() ==> stacks[r.0 as int].len() == 0,
        },
{
    let start = map.spec_building_to_road(b);
    let f = first_frontier(map, start);
    assert(map.buildings[b.0 as int].front_path.lane.0 < map.lanes.len());
    assert(start.0 < map.roads.len());
    assert(is_way(map, member, start, seq![start]) && seq![start].last() == start);
    assert forall|r: int| 0 <= r < f.visited.len() && #[trigger] f.visited[r] implies in_queue(
        f.queue,
        r,
    ) by {
        assert(f.queue[0].0 == r);
    }
    lemma_search(map, stacks, member, start, f, 0);
}

} // verus!
