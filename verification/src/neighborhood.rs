//! Named groupings of buildings and roads, and the index that finds one
//! by its name.

use vstd::prelude::*;
use std::collections::BTreeSet;
use crate::ids::BuildingID;
use crate::map::RoadMap;

verus! {

/// A neighborhood: its name, its buildings in a fixed order, and the
/// set of its roads, each by the number of its identifier. A number that
/// is that of no road of the map stands for no road.
#[derive(Clone, Debug)]
pub struct FullNeighborhoodInfo {
    pub name: String,
    pub buildings: Vec<BuildingID>,
    pub roads: BTreeSet<usize>,
}

/// The neighborhoods of a map. Where two have the same name, the first
/// one is the one that the name means.
#[derive(Clone, Debug)]
pub struct Neighborhoods {
    pub all: Vec<FullNeighborhoodInfo>,
}

/// The position of the first of the first `n` neighborhoods that has the
/// given name, if one has.
pub open spec fn find_upto(all: Seq<FullNeighborhoodInfo>, name: Seq<char>, n: int) -> Option<int>
    decreases n,
{
    if n <= 0 {
        None
    } else {
        match find_upto(all, name, n - 1) {
            Some(i) => Some(i),
            None => if all[n - 1].name@ == name {
                Some(n - 1)
            } else {
                None
            },
        }
    }
}

/// A position that `find_upto` gives is that of a neighborhood with the
/// name, and no earlier neighborhood has the name.
pub proof fn lemma_find_upto(all: Seq<FullNeighborhoodInfo>, name: Seq<char>, n: int)
    requires
        0 <= n <= all.len(),
    ensures
        match find_upto(all, name, n) {
            Some(i) => 0 <= i < n && all[i].name@ == name && forall|j: int|
                0 <= j < i ==> (#[trigger] all[j]).name@ != name,
            None => forall|j: int| 0 <= j < n ==> (#[trigger] all[j]).name@ != name,
        },
    decreases n,
{
    if n > 0 {
        lemma_find_upto(all, name, n - 1);
    }
}

impl FullNeighborhoodInfo {
    /// The buildings are those of the map.
    pub open spec fn wf(&self, map: &RoadMap) -> bool {
        forall|i: int|
            0 <= i < self.buildings.len() ==> map.has_building(#[trigger] self.buildings[i])
    }

    /// Whether the neighborhood fits the map.
    pub fn is_valid(&self, map: &RoadMap) -> (ok: bool)
        ensures
            ok == self.wf(map),
    {
        let mut i: usize = 0;
        while i < self.buildings.len()
            invariant
                i <= self.buildings.len(),
                forall|k: int| 0 <= k < i ==> map.has_building(#[trigger] self.buildings[k]),
            decreases self.buildings.len() - i,
        {
            if self.buildings[i].0 >= map.buildings.len() {
                return false;
            }
            i += 1;
        }
        true
    }
}

impl Neighborhoods {
    /// Every neighborhood fits the map.
    pub open spec fn wf(&self, map: &RoadMap) -> bool {
        forall|i: int| 0 <= i < self.all.len() ==> (#[trigger] self.all[i]).wf(map)
    }

    /// The position of the neighborhood that `name` means, if there is
    /// one.
    pub open spec fn spec_find(&self, name: Seq<char>) -> Option<int> {
        find_upto(self.all@, name, self.all.len() as int)
    }

    /// Whether some neighborhood has the name.
    pub open spec fn defines(&self, name: Seq<char>) -> bool {
        self.spec_find(name) is Some
    }

    /// The neighborhood that `name` means.
    pub open spec fn get(&self, name: Seq<char>) -> FullNeighborhoodInfo {
        self.all[self.spec_find(name).unwrap()]
    }

    /// Whether every neighborhood fits the map.
    pub fn is_valid(&self, map: &RoadMap) -> (ok: bool)
        ensures
            ok == self.wf(map),
    {
        let mut i: usize = 0;
        while i < self.all.len()
            invariant
                i <= self.all.len(),
                forall|k: int| 0 <= k < i ==> (#[trigger] self.all[k]).wf(map),
            decreases self.all.len() - i,
        {
            if !self.all[i].is_valid(map) {
                return false;
            }
            i += 1;
        }
        true
    }

    /// The position of the neighborhood that `name` means, if there is
    /// one.
    pub fn find(&self, name: &String) -> (at: Option<usize>)
        ensures
            at is Some <==> self.defines(name@),
            at is Some ==> at.unwrap() == self.spec_find(name@).unwrap() && at.unwrap()
                < self.all.len(),
    {
        let mut i: usize = 0;
        while i < self.all.len()
            invariant
                i <= self.all.len(),
                find_upto(self.all@, name@, i as int) is None,
            decreases self.all.len() - i,
        {
            if self.all[i].name == *name {
                proof {
                    lemma_find_stays(self.all@, name@, i as int + 1, self.all.len() as int);
                }
                return Some(i);
            }
            i += 1;
        }
        None
    }

    /// Whether some neighborhood has the name.
    pub fn contains_key(&self, name: &String) -> (found: bool)
        ensures
            found == self.defines(name@),
    {
        self.find(name).is_some()
    }
}

/// Once a neighborhood with the name is found among the first `n`, more
/// neighborhoods do not change which one it is.
pub proof fn lemma_find_stays(all: Seq<FullNeighborhoodInfo>, name: Seq<char>, n: int, m: int)
    requires
        0 <= n <= m <= all.len(),
        find_upto(all, name, n) is Some,
    ensures
        find_upto(all, name, m) == find_upto(all, name, n),
    decreases m - n,
{
    if n < m {
        lemma_find_stays(all, name, n, m - 1);
    }
}

} // verus!
