//! The demand model: a scenario is a list of requests, of three kinds.
//! Also the test for neighborhoods that a scenario names and that are not
//! defined.

use vstd::prelude::*;
use crate::goal::OriginDestination;
use crate::ids::IntersectionID;
use crate::neighborhood::Neighborhoods;
use crate::random::WeightedUsizeChoice;
use crate::units::{Probability, Tick};

verus! {

/// A list of requests for one map.
#[derive(Clone, Debug)]
pub struct Scenario {
    pub scenario_name: String,
    pub map_name: String,
    pub seed_parked_cars: Vec<SeedParkedCars>,
    pub spawn_over_time: Vec<SpawnOverTime>,
    pub border_spawn_over_time: Vec<BorderSpawnOverTime>,
}

/// A request for agents that start from the buildings of a neighborhood.
/// Each agent picks its mode by what it finds: a parked car, a bike, or
/// its feet.
#[derive(Clone, Debug)]
pub struct SpawnOverTime {
    pub num_agents: usize,
    /// The first tick at which an agent can start.
    pub start_time: Tick,
    /// The first tick at which no agent starts any more.
    pub stop_time: Tick,
    pub start_from_neighborhood: String,
    pub goal: OriginDestination,
    /// The chance that an agent without a car takes a bike.
    pub percent_biking: Probability,
    /// The chance that an agent on foot asks for a transit route.
    pub percent_use_transit: Probability,
}

/// A request for agents that appear at a border of the map, already on
/// foot, in a car or on a bike.
#[derive(Clone, Debug)]
pub struct BorderSpawnOverTime {
    pub num_peds: usize,
    pub num_cars: usize,
    pub num_bikes: usize,
    /// The first tick at which an agent can start.
    pub start_time: Tick,
    /// The first tick at which no agent starts any more.
    pub stop_time: Tick,
    pub start_from_border: IntersectionID,
    pub goal: OriginDestination,
    /// The chance that a pedestrian asks for a transit route.
    pub percent_use_transit: Probability,
}

/// A request to park new cars in a neighborhood.
#[derive(Clone, Debug)]
pub struct SeedParkedCars {
    pub neighborhood: String,
    /// How many cars a building asks for.
    pub cars_per_building: WeightedUsizeChoice,
}

/// Why a scenario was not instantiated.
#[derive(Clone, Debug)]
pub enum ScenarioError {
    /// A request names a neighborhood that is not defined.
    UndefinedNeighborhood(String),
}

/// The name of a neighborhood that the request names and that is not
/// defined, if there is one: its own neighborhood first, then that of its
/// goal.
pub open spec fn spawn_undefined(s: &SpawnOverTime, neighborhoods: &Neighborhoods) -> Option<
    Seq<char>,
> {
    if !neighborhoods.defines(s.start_from_neighborhood@) {
        Some(s.start_from_neighborhood@)
    } else {
        goal_undefined(&s.goal, neighborhoods)
    }
}

/// The name of the neighborhood of the goal, if the goal is one that is
/// not defined.
pub open spec fn goal_undefined(goal: &OriginDestination, neighborhoods: &Neighborhoods) -> Option<
    Seq<char>,
> {
    match goal {
        OriginDestination::Neighborhood(n) => if !neighborhoods.defines(n@) {
            Some(n@)
        } else {
            None
        },
        OriginDestination::Border(_) => None,
    }
}

/// The first name that is not defined among those that the first `n`
/// requests name.
pub open spec fn seeds_undefined(
    seeds: Seq<SeedParkedCars>,
    neighborhoods: &Neighborhoods,
    n: int,
) -> Option<Seq<char>>
    decreases n,
{
    if n <= 0 {
        None
    } else {
        match seeds_undefined(seeds, neighborhoods, n - 1) {
            Some(x) => Some(x),
            None => if !neighborhoods.defines(seeds[n - 1].neighborhood@) {
                Some(seeds[n - 1].neighborhood@)
            } else {
                None
            },
        }
    }
}

/// The first name that is not defined among those that the first `n`
/// requests name.
pub open spec fn spawns_undefined(
    spawns: Seq<SpawnOverTime>,
    neighborhoods: &Neighborhoods,
    n: int,
) -> Option<Seq<char>>
    decreases n,
{
    if n <= 0 {
        None
    } else {
        match spawns_undefined(spawns, neighborhoods, n - 1) {
            Some(x) => Some(x),
            None => spawn_undefined(&spawns[n - 1], neighborhoods),
        }
    }
}

/// The first name that is not defined among those that the first `n`
/// requests name.
pub open spec fn borders_undefined(
    borders: Seq<BorderSpawnOverTime>,
    neighborhoods: &Neighborhoods,
    n: int,
) -> Option<Seq<char>>
    decreases n,
{
    if n <= 0 {
        None
    } else {
        match borders_undefined(borders, neighborhoods, n - 1) {
            Some(x) => Some(x),
            None => goal_undefined(&borders[n - 1].goal, neighborhoods),
        }
    }
}

/// If none of the first `n` requests names an undefined neighborhood,
/// each of them names defined ones; and a name once found stays found.
pub proof fn lemma_seeds_undefined(
    seeds: Seq<SeedParkedCars>,
    neighborhoods: &Neighborhoods,
    n: int,
    m: int,
)
    requires
        0 <= n <= m <= seeds.len(),
    ensures
        seeds_undefined(seeds, neighborhoods, m) is None ==> seeds_undefined(
            seeds,
            neighborhoods,
            n,
        ) is None && forall|i: int|
            0 <= i < m ==> neighborhoods.defines((#[trigger] seeds[i]).neighborhood@),
        seeds_undefined(seeds, neighborhoods, n) is Some ==> seeds_undefined(
            seeds,
            neighborhoods,
            m,
        ) == seeds_undefined(seeds, neighborhoods, n),
    decreases m,
{
    if m > 0 {
        if n < m {
            lemma_seeds_undefined(seeds, neighborhoods, n, m - 1);
        } else {
            lemma_seeds_undefined(seeds, neighborhoods, n - 1, m - 1);
        }
    }
}

/// If none of the first `n` requests names an undefined neighborhood,
/// each of them names defined ones; and a name once found stays found.
pub proof fn lemma_spawns_undefined(
    spawns: Seq<SpawnOverTime>,
    neighborhoods: &Neighborhoods,
    n: int,
    m: int,
)
    requires
        0 <= n <= m <= spawns.len(),
    ensures
        spawns_undefined(spawns, neighborhoods, m) is None ==> spawns_undefined(
            spawns,
            neighborhoods,
            n,
        ) is None && forall|i: int|
            0 <= i < m ==> spawn_undefined(&#[trigger] spawns[i], neighborhoods) is None,
        spawns_undefined(spawns, neighborhoods, n) is Some ==> spawns_undefined(
            spawns,
            neighborhoods,
            m,
        ) == spawns_undefined(spawns, neighborhoods, n),
    decreases m,
{
    if m > 0 {
        if n < m {
            lemma_spawns_undefined(spawns, neighborhoods, n, m - 1);
        } else {
            lemma_spawns_undefined(spawns, neighborhoods, n - 1, m - 1);
        }
    }
}

/// If none of the first `n` requests names an undefined neighborhood,
/// each of them names defined ones; and a name once found stays found.
pub proof fn lemma_borders_undefined(
    borders: Seq<BorderSpawnOverTime>,
    neighborhoods: &Neighborhoods,
    n: int,
    m: int,
)
    requires
        0 <= n <= m <= borders.len(),
    ensures
        borders_undefined(borders, neighborhoods, m) is None ==> borders_undefined(
            borders,
            neighborhoods,
            n,
        ) is None && forall|i: int|
            0 <= i < m ==> goal_undefined(&(#[trigger] borders[i]).goal, neighborhoods) is None,
        borders_undefined(borders, neighborhoods, n) is Some ==> borders_undefined(
            borders,
            neighborhoods,
            m,
        ) == borders_undefined(borders, neighborhoods, n),
    decreases m,
{
    if m > 0 {
        if n < m {
            lemma_borders_undefined(borders, neighborhoods, n, m - 1);
        } else {
            lemma_borders_undefined(borders, neighborhoods, n - 1, m - 1);
        }
    }
}

/// The name of the neighborhood of the goal, if the goal is one that is
/// not defined.
pub fn check_goal(goal: &OriginDestination, neighborhoods: &Neighborhoods) -> (missing: Option<
    String,
>)
    ensures
        missing is Some <==> goal_undefined(goal, neighborhoods) is Some,
        missing is Some ==> missing.unwrap()@ == goal_undefined(goal, neighborhoods).unwrap(),
{
    match goal {
        OriginDestination::Neighborhood(n) => if !neighborhoods.contains_key(n) {
            Some(n.clone())
        } else {
            None
        },
        OriginDestination::Border(_) => None,
    }
}

impl Scenario {
    /// The first name of a neighborhood that a request names and that is
    /// not defined: the requests for parked cars come first, then those
    /// for agents of neighborhoods, then those for agents at borders.
    pub open spec fn spec_undefined(&self, neighborhoods: &Neighborhoods) -> Option<Seq<char>> {
        match seeds_undefined(
            self.seed_parked_cars@,
            neighborhoods,
            self.seed_parked_cars.len() as int,
        ) {
            Some(x) => Some(x),
            None => match spawns_undefined(
                self.spawn_over_time@,
                neighborhoods,
                self.spawn_over_time.len() as int,
            ) {
                Some(x) => Some(x),
                None => borders_undefined(
                    self.border_spawn_over_time@,
                    neighborhoods,
                    self.border_spawn_over_time.len() as int,
                ),
            },
        }
    }

    /// Every neighborhood that a request names is defined.
    pub open spec fn names_defined(&self, neighborhoods: &Neighborhoods) -> bool {
        self.spec_undefined(neighborhoods) is None
    }

    /// The first name of a neighborhood that a request names and that is
    /// not defined, if there is one.
    pub fn undefined_neighborhood(&self, neighborhoods: &Neighborhoods) -> (missing: Option<String>)
        ensures
            missing is Some <==> self.spec_undefined(neighborhoods) is Some,
            missing is Some ==> missing.unwrap()@ == self.spec_undefined(neighborhoods).unwrap(),
    {
        let mut i: usize = 0;
        while i < self.seed_parked_cars.len()
            invariant
                i <= self.seed_parked_cars.len(),
                seeds_undefined(self.seed_parked_cars@, neighborhoods, i as int) is None,
            decreases self.seed_parked_cars.len() - i,
        {
            if !neighborhoods.contains_key(&self.seed_parked_cars[i].neighborhood) {
                proof {
                    lemma_seeds_undefined(
                        self.seed_parked_cars@,
                        neighborhoods,
                        i + 1,
                        self.seed_parked_cars.len() as int,
                    );
                }
                return Some(self.seed_parked_cars[i].neighborhood.clone());
            }
            i += 1;
        }
        let mut j: usize = 0;
        while j < self.spawn_over_time.len()
            invariant
                j <= self.spawn_over_time.len(),
                seeds_undefined(
                    self.seed_parked_cars@,
                    neighborhoods,
                    self.seed_parked_cars.len() as int,
                ) is None,
                spawns_undefined(self.spawn_over_time@, neighborhoods, j as int) is None,
            decreases self.spawn_over_time.len() - j,
        {
            let s = &self.spawn_over_time[j];
            proof {
                lemma_spawns_undefined(
                    self.spawn_over_time@,
                    neighborhoods,
                    j + 1,
                    self.spawn_over_time.len() as int,
                );
            }
            if !neighborhoods.contains_key(&s.start_from_neighborhood) {
                return Some(s.start_from_neighborhood.clone());
            }
            let missing = check_goal(&s.goal, neighborhoods);
            if missing.is_some() {
                return missing;
            }
            j += 1;
        }
        let mut k: usize = 0;
        while k < self.border_spawn_over_time.len()
            invariant
                k <= self.border_spawn_over_time.len(),
                seeds_undefined(
                    self.seed_parked_cars@,
                    neighborhoods,
                    self.seed_parked_cars.len() as int,
                ) is None,
                spawns_undefined(
                    self.spawn_over_time@,
                    neighborhoods,
                    self.spawn_over_time.len() as int,
                ) is None,
                borders_undefined(self.border_spawn_over_time@, neighborhoods, k as int) is None,
            decreases self.border_spawn_over_time.len() - k,
        {
            proof {
                lemma_borders_undefined(
                    self.border_spawn_over_time@,
                    neighborhoods,
                    k + 1,
                    self.border_spawn_over_time.len() as int,
                );
            }
            let missing = check_goal(&self.border_spawn_over_time[k].goal, neighborhoods);
            if missing.is_some() {
                return missing;
            }
            k += 1;
        }
        None
    }
}

} // verus!
