//! Authoritative game state and the rule-specific simulation step.
//!
//! The state is a set of named planets, each optionally owned by a player
//! and garrisoned by a ship count, plus the fleets currently in flight
//! (expeditions). One simulation step lands every fleet, recomputes which
//! players are still alive, and advances the turn counter.
//!
//! Every mutation is pinned to a spec-level function of the old state, so a
//! round close is deterministic by contract: replaying the same dispatches
//! against the same state always yields the same state.

use vstd::prelude::*;

verus! {

/// A planet: the unit of territory. Players own planets and move ships
/// between them.
pub struct Planet {
    /// Unique display name; commands refer to planets by name.
    pub name: String,
    /// Owning player, if any.
    pub owner: Option<usize>,
    /// Ships currently stationed here.
    pub ship_count: u64,
}

/// A fleet in flight towards a planet.
#[derive(Clone, Copy, Debug, PartialEq, Eq, Structural)]
pub struct Expedition {
    /// Player that sent the fleet.
    pub owner: usize,
    /// Index of the destination planet.
    pub target: usize,
    /// Ships underway.
    pub ship_count: u64,
}

/// A validated, rule-ready ship movement. Constructed only by command
/// validation, from a command that passed every precondition against the
/// current state.
#[derive(Clone, Copy, Debug, PartialEq, Eq, Structural)]
pub struct Dispatch {
    /// Index of the origin planet.
    pub origin: usize,
    /// Index of the destination planet.
    pub target: usize,
    /// Ships to move; always nonzero.
    pub ship_count: u64,
}

/// Mathematical model of the game state.
#[verifier::ext_equal]
pub struct StateModel {
    /// All planets; a planet's id is its index here.
    pub planets: Seq<Planet>,
    /// Alive flag per player; a player's id is its index here.
    pub alive: Seq<bool>,
    /// Fleets currently in flight.
    pub expeditions: Seq<Expedition>,
    /// Completed simulation steps.
    pub turn: u64,
    /// Bound on the number of simulation steps.
    pub max_turns: u64,
}

/// The authoritative game state.
pub struct PwState {
    /// All planets; a planet's id is its index here.
    pub planets: Vec<Planet>,
    /// Alive flag per player; a player's id is its index here.
    pub alive: Vec<bool>,
    /// Fleets currently in flight.
    pub expeditions: Vec<Expedition>,
    /// Completed simulation steps.
    pub turn: u64,
    /// Bound on the number of simulation steps.
    pub max_turns: u64,
}

impl View for PwState {
    type V = StateModel;

    open spec fn view(&self) -> StateModel {
        StateModel {
            planets: self.planets@,
            alive: self.alive@,
            expeditions: self.expeditions@,
            turn: self.turn,
            max_turns: self.max_turns,
        }
    }
}

/// Saturating addition on ship counts: a garrison never overflows, it caps.
pub open spec fn spec_sat_add(a: u64, b: u64) -> u64 {
    if a + b <= u64::MAX {
        (a + b) as u64
    } else {
        u64::MAX
    }
}

/// Exec counterpart of `spec_sat_add`.
pub fn sat_add(a: u64, b: u64) -> (r: u64)
    ensures
        r == spec_sat_add(a, b),
{
    if a <= u64::MAX - b {
        a + b
    } else {
        u64::MAX
    }
}

/// State invariant: planet names are unique, and every owner or target index
/// is in range.
pub open spec fn state_wf(s: StateModel) -> bool {
    &&& forall|i: int, j: int|
        0 <= i < s.planets.len() && 0 <= j < s.planets.len() && i != j
            ==> s.planets[i].name@ != s.planets[j].name@
    &&& forall|i: int|
        0 <= i < s.planets.len() ==> match #[trigger] s.planets[i].owner {
            Some(p) => p < s.alive.len(),
            None => true,
        }
    &&& forall|i: int|
        0 <= i < s.expeditions.len() ==> (#[trigger] s.expeditions[i]).target < s.planets.len()
            && s.expeditions[i].owner < s.alive.len()
}

/// Whether a player owns at least one planet.
pub open spec fn spec_owns_planet(planets: Seq<Planet>, p: usize) -> bool {
    exists|i: int| 0 <= i < planets.len() && planets[i].owner == Some(p)
}

/// First planet with the given name, scanning from index `i`.
pub open spec fn spec_find_from(planets: Seq<Planet>, name: Seq<char>, i: int) -> Option<int>
    decreases planets.len() - i,
{
    if i < 0 || i >= planets.len() {
        None
    } else if planets[i].name@ == name {
        Some(i)
    } else {
        spec_find_from(planets, name, i + 1)
    }
}

/// The planet with the given name, if any.
pub open spec fn spec_find_planet(planets: Seq<Planet>, name: Seq<char>) -> Option<int> {
    spec_find_from(planets, name, 0)
}

/// Effect of a dispatch: the moved ships leave the origin's garrison and
/// become a fleet in flight, owned by the origin's owner.
pub open spec fn spec_dispatch(s: StateModel, d: Dispatch) -> StateModel {
    let origin = s.planets[d.origin as int];
    StateModel {
        planets: s.planets.update(
            d.origin as int,
            Planet { ship_count: (origin.ship_count - d.ship_count) as u64, ..origin },
        ),
        expeditions: s.expeditions.push(
            Expedition { owner: origin.owner.unwrap(), target: d.target, ship_count: d.ship_count },
        ),
        ..s
    }
}

/// Effect of one fleet landing on its target planet: a friendly fleet
/// reinforces the garrison; a hostile fleet larger than the garrison takes
/// the planet with the surplus; any other hostile fleet is lost against the
/// garrison.
pub open spec fn spec_land(planets: Seq<Planet>, e: Expedition) -> Seq<Planet> {
    let t = planets[e.target as int];
    let landed = if t.owner == Some(e.owner) {
        Planet { ship_count: spec_sat_add(t.ship_count, e.ship_count), ..t }
    } else if e.ship_count > t.ship_count {
        Planet { owner: Some(e.owner), ship_count: (e.ship_count - t.ship_count) as u64, ..t }
    } else {
        Planet { ship_count: (t.ship_count - e.ship_count) as u64, ..t }
    };
    planets.update(e.target as int, landed)
}

/// Effect of landing the first `k` fleets, in order.
pub open spec fn spec_land_upto(planets: Seq<Planet>, exps: Seq<Expedition>, k: int) -> Seq<Planet>
    decreases k,
{
    if k <= 0 {
        planets
    } else {
        spec_land(spec_land_upto(planets, exps, k - 1), exps[k - 1])
    }
}

/// The alive flags recomputed from territory: a player is alive exactly when
/// they still own a planet.
pub open spec fn spec_recompute_alive(planets: Seq<Planet>, n: nat) -> Seq<bool> {
    Seq::new(n, |p: int| spec_owns_planet(planets, p as usize))
}

/// Effect of one simulation step: every fleet lands in order, the alive
/// roster is recomputed from territory, and the turn counter advances.
pub open spec fn spec_advance(s: StateModel) -> StateModel {
    let landed = spec_land_upto(s.planets, s.expeditions, s.expeditions.len() as int);
    StateModel {
        planets: landed,
        alive: spec_recompute_alive(landed, s.alive.len()),
        expeditions: Seq::empty(),
        turn: (s.turn + 1) as u64,
        ..s
    }
}

/// How many players are alive, counting from index `i`.
pub open spec fn spec_count_alive(alive: Seq<bool>, i: int) -> int
    decreases alive.len() - i,
{
    if i < 0 || i >= alive.len() {
        0
    } else {
        (if alive[i] {
            1int
        } else {
            0int
        }) + spec_count_alive(alive, i + 1)
    }
}

/// The game is over when the turn bound is reached or at most one player
/// remains.
pub open spec fn spec_is_finished(s: StateModel) -> bool {
    s.turn >= s.max_turns || spec_count_alive(s.alive, 0) <= 1
}

impl PwState {
    /// Look a planet up by name.
    pub fn find_planet(&self, name: &String) -> (r: Option<usize>)
        ensures
            match r {
                Some(i) => i < self@.planets.len() && spec_find_planet(self@.planets, name@)
                    == Some(i as int),
                None => spec_find_planet(self@.planets, name@) is None,
            },
    {
        let n = self.planets.len();
        let mut i: usize = 0;
        while i < n
            invariant
                n == self@.planets.len(),
                i <= n,
                spec_find_from(self@.planets, name@, 0) == spec_find_from(
                    self@.planets,
                    name@,
                    i as int,
                ),
            decreases n - i,
        {
            if self.planets[i].name == *name {
                return Some(i);
            }
            i = i + 1;
        }
        None
    }

    /// Apply one validated dispatch to the state.
    pub fn dispatch(&mut self, d: &Dispatch)
        requires
            state_wf(old(self)@),
            d.origin < old(self)@.planets.len(),
            d.target < old(self)@.planets.len(),
            old(self)@.planets[d.origin as int].owner is Some,
            d.ship_count <= old(self)@.planets[d.origin as int].ship_count,
        ensures
            state_wf(final(self)@),
            final(self)@ == spec_dispatch(old(self)@, *d),
    {
        let owner = self.planets[d.origin].owner;
        let remaining = self.planets[d.origin].ship_count - d.ship_count;
        let name = clone_string(&self.planets[d.origin].name);
        self.planets[d.origin] = Planet { name, owner, ship_count: remaining };
        self.expeditions.push(
            Expedition { owner: owner.unwrap(), target: d.target, ship_count: d.ship_count },
        );
        proof {
            assert(self@.planets =~= spec_dispatch(old(self)@, *d).planets);
            assert(self@ =~= spec_dispatch(old(self)@, *d));
        }
    }

    /// Run one simulation step.
    pub fn step(&mut self)
        requires
            state_wf(old(self)@),
            old(self).turn < old(self).max_turns,
        ensures
            state_wf(final(self)@),
            final(self)@ == spec_advance(old(self)@),
    {
        let ghost s0 = self@;
        let n = self.expeditions.len();
        let mut k: usize = 0;
        while k < n
            invariant
                state_wf(self@),
                n == self@.expeditions.len(),
                k <= n,
                self@.expeditions == s0.expeditions,
                self@.alive == s0.alive,
                self@.planets == spec_land_upto(s0.planets, s0.expeditions, k as int),
                self@.planets.len() == s0.planets.len(),
                self.turn == s0.turn,
                self.max_turns == s0.max_turns,
            decreases n - k,
        {
            let e = self.expeditions[k];
            let t = &self.planets[e.target];
            let name = clone_string(&t.name);
            let landed = if option_eq(t.owner, Some(e.owner)) {
                Planet { name, owner: t.owner, ship_count: sat_add(t.ship_count, e.ship_count) }
            } else if e.ship_count > t.ship_count {
                Planet { name, owner: Some(e.owner), ship_count: e.ship_count - t.ship_count }
            } else {
                Planet { name, owner: t.owner, ship_count: t.ship_count - e.ship_count }
            };
            self.planets[e.target] = landed;
            proof {
                assert(self@.planets =~= spec_land_upto(s0.planets, s0.expeditions, k + 1));
            }
            k = k + 1;
        }
        self.expeditions = Vec::new();
        let ghost landed = self@.planets;
        let m = self.alive.len();
        let mut p: usize = 0;
        while p < m
            invariant
                m == self@.alive.len(),
                p <= m,
                self@.planets == landed,
                self@.expeditions == Seq::<Expedition>::empty(),
                self.turn == s0.turn,
                self.max_turns == s0.max_turns,
                forall|q: int|
                    0 <= q < p ==> self@.alive[q] == spec_owns_planet(landed, q as usize),
                forall|i: int|
                    0 <= i < self@.planets.len() ==> match #[trigger] self@.planets[i].owner {
                        Some(pl) => pl < self@.alive.len(),
                        None => true,
                    },
                forall|i: int, j: int|
                    0 <= i < self@.planets.len() && 0 <= j < self@.planets.len() && i != j
                        ==> self@.planets[i].name@ != self@.planets[j].name@,
            decreases m - p,
        {
            let owns = self.owner_has_planet(p);
            self.alive[p] = owns;
            p = p + 1;
        }
        self.turn = self.turn + 1;
        proof {
            assert(self@.alive =~= spec_recompute_alive(landed, s0.alive.len()));
            assert(self@ =~= spec_advance(s0));
        }
    }

    /// Whether the given player still owns a planet.
    fn owner_has_planet(&self, p: usize) -> (r: bool)
        ensures
            r == spec_owns_planet(self@.planets, p),
    {
        let n = self.planets.len();
        let mut i: usize = 0;
        while i < n
            invariant
                n == self@.planets.len(),
                i <= n,
                forall|j: int| 0 <= j < i ==> self@.planets[j].owner != Some(p),
            decreases n - i,
        {
            if option_eq(self.planets[i].owner, Some(p)) {
                return true;
            }
            i = i + 1;
        }
        false
    }

    /// Whether the game has reached a terminal condition.
    pub fn is_finished(&self) -> (r: bool)
        ensures
            r == spec_is_finished(self@),
    {
        if self.turn >= self.max_turns {
            return true;
        }
        let n = self.alive.len();
        let mut count: u64 = 0;
        let mut i: usize = 0;
        while i < n
            invariant
                n == self@.alive.len(),
                i <= n,
                count <= i,
                count == spec_count_alive(self@.alive, 0) - spec_count_alive(
                    self@.alive,
                    i as int,
                ),
            decreases n - i,
        {
            proof {
                lemma_count_alive_bounds(self@.alive, i as int);
                lemma_count_alive_bounds(self@.alive, i + 1);
            }
            if self.alive[i] {
                count = count + 1;
            }
            i = i + 1;
        }
        proof {
            lemma_count_alive_bounds(self@.alive, 0);
        }
        count <= 1
    }

    /// The ids of the players still alive, in ascending order.
    pub fn living_players(&self) -> (r: Vec<usize>)
        ensures
            r@.no_duplicates(),
            forall|p: usize|
                #[trigger] r@.contains(p) <==> (p < self@.alive.len() && self@.alive[p as int]),
            forall|i: int, j: int| 0 <= i < j < r@.len() ==> r@[i] < r@[j],
    {
        let n = self.alive.len();
        let mut r: Vec<usize> = Vec::new();
        let mut p: usize = 0;
        while p < n
            invariant
                n == self@.alive.len(),
                p <= n,
                forall|q: usize| #[trigger] r@.contains(q) <==> (q < p && self@.alive[q as int]),
                forall|i: int, j: int| 0 <= i < j < r@.len() ==> r@[i] < r@[j],
                forall|i: int| 0 <= i < r@.len() ==> r@[i] < p,
            decreases n - p,
        {
            if self.alive[p] {
                let ghost r0 = r@;
                r.push(p);
                proof {
                    assert forall|q: usize| #[trigger] r@.contains(q) implies (q < p + 1
                        && self@.alive[q as int]) by {
                        let j = choose|j: int| 0 <= j < r@.len() && r@[j] == q;
                        if j < r0.len() {
                            assert(r0.contains(q));
                        }
                    }
                    assert forall|q: usize| (q < p + 1 && self@.alive[q as int])
                        implies #[trigger] r@.contains(q) by {
                        if q < p {
                            assert(r0.contains(q));
                            let j = choose|j: int| 0 <= j < r0.len() && r0[j] == q;
                            assert(r@[j] == q);
                        } else {
                            assert(r@[r@.len() - 1] == q);
                        }
                    }
                }
            }
            p = p + 1;
        }
        proof {
            assert forall|i: int, j: int|
                0 <= i < r@.len() && 0 <= j < r@.len() && i != j implies r@[i] != r@[j] by {
                if i < j {
                    assert(r@[i] < r@[j]);
                } else {
                    assert(r@[j] < r@[i]);
                }
            }
        }
        r
    }
}

/// The alive count from any index is between zero and the remaining length.
proof fn lemma_count_alive_bounds(alive: Seq<bool>, i: int)
    ensures
        0 <= spec_count_alive(alive, i),
        0 <= i <= alive.len() ==> spec_count_alive(alive, i) <= alive.len() - i,
    decreases alive.len() - i,
{
    if 0 <= i < alive.len() {
        lemma_count_alive_bounds(alive, i + 1);
    }
}

/// Copy a string, preserving the value exactly.
pub fn clone_string(s: &String) -> (r: String)
    ensures
        r == *s,
{
    s.clone()
}

/// Equality test on optional player ids.
pub fn option_eq(a: Option<usize>, b: Option<usize>) -> (r: bool)
    ensures
        r == (a == b),
{
    match (a, b) {
        (Some(x), Some(y)) => x == y,
        (None, None) => true,
        _ => false,
    }
}

} // verus!
