//! The simulation layer: the birth/survival rule, step advancement, manual
//! edits, random population, and stability detection over retained
//! snapshots.

use vstd::prelude::*;
use vstd::pervasive::VecAdditionalExecFns;
use crate::board::{
    b2i, lemma_flat_bijection, lemma_pop_all_none, lemma_pop_update, lemma_unflat, Neighborhood,
    Pos, World,
};
use crate::rng::{draw_below, entropy_seed, rng_from_seed};

verus! {

/// Errors of the engine: misconfiguration at construction, or a direct
/// edit addressed outside the grid (wrapping is reserved for neighbour
/// counting during stepping, never for direct addressing).
#[derive(Clone, Copy, PartialEq, Eq, Structural, Debug)]
pub enum GameError {
    /// A zero width or height was requested at construction.
    ZeroDimension,
    /// A random population larger than the whole grid was requested.
    PopulationTooLarge,
    /// An edit addressed a position outside the grid.
    OutOfRange,
}

/// The stability verdict over the retained snapshots.
#[derive(Clone, Copy, PartialEq, Eq, Structural, Debug)]
pub enum Stability {
    /// The live-position set equals the previous step's: a fixed point.
    FixedPoint,
    /// Not a fixed point, but the live-position set equals the one from
    /// two steps back: a period-2 oscillation.
    Oscillating,
    /// Still producing new configurations (or fewer than one step taken).
    Changing,
}

/// A live cell survives a step iff its live-neighbour count `k` satisfies
/// `0 < k < 4`.
pub open spec fn survives(k: int) -> bool {
    0 < k < 4
}

/// A dead cell births a new cell iff its live-neighbour count `k` satisfies
/// `1 < k < 4`.
pub open spec fn born(k: int) -> bool {
    1 < k < 4
}

/// What the successor board holds at `(x, y)`: the surviving cell carried
/// forward unchanged, a cell newly born at the successor's step index, or
/// nothing.
pub open spec fn spec_next_cell(w: World, x: int, y: int, mode: Neighborhood) -> Option<u64> {
    let k = w.live_neighbours(x, y, mode);
    if w.alive_at(x, y) {
        if survives(k) {
            w.cell_at(x, y)
        } else {
            None
        }
    } else {
        if born(k) {
            Some((w.id + 1) as u64)
        } else {
            None
        }
    }
}

/// How many births a step from `w` produces among the first `n` grid slots.
pub open spec fn births_upto(w: World, mode: Neighborhood, n: int) -> int
    decreases n,
{
    if n <= 0 {
        0
    } else {
        births_upto(w, mode, n - 1) + b2i(
            !w.alive_at((n - 1) % (w.width as int), (n - 1) / (w.width as int)) && born(
                w.live_neighbours(
                    (n - 1) % (w.width as int),
                    (n - 1) / (w.width as int),
                    mode,
                ),
            ),
        )
    }
}

/// Total births a step from `w` produces.
pub open spec fn births(w: World, mode: Neighborhood) -> int {
    births_upto(w, mode, (w.width as int) * (w.height as int))
}

/// Births over a prefix are between zero and the prefix length.
pub proof fn lemma_births_bounds(w: World, mode: Neighborhood, n: int)
    requires
        0 <= n,
    ensures
        0 <= births_upto(w, mode, n) <= n,
    decreases n,
{
    if n > 0 {
        lemma_births_bounds(w, mode, n - 1);
    }
}

/// Whether two snapshots hold identical live-position sets. Birth
/// generations are deliberately ignored: a surviving cell's generation is
/// frozen at birth and would differ from a freshly-reborn cell's.
pub open spec fn same_live_set(a: World, b: World) -> bool {
    &&& a.width == b.width
    &&& a.height == b.height
    &&& forall|i: int|
        0 <= i < a.cells@.len() ==> ((#[trigger] a.cells@[i]) is Some <==> b.cells@[i] is Some)
}

/// Advancing a step reads nothing but the dimensions, the step index and
/// the grid contents: two snapshots that agree on those produce the same
/// successor cell at every position, and the same number of births.
pub proof fn lemma_step_deterministic(w1: World, w2: World, mode: Neighborhood)
    requires
        w1.width == w2.width,
        w1.height == w2.height,
        w1.id == w2.id,
        w1.cells@ == w2.cells@,
    ensures
        forall|x: int, y: int|
            #[trigger] spec_next_cell(w1, x, y, mode) == spec_next_cell(w2, x, y, mode),
        births(w1, mode) == births(w2, mode),
{
    assert forall|x: int, y: int|
        #[trigger] spec_next_cell(w1, x, y, mode) == spec_next_cell(w2, x, y, mode) by {
        assert(w1.live_neighbours(x, y, mode) == w2.live_neighbours(x, y, mode));
    }
    lemma_births_deterministic(w1, w2, mode, (w1.width as int) * (w1.height as int));
}

/// Helper induction for [`lemma_step_deterministic`]: the birth count over
/// any prefix agrees as well.
pub proof fn lemma_births_deterministic(w1: World, w2: World, mode: Neighborhood, n: int)
    requires
        w1.width == w2.width,
        w1.height == w2.height,
        w1.id == w2.id,
        w1.cells@ == w2.cells@,
    ensures
        births_upto(w1, mode, n) == births_upto(w2, mode, n),
    decreases n,
{
    if n > 0 {
        lemma_births_deterministic(w1, w2, mode, n - 1);
        let x = (n - 1) % (w1.width as int);
        let y = (n - 1) / (w1.width as int);
        assert(w1.live_neighbours(x, y, mode) == w2.live_neighbours(x, y, mode));
    }
}

/// Whether two snapshots hold identical live-position sets; the
/// executable counterpart of [`same_live_set`].
fn worlds_match(a: &World, b: &World) -> (r: bool)
    requires
        a.wf(),
        b.wf(),
    ensures
        r == same_live_set(*a, *b),
{
    if a.width != b.width || a.height != b.height {
        return false;
    }
    let n = a.cells.len();
    let mut i: usize = 0;
    while i < n
        invariant
            a.wf(),
            b.wf(),
            a.width == b.width,
            a.height == b.height,
            n == a.cells@.len(),
            n == b.cells@.len(),
            i <= n,
            forall|j: int|
                0 <= j < i ==> ((#[trigger] a.cells@[j]) is Some <==> b.cells@[j] is Some),
        decreases n - i,
    {
        if a.cells[i].is_some() != b.cells[i].is_some() {
            return false;
        }
        i += 1;
    }
    true
}

/// The whole simulation: the current snapshot, up to two retained earlier
/// snapshots for stability detection, the total-ever-born counter, and the
/// configured neighbourhood mode.
#[derive(Debug)]
pub struct Game {
    /// Total cells ever born, manual edits included. Tracks statistics
    /// only; it never feeds back into the rule.
    pub life_counter: u64,
    /// The current snapshot.
    pub world: World,
    /// The snapshot one step back, if at least one step was taken.
    pub prev: Option<World>,
    /// The snapshot two steps back, if at least two steps were taken.
    pub prev2: Option<World>,
    /// The neighbourhood mode every step runs under.
    pub mode: Neighborhood,
}

impl Game {
    /// Well-formedness: the current board is well formed, and each retained
    /// snapshot is well formed, has the same dimensions, and sits exactly
    /// one (respectively two) step indices behind the current board.
    pub open spec fn wf(self) -> bool {
        &&& self.world.wf()
        &&& match self.prev {
            Some(p) => {
                &&& p.wf()
                &&& p.width == self.world.width
                &&& p.height == self.world.height
                &&& p.id + 1 == self.world.id
            },
            None => true,
        }
        &&& match self.prev2 {
            Some(q) => {
                &&& q.wf()
                &&& q.width == self.world.width
                &&& q.height == self.world.height
                &&& q.id + 2 == self.world.id
                &&& self.prev is Some
            },
            None => true,
        }
    }

    /// An empty, well-formed game over a validated grid.
    fn make_empty(width: u32, height: u32, mode: Neighborhood) -> (g: Game)
        requires
            width > 0,
            height > 0,
            (width as int) * (height as int) <= usize::MAX as int,
        ensures
            g.wf(),
            g.world.width == width,
            g.world.height == height,
            g.world.id == 0,
            g.life_counter == 0,
            g.mode == mode,
            g.prev is None,
            g.prev2 is None,
            g.world.pop() == 0,
            forall|x: int, y: int| g.world.in_bounds(x, y) ==> !g.world.alive_at(x, y),
            forall|j: int| 0 <= j < g.world.cells@.len() ==> g.world.cells@[j] is None,
    {
        let n = (width as usize) * (height as usize);
        let mut cells: Vec<Option<u64>> = Vec::new();
        let mut i: usize = 0;
        while i < n
            invariant
                i <= n,
                cells@.len() == i,
                forall|j: int| 0 <= j < i ==> cells@[j] is None,
            decreases n - i,
        {
            cells.push(None);
            i += 1;
        }
        let world = World { id: 0, width, height, cells };
        let g = Game { life_counter: 0, world, prev: None, prev2: None, mode };
        proof {
            lemma_pop_all_none(g.world.cells@, g.world.cells@.len() as int);
            assert forall|x: int, y: int| g.world.in_bounds(x, y) implies !g.world.alive_at(
                x,
                y,
            ) by {
                lemma_flat_bijection(x, y, width as int, height as int);
            }
        }
        g
    }

    /// A fresh, all-dead game at step 0. Rejects a zero width or height.
    pub fn new(width: u32, height: u32, mode: Neighborhood) -> (r: Result<Game, GameError>)
        requires
            (width as int) * (height as int) <= usize::MAX as int,
        ensures
            r is Err <==> (width == 0 || height == 0),
            r matches Err(e) ==> e == GameError::ZeroDimension,
            r matches Ok(g) ==> {
                &&& g.wf()
                &&& g.world.width == width
                &&& g.world.height == height
                &&& g.world.id == 0
                &&& g.life_counter == 0
                &&& g.mode == mode
                &&& g.prev is None
                &&& g.prev2 is None
                &&& g.world.pop() == 0
                &&& forall|x: int, y: int| g.world.in_bounds(x, y) ==> !g.world.alive_at(x, y)
                &&& forall|j: int| 0 <= j < g.world.cells@.len() ==> g.world.cells@[j] is None
            },
    {
        if width == 0 || height == 0 {
            return Err(GameError::ZeroDimension);
        }
        Ok(Self::make_empty(width, height, mode))
    }

    /// Insert a live cell at `pos` with the *current* step index as its
    /// birth generation, counting it as born; a no-op where `pos` is
    /// already alive. Rejects an out-of-range position instead of wrapping.
    pub fn insert(&mut self, pos: &Pos) -> (r: Result<(), GameError>)
        requires
            old(self).wf(),
            old(self).life_counter < u64::MAX,
        ensures
            final(self).wf(),
            final(self).world.id == old(self).world.id,
            final(self).world.width == old(self).world.width,
            final(self).world.height == old(self).world.height,
            final(self).mode == old(self).mode,
            final(self).prev == old(self).prev,
            final(self).prev2 == old(self).prev2,
            r is Ok <==> (pos.x < old(self).world.width && pos.y < old(self).world.height),
            r matches Err(e) ==> e == GameError::OutOfRange && *final(self) == *old(self),
            pos.x < old(self).world.width && pos.y < old(self).world.height && old(
                self,
            ).world.alive_at(pos.x as int, pos.y as int) ==> *final(self) == *old(self),
            pos.x < old(self).world.width && pos.y < old(self).world.height && !old(
                self,
            ).world.alive_at(pos.x as int, pos.y as int) ==> {
                &&& final(self).world.cells@ == old(self).world.cells@.update(
                    old(self).world.flat(pos.x as int, pos.y as int),
                    Some(old(self).world.id),
                )
                &&& final(self).life_counter == old(self).life_counter + 1
            },
            final(self).life_counter >= old(self).life_counter,
    {
        if pos.x >= self.world.width || pos.y >= self.world.height {
            return Err(GameError::OutOfRange);
        }
        if self.world.is_alive(pos) {
            return Ok(());
        }
        let g = self.world.id;
        let i = self.world.index_of(pos.x, pos.y);
        self.world.cells.set(i, Some(g));
        self.life_counter = self.life_counter + 1;
        Ok(())
    }

    /// Remove the cell at `pos` if present; a no-op where `pos` is already
    /// dead. The total-ever-born counter is untouched. Rejects an
    /// out-of-range position instead of wrapping.
    pub fn remove(&mut self, pos: &Pos) -> (r: Result<(), GameError>)
        requires
            old(self).wf(),
        ensures
            final(self).wf(),
            final(self).world.id == old(self).world.id,
            final(self).world.width == old(self).world.width,
            final(self).world.height == old(self).world.height,
            final(self).mode == old(self).mode,
            final(self).prev == old(self).prev,
            final(self).prev2 == old(self).prev2,
            final(self).life_counter == old(self).life_counter,
            r is Ok <==> (pos.x < old(self).world.width && pos.y < old(self).world.height),
            r matches Err(e) ==> e == GameError::OutOfRange && *final(self) == *old(self),
            pos.x < old(self).world.width && pos.y < old(self).world.height && !old(
                self,
            ).world.alive_at(pos.x as int, pos.y as int) ==> *final(self) == *old(self),
            pos.x < old(self).world.width && pos.y < old(self).world.height && old(
                self,
            ).world.alive_at(pos.x as int, pos.y as int) ==> final(self).world.cells@ == old(
                self,
            ).world.cells@.update(old(self).world.flat(pos.x as int, pos.y as int), None),
    {
        if pos.x >= self.world.width || pos.y >= self.world.height {
            return Err(GameError::OutOfRange);
        }
        if !self.world.is_alive(pos) {
            return Ok(());
        }
        let i = self.world.index_of(pos.x, pos.y);
        self.world.cells.set(i, None);
        Ok(())
    }

    /// A game populated with exactly `num_life` distinct, randomly chosen
    /// live cells at birth-generation 0, drawn from a freshly seeded
    /// generator. Rejects a zero dimension, and a population that cannot
    /// fit on the grid.
    pub fn random_world(width: u32, height: u32, num_life: u64, mode: Neighborhood) -> (r: Result<
        Game,
        GameError,
    >)
        requires
            (width as int) * (height as int) <= usize::MAX as int,
        ensures
            r is Err <==> (width == 0 || height == 0 || num_life as int > (width as int) * (
            height as int)),
            r matches Err(e) ==> (e == GameError::ZeroDimension && (width == 0 || height == 0)) || (
            e == GameError::PopulationTooLarge && width > 0 && height > 0 && num_life as int > (
            width as int) * (height as int)),
            r matches Ok(g) ==> {
                &&& g.wf()
                &&& g.world.width == width
                &&& g.world.height == height
                &&& g.world.id == 0
                &&& g.mode == mode
                &&& g.life_counter == num_life
                &&& g.world.pop() == num_life
                &&& g.prev is None
                &&& g.prev2 is None
                &&& forall|x: int, y: int|
                    g.world.in_bounds(x, y) && g.world.alive_at(x, y) ==> g.world.gen_at(x, y) == 0
            },
    {
        let seed = entropy_seed();
        Self::random_world_seeded(width, height, num_life, mode, seed)
    }

    /// The random constructor with its randomness source injected as a
    /// seed: the same seed reproduces the same board. A single pass draws
    /// each position with the probability that keeps the selection uniform
    /// (selection sampling), so exactly the requested count is placed and
    /// construction always terminates.
    pub fn random_world_seeded(
        width: u32,
        height: u32,
        num_life: u64,
        mode: Neighborhood,
        seed: u64,
    ) -> (r: Result<Game, GameError>)
        requires
            (width as int) * (height as int) <= usize::MAX as int,
        ensures
            r is Err <==> (width == 0 || height == 0 || num_life as int > (width as int) * (
            height as int)),
            r matches Err(e) ==> (e == GameError::ZeroDimension && (width == 0 || height == 0)) || (
            e == GameError::PopulationTooLarge && width > 0 && height > 0 && num_life as int > (
            width as int) * (height as int)),
            r matches Ok(g) ==> {
                &&& g.wf()
                &&& g.world.width == width
                &&& g.world.height == height
                &&& g.world.id == 0
                &&& g.mode == mode
                &&& g.life_counter == num_life
                &&& g.world.pop() == num_life
                &&& g.prev is None
                &&& g.prev2 is None
                &&& forall|x: int, y: int|
                    g.world.in_bounds(x, y) && g.world.alive_at(x, y) ==> g.world.gen_at(x, y) == 0
            },
    {
        if width == 0 || height == 0 {
            return Err(GameError::ZeroDimension);
        }
        proof {
            assert((width as int) * (height as int) <= u64::MAX as int) by (nonlinear_arith)
                requires
                    0 <= (width as int) <= u32::MAX as int,
                    0 <= (height as int) <= u32::MAX as int,
            ;
        }
        let capacity = (width as u64) * (height as u64);
        if num_life > capacity {
            return Err(GameError::PopulationTooLarge);
        }
        let mut rng = rng_from_seed(seed);
        let mut g = Self::make_empty(width, height, mode);
        let n = g.world.cells.len();
        let mut placed: u64 = 0;
        let mut i: usize = 0;
        while i < n
            invariant
                g.wf(),
                g.world.width == width,
                g.world.height == height,
                g.world.id == 0,
                g.mode == mode,
                g.prev is None,
                g.prev2 is None,
                n == g.world.cells@.len(),
                i <= n,
                placed <= num_life,
                num_life as int - placed as int <= n as int - i as int,
                g.life_counter == placed,
                g.world.pop() == placed as int,
                forall|x: int, y: int|
                    g.world.in_bounds(x, y) && g.world.alive_at(x, y) ==> g.world.gen_at(x, y)
                        == 0,
                forall|j: int| i <= j < n ==> g.world.cells@[j] is None,
            decreases n - i,
        {
            let need = num_life - placed;
            let left = (n - i) as u64;
            if need > 0 && draw_below(&mut rng, left) < need {
                proof {
                    lemma_unflat(i as int, width as int, height as int);
                }
                let x = (i % (width as usize)) as u32;
                let y = (i / (width as usize)) as u32;
                let pos = Pos { x, y };
                proof {
                    assert(g.world.flat(x as int, y as int) == i as int);
                }
                let ghost pre = g;
                let _ = g.insert(&pos);
                proof {
                    lemma_pop_update(
                        pre.world.cells@,
                        i as int,
                        Some(0u64),
                        pre.world.cells@.len() as int,
                    );
                    assert forall|xx: int, yy: int|
                        g.world.in_bounds(xx, yy) && g.world.alive_at(xx, yy) implies g.world.gen_at(
                        xx,
                        yy,
                    ) == 0 by {
                        lemma_flat_bijection(xx, yy, width as int, height as int);
                    }
                }
                placed = placed + 1;
            }
            i += 1;
        }
        Ok(g)
    }

    /// The stability verdict this game's retained snapshots support: a
    /// fixed point where the current live-position set equals the previous
    /// step's, a period-2 oscillation where it instead equals the set from
    /// two steps back, and "changing" otherwise.
    pub open spec fn spec_stability(self) -> Stability {
        match self.prev {
            Some(p) => if same_live_set(self.world, p) {
                Stability::FixedPoint
            } else {
                match self.prev2 {
                    Some(q) => if same_live_set(self.world, q) {
                        Stability::Oscillating
                    } else {
                        Stability::Changing
                    },
                    None => Stability::Changing,
                }
            },
            None => Stability::Changing,
        }
    }

    /// Report whether the simulation has stalled. `FixedPoint` and
    /// `Oscillating` both mean "no change": stepping on will produce no
    /// configuration not already seen.
    pub fn stability(&self) -> (r: Stability)
        requires
            self.wf(),
        ensures
            r == self.spec_stability(),
    {
        match &self.prev {
            Some(p) => {
                if worlds_match(&self.world, p) {
                    Stability::FixedPoint
                } else {
                    match &self.prev2 {
                        Some(q) => {
                            if worlds_match(&self.world, q) {
                                Stability::Oscillating
                            } else {
                                Stability::Changing
                            }
                        },
                        None => Stability::Changing,
                    }
                }
            },
            None => Stability::Changing,
        }
    }

    /// Advance one step: apply the birth/survival rule at every grid
    /// position against the frozen current snapshot, retire the current
    /// snapshot into the history, and count every birth.
    pub fn next(&mut self)
        requires
            old(self).wf(),
            old(self).world.id < u64::MAX,
            old(self).life_counter + (old(self).world.width as int) * (old(
                self,
            ).world.height as int) <= u64::MAX,
        ensures
            final(self).wf(),
            final(self).mode == old(self).mode,
            final(self).world.width == old(self).world.width,
            final(self).world.height == old(self).world.height,
            final(self).world.id == old(self).world.id + 1,
            forall|x: int, y: int|
                old(self).world.in_bounds(x, y) ==> #[trigger] final(self).world.cell_at(x, y)
                    == spec_next_cell(old(self).world, x, y, old(self).mode),
            final(self).life_counter == old(self).life_counter + births(
                old(self).world,
                old(self).mode,
            ),
            final(self).life_counter >= old(self).life_counter,
            final(self).prev == Some(old(self).world),
            final(self).prev2 == old(self).prev,
    {
        let w = self.world.width;
        let h = self.world.height;
        let n = self.world.cells.len();
        let new_id = self.world.id + 1;
        let mut counter = self.life_counter;
        let mut new_cells: Vec<Option<u64>> = Vec::new();
        let mut i: usize = 0;
        while i < n
            invariant
                *self == *old(self),
                self.wf(),
                w == self.world.width,
                h == self.world.height,
                n == self.world.cells@.len(),
                new_id == self.world.id + 1,
                self.life_counter + (w as int) * (h as int) <= u64::MAX,
                i <= n,
                new_cells@.len() == i,
                forall|j: int|
                    0 <= j < i ==> #[trigger] new_cells@[j] == spec_next_cell(
                        self.world,
                        j % (w as int),
                        j / (w as int),
                        self.mode,
                    ),
                counter == self.life_counter + births_upto(self.world, self.mode, i as int),
                births_upto(self.world, self.mode, i as int) <= i,
            decreases n - i,
        {
            proof {
                lemma_unflat(i as int, w as int, h as int);
            }
            let x = (i % (w as usize)) as u32;
            let y = (i / (w as usize)) as u32;
            let pos = Pos { x, y };
            let k = self.world.num_neighbours(&pos, self.mode);
            let cur = self.world.cells[i];
            proof {
                assert(self.world.flat(x as int, y as int) == i as int);
                assert(births_upto(self.world, self.mode, i as int + 1) == births_upto(
                    self.world,
                    self.mode,
                    i as int,
                ) + b2i(
                    !self.world.alive_at(x as int, y as int) && born(
                        self.world.live_neighbours(x as int, y as int, self.mode),
                    ),
                ));
            }
            let newval: Option<u64>;
            match cur {
                Some(g) => {
                    if k > 0 && k < 4 {
                        newval = Some(g);
                    } else {
                        newval = None;
                    }
                },
                None => {
                    if k > 1 && k < 4 {
                        counter = counter + 1;
                        newval = Some(new_id);
                    } else {
                        newval = None;
                    }
                },
            }
            new_cells.push(newval);
            i += 1;
        }
        proof {
            assert(i as int == (w as int) * (h as int));
            lemma_births_bounds(self.world, self.mode, n as int);
            assert forall|j: int|
                0 <= j < new_cells@.len() implies ((#[trigger] new_cells@[j]) matches Some(g)
                ==> g <= new_id) by {
                lemma_unflat(j, w as int, h as int);
            }
        }
        let mut next_world = World { id: new_id, width: w, height: h, cells: new_cells };
        proof {
            assert forall|x: int, y: int|
                old(self).world.in_bounds(x, y) implies #[trigger] next_world.cell_at(x, y)
                == spec_next_cell(old(self).world, x, y, old(self).mode) by {
                lemma_flat_bijection(x, y, w as int, h as int);
            }
        }
        core::mem::swap(&mut self.world, &mut next_world);
        let mut old_prev: Option<World> = Some(next_world);
        core::mem::swap(&mut self.prev, &mut old_prev);
        self.prev2 = old_prev;
        self.life_counter = counter;
    }

    /// Discard all state: back to an all-dead board of the same dimensions
    /// at step 0, with the total-ever-born counter reset to 0.
    pub fn clear(&mut self)
        requires
            old(self).wf(),
            (old(self).world.width as int) * (old(self).world.height as int) <= usize::MAX as int,
        ensures
            final(self).wf(),
            final(self).world.width == old(self).world.width,
            final(self).world.height == old(self).world.height,
            final(self).world.id == 0,
            final(self).life_counter == 0,
            final(self).mode == old(self).mode,
            final(self).prev is None,
            final(self).prev2 is None,
            final(self).world.pop() == 0,
            forall|x: int, y: int|
                final(self).world.in_bounds(x, y) ==> !final(self).world.alive_at(x, y),
    {
        let fresh = Self::make_empty(self.world.width, self.world.height, self.mode);
        self.life_counter = 0;
        self.world = fresh.world;
        self.prev = None;
        self.prev2 = None;
    }
}

} // verus!
