//! Grid geometry: positions, cells, the toroidal board and its
//! wrap-around neighbour queries.

use vstd::prelude::*;
use vstd::arithmetic::div_mod::lemma_fundamental_div_mod;
use vstd::arithmetic::div_mod::lemma_fundamental_div_mod_converse;

verus! {

/// A coordinate pair on the grid: `x` in `[0, width)`, `y` in `[0, height)`.
#[derive(Clone, Copy, PartialEq, Eq, Structural, Debug, Hash)]
pub struct Pos {
    pub x: u32,
    pub y: u32,
}

/// One living cell: the step index at which it was born, and where it sits.
/// A cell that survives a step is carried forward unchanged, so its
/// generation stays frozen at its birth step.
#[derive(Clone, Copy, PartialEq, Eq, Structural, Debug)]
pub struct Life {
    pub generation: u64,
    pub pos: Pos,
}

/// Which adjacent positions count toward the live-neighbour total.
#[derive(Clone, Copy, PartialEq, Eq, Structural, Debug)]
pub enum Neighborhood {
    /// The four orthogonal neighbours only (north, south, east, west).
    VonNeumann,
    /// The four orthogonal neighbours plus the four diagonals.
    Moore,
}

impl Default for Neighborhood {
    /// Moore (eight neighbours) is the canonical default.
    fn default() -> (r: Self)
        ensures
            r == Neighborhood::Moore,
    {
        Neighborhood::Moore
    }
}

/// The coordinate one step toward zero, wrapping to `n - 1` at the edge.
pub open spec fn dec_wrap(v: int, n: int) -> int {
    if v == 0 {
        n - 1
    } else {
        v - 1
    }
}

/// The coordinate one step away from zero, wrapping to `0` at the edge.
pub open spec fn inc_wrap(v: int, n: int) -> int {
    if v == n - 1 {
        0
    } else {
        v + 1
    }
}

pub open spec fn b2i(b: bool) -> int {
    if b {
        1
    } else {
        0
    }
}

/// A position's row-major index determines it uniquely: packing `(x, y)`
/// lands strictly inside the grid, and unpacking recovers the coordinates.
pub proof fn lemma_flat_bijection(x: int, y: int, w: int, h: int)
    requires
        0 <= x < w,
        0 <= y < h,
    ensures
        0 <= y * w + x < w * h,
        (y * w + x) % w == x,
        (y * w + x) / w == y,
{
    assert(0 <= y * w + x && y * w + x < w * h) by (nonlinear_arith)
        requires
            0 <= x < w,
            0 <= y < h,
    ;
    lemma_fundamental_div_mod_converse(y * w + x, w, y, x);
}

/// Unpacking a row-major index yields in-range coordinates that pack back
/// to the same index.
pub proof fn lemma_unflat(i: int, w: int, h: int)
    requires
        0 < w,
        0 < h,
        0 <= i < w * h,
    ensures
        0 <= i % w < w,
        0 <= i / w < h,
        (i / w) * w + (i % w) == i,
{
    lemma_fundamental_div_mod(i, w);
    assert(0 <= i % w < w && 0 <= i / w < h && (i / w) * w + (i % w) == i) by (nonlinear_arith)
        requires
            0 < w,
            0 < h,
            0 <= i < w * h,
            i == w * (i / w) + (i % w),
            0 <= i % w < w,
    ;
}

/// Number of live entries among the first `n` grid slots.
pub open spec fn pop_upto(s: Seq<Option<u64>>, n: int) -> int
    decreases n,
{
    if n <= 0 {
        0
    } else {
        pop_upto(s, n - 1) + b2i(s[n - 1] is Some)
    }
}

/// An all-dead grid has a live count of zero.
pub proof fn lemma_pop_all_none(s: Seq<Option<u64>>, n: int)
    requires
        0 <= n <= s.len(),
        forall|j: int| 0 <= j < s.len() ==> s[j] is None,
    ensures
        pop_upto(s, n) == 0,
    decreases n,
{
    if n > 0 {
        lemma_pop_all_none(s, n - 1);
    }
}

/// Replacing one slot changes the live count by the difference the new and
/// old entries contribute, and only where the slot lies inside the prefix.
pub proof fn lemma_pop_update(s: Seq<Option<u64>>, j: int, v: Option<u64>, n: int)
    requires
        0 <= j < s.len(),
        0 <= n <= s.len(),
    ensures
        pop_upto(s.update(j, v), n) == pop_upto(s, n) + if j < n {
            b2i(v is Some) - b2i(s[j] is Some)
        } else {
            0
        },
    decreases n,
{
    if n > 0 {
        lemma_pop_update(s, j, v, n - 1);
    }
}

/// One time step's full state: a step index, fixed dimensions, and a dense
/// row-major grid holding, for each position, the birth generation of the
/// live cell there (`None` means dead).
#[derive(Debug)]
pub struct World {
    /// Step index (generation counter) of this snapshot.
    pub id: u64,
    pub width: u32,
    pub height: u32,
    /// Entry `y * width + x` is the cell at `(x, y)`.
    pub cells: Vec<Option<u64>>,
}

impl World {
    /// Well-formedness: positive dimensions, a fully allocated grid, and no
    /// cell born later than the snapshot's own step index.
    pub open spec fn wf(self) -> bool {
        &&& self.width > 0
        &&& self.height > 0
        &&& self.cells@.len() == (self.width as int) * (self.height as int)
        &&& forall|i: int|
            0 <= i < self.cells@.len() ==> (#[trigger] self.cells@[i] matches Some(g) ==> g
                <= self.id)
    }

    pub open spec fn in_bounds(self, x: int, y: int) -> bool {
        0 <= x < self.width && 0 <= y < self.height
    }

    /// Row-major index of `(x, y)`.
    pub open spec fn flat(self, x: int, y: int) -> int {
        y * self.width + x
    }

    pub open spec fn cell_at(self, x: int, y: int) -> Option<u64> {
        self.cells@[self.flat(x, y)]
    }

    pub open spec fn alive_at(self, x: int, y: int) -> bool {
        self.cell_at(x, y) is Some
    }

    /// Birth generation of the live cell at `(x, y)`; meaningful only where
    /// `alive_at` holds.
    pub open spec fn gen_at(self, x: int, y: int) -> u64 {
        match self.cell_at(x, y) {
            Some(g) => g,
            None => 0,
        }
    }

    /// Live count among the four orthogonally adjacent wrapped positions.
    pub open spec fn orthogonal_live(self, x: int, y: int) -> int {
        let w = self.width as int;
        let h = self.height as int;
        b2i(self.alive_at(dec_wrap(x, w), y)) + b2i(self.alive_at(inc_wrap(x, w), y)) + b2i(
            self.alive_at(x, dec_wrap(y, h)),
        ) + b2i(self.alive_at(x, inc_wrap(y, h)))
    }

    /// Live count among the four diagonally adjacent wrapped positions.
    pub open spec fn diagonal_live(self, x: int, y: int) -> int {
        let w = self.width as int;
        let h = self.height as int;
        b2i(self.alive_at(dec_wrap(x, w), dec_wrap(y, h))) + b2i(
            self.alive_at(inc_wrap(x, w), dec_wrap(y, h)),
        ) + b2i(self.alive_at(dec_wrap(x, w), inc_wrap(y, h))) + b2i(
            self.alive_at(inc_wrap(x, w), inc_wrap(y, h)),
        )
    }

    /// The live-neighbour total of `(x, y)` under the given mode.
    pub open spec fn live_neighbours(self, x: int, y: int, mode: Neighborhood) -> int {
        match mode {
            Neighborhood::VonNeumann => self.orthogonal_live(x, y),
            Neighborhood::Moore => self.orthogonal_live(x, y) + self.diagonal_live(x, y),
        }
    }

    /// Row-major index of an in-range position.
    pub(crate) fn index_of(&self, x: u32, y: u32) -> (r: usize)
        requires
            self.wf(),
            x < self.width,
            y < self.height,
        ensures
            r == self.flat(x as int, y as int),
            r < self.cells@.len(),
    {
        let n = self.cells.len();
        proof {
            assert((y as int) * (self.width as int) + (x as int) < (self.width as int) * (
            self.height as int)) by (nonlinear_arith)
                requires
                    0 <= (x as int) < (self.width as int),
                    0 <= (y as int) < (self.height as int),
            ;
        }
        (y as usize) * (self.width as usize) + (x as usize)
    }

    /// Whether the cell at `pos` is alive.
    pub fn is_alive(&self, pos: &Pos) -> (r: bool)
        requires
            self.wf(),
            pos.x < self.width,
            pos.y < self.height,
        ensures
            r == self.alive_at(pos.x as int, pos.y as int),
    {
        let i = self.index_of(pos.x, pos.y);
        self.cells[i].is_some()
    }

    /// Birth generation of the cell at `pos`, or `None` where it is dead.
    pub fn generation_at(&self, pos: &Pos) -> (r: Option<u64>)
        requires
            self.wf(),
            pos.x < self.width,
            pos.y < self.height,
        ensures
            r == self.cell_at(pos.x as int, pos.y as int),
    {
        let i = self.index_of(pos.x, pos.y);
        self.cells[i]
    }

    /// Whether the cell one column to the left (wrapping) is alive.
    pub fn left_neighbour(&self, pos: &Pos) -> (r: bool)
        requires
            self.wf(),
            pos.x < self.width,
            pos.y < self.height,
        ensures
            r == self.alive_at(dec_wrap(pos.x as int, self.width as int), pos.y as int),
    {
        let nx = if pos.x == 0 {
            self.width - 1
        } else {
            pos.x - 1
        };
        let i = self.index_of(nx, pos.y);
        self.cells[i].is_some()
    }

    /// Whether the cell one column to the right (wrapping) is alive.
    pub fn right_neighbour(&self, pos: &Pos) -> (r: bool)
        requires
            self.wf(),
            pos.x < self.width,
            pos.y < self.height,
        ensures
            r == self.alive_at(inc_wrap(pos.x as int, self.width as int), pos.y as int),
    {
        let nx = if pos.x == self.width - 1 {
            0
        } else {
            pos.x + 1
        };
        let i = self.index_of(nx, pos.y);
        self.cells[i].is_some()
    }

    /// Whether the cell one row up (wrapping) is alive.
    pub fn top_neighbour(&self, pos: &Pos) -> (r: bool)
        requires
            self.wf(),
            pos.x < self.width,
            pos.y < self.height,
        ensures
            r == self.alive_at(pos.x as int, dec_wrap(pos.y as int, self.height as int)),
    {
        let ny = if pos.y == 0 {
            self.height - 1
        } else {
            pos.y - 1
        };
        let i = self.index_of(pos.x, ny);
        self.cells[i].is_some()
    }

    /// Whether the cell one row down (wrapping) is alive.
    pub fn bottom_neighbour(&self, pos: &Pos) -> (r: bool)
        requires
            self.wf(),
            pos.x < self.width,
            pos.y < self.height,
        ensures
            r == self.alive_at(pos.x as int, inc_wrap(pos.y as int, self.height as int)),
    {
        let ny = if pos.y == self.height - 1 {
            0
        } else {
            pos.y + 1
        };
        let i = self.index_of(pos.x, ny);
        self.cells[i].is_some()
    }

    /// Whether the upper-left diagonal cell (wrapping) is alive.
    pub fn top_left_neighbour(&self, pos: &Pos) -> (r: bool)
        requires
            self.wf(),
            pos.x < self.width,
            pos.y < self.height,
        ensures
            r == self.alive_at(
                dec_wrap(pos.x as int, self.width as int),
                dec_wrap(pos.y as int, self.height as int),
            ),
    {
        let nx = if pos.x == 0 {
            self.width - 1
        } else {
            pos.x - 1
        };
        let ny = if pos.y == 0 {
            self.height - 1
        } else {
            pos.y - 1
        };
        let i = self.index_of(nx, ny);
        self.cells[i].is_some()
    }

    /// Whether the upper-right diagonal cell (wrapping) is alive.
    pub fn top_right_neighbour(&self, pos: &Pos) -> (r: bool)
        requires
            self.wf(),
            pos.x < self.width,
            pos.y < self.height,
        ensures
            r == self.alive_at(
                inc_wrap(pos.x as int, self.width as int),
                dec_wrap(pos.y as int, self.height as int),
            ),
    {
        let nx = if pos.x == self.width - 1 {
            0
        } else {
            pos.x + 1
        };
        let ny = if pos.y == 0 {
            self.height - 1
        } else {
            pos.y - 1
        };
        let i = self.index_of(nx, ny);
        self.cells[i].is_some()
    }

    /// Whether the lower-left diagonal cell (wrapping) is alive.
    pub fn bottom_left_neighbour(&self, pos: &Pos) -> (r: bool)
        requires
            self.wf(),
            pos.x < self.width,
            pos.y < self.height,
        ensures
            r == self.alive_at(
                dec_wrap(pos.x as int, self.width as int),
                inc_wrap(pos.y as int, self.height as int),
            ),
    {
        let nx = if pos.x == 0 {
            self.width - 1
        } else {
            pos.x - 1
        };
        let ny = if pos.y == self.height - 1 {
            0
        } else {
            pos.y + 1
        };
        let i = self.index_of(nx, ny);
        self.cells[i].is_some()
    }

    /// Whether the lower-right diagonal cell (wrapping) is alive.
    pub fn bottom_right_neighbour(&self, pos: &Pos) -> (r: bool)
        requires
            self.wf(),
            pos.x < self.width,
            pos.y < self.height,
        ensures
            r == self.alive_at(
                inc_wrap(pos.x as int, self.width as int),
                inc_wrap(pos.y as int, self.height as int),
            ),
    {
        let nx = if pos.x == self.width - 1 {
            0
        } else {
            pos.x + 1
        };
        let ny = if pos.y == self.height - 1 {
            0
        } else {
            pos.y + 1
        };
        let i = self.index_of(nx, ny);
        self.cells[i].is_some()
    }

    /// Total live cells on the board.
    pub open spec fn pop(self) -> int {
        pop_upto(self.cells@, self.cells@.len() as int)
    }

    /// Count of the currently-alive cells.
    pub fn population(&self) -> (r: usize)
        requires
            self.wf(),
        ensures
            r as int == self.pop(),
    {
        let n = self.cells.len();
        let mut count: usize = 0;
        let mut i: usize = 0;
        while i < n
            invariant
                n == self.cells@.len(),
                i <= n,
                count as int == pop_upto(self.cells@, i as int),
                count <= i,
            decreases n - i,
        {
            if self.cells[i].is_some() {
                count += 1;
            }
            i += 1;
        }
        count
    }

    /// The live cell with the smallest birth generation, or `None` on an
    /// empty board. Ties go to the smallest row-major index, so the result
    /// is deterministic.
    pub fn find_oldest(&self) -> (r: Option<Life>)
        requires
            self.wf(),
        ensures
            match r {
                None => forall|x: int, y: int| self.in_bounds(x, y) ==> !self.alive_at(x, y),
                Some(l) => {
                    &&& l.pos.x < self.width
                    &&& l.pos.y < self.height
                    &&& self.cell_at(l.pos.x as int, l.pos.y as int) == Some(l.generation)
                    &&& forall|x: int, y: int|
                        self.in_bounds(x, y) && self.alive_at(x, y) ==> l.generation
                            <= self.gen_at(x, y)
                    &&& forall|x: int, y: int|
                        self.in_bounds(x, y) && self.alive_at(x, y) && self.flat(x, y)
                            < self.flat(l.pos.x as int, l.pos.y as int) ==> l.generation
                            < self.gen_at(x, y)
                },
            },
    {
        let n = self.cells.len();
        let w = self.width;
        let mut best: Option<Life> = None;
        let mut i: usize = 0;
        while i < n
            invariant
                self.wf(),
                n == self.cells@.len(),
                w == self.width,
                i <= n,
                match best {
                    None => forall|j: int| 0 <= j < i ==> self.cells@[j] is None,
                    Some(l) => {
                        &&& l.pos.x < self.width
                        &&& l.pos.y < self.height
                        &&& self.flat(l.pos.x as int, l.pos.y as int) < i
                        &&& self.cells@[self.flat(l.pos.x as int, l.pos.y as int)] == Some(
                            l.generation,
                        )
                        &&& forall|j: int|
                            0 <= j < i ==> ((#[trigger] self.cells@[j]) matches Some(g)
                                ==> l.generation <= g)
                        &&& forall|j: int|
                            0 <= j < self.flat(l.pos.x as int, l.pos.y as int) ==> ((
                            #[trigger] self.cells@[j]) matches Some(g) ==> l.generation < g)
                    },
                },
            decreases n - i,
        {
            proof {
                lemma_unflat(i as int, self.width as int, self.height as int);
            }
            let x = (i % (w as usize)) as u32;
            let y = (i / (w as usize)) as u32;
            match self.cells[i] {
                Some(g) => {
                    let replace = match &best {
                        None => true,
                        Some(l) => g < l.generation,
                    };
                    if replace {
                        best = Some(Life { generation: g, pos: Pos { x, y } });
                    }
                },
                None => {},
            }
            i += 1;
        }
        proof {
            match best {
                Some(l) => {
                    assert forall|x: int, y: int|
                        self.in_bounds(x, y) && self.alive_at(x, y) implies l.generation
                        <= self.gen_at(x, y) by {
                        lemma_flat_bijection(x, y, self.width as int, self.height as int);
                    }
                    assert forall|x: int, y: int|
                        self.in_bounds(x, y) && self.alive_at(x, y) && self.flat(x, y) < self.flat(
                            l.pos.x as int,
                            l.pos.y as int,
                        ) implies l.generation < self.gen_at(x, y) by {
                        lemma_flat_bijection(x, y, self.width as int, self.height as int);
                    }
                },
                None => {
                    assert forall|x: int, y: int| self.in_bounds(x, y) implies !self.alive_at(
                        x,
                        y,
                    ) by {
                        lemma_flat_bijection(x, y, self.width as int, self.height as int);
                    }
                },
            }
        }
        best
    }

    /// The live cell with the largest birth generation, or `None` on an
    /// empty board. Ties go to the smallest row-major index, so the result
    /// is deterministic.
    pub fn find_youngest(&self) -> (r: Option<Life>)
        requires
            self.wf(),
        ensures
            match r {
                None => forall|x: int, y: int| self.in_bounds(x, y) ==> !self.alive_at(x, y),
                Some(l) => {
                    &&& l.pos.x < self.width
                    &&& l.pos.y < self.height
                    &&& self.cell_at(l.pos.x as int, l.pos.y as int) == Some(l.generation)
                    &&& forall|x: int, y: int|
                        self.in_bounds(x, y) && self.alive_at(x, y) ==> l.generation
                            >= self.gen_at(x, y)
                    &&& forall|x: int, y: int|
                        self.in_bounds(x, y) && self.alive_at(x, y) && self.flat(x, y)
                            < self.flat(l.pos.x as int, l.pos.y as int) ==> l.generation
                            > self.gen_at(x, y)
                },
            },
    {
        let n = self.cells.len();
        let w = self.width;
        let mut best: Option<Life> = None;
        let mut i: usize = 0;
        while i < n
            invariant
                self.wf(),
                n == self.cells@.len(),
                w == self.width,
                i <= n,
                match best {
                    None => forall|j: int| 0 <= j < i ==> self.cells@[j] is None,
                    Some(l) => {
                        &&& l.pos.x < self.width
                        &&& l.pos.y < self.height
                        &&& self.flat(l.pos.x as int, l.pos.y as int) < i
                        &&& self.cells@[self.flat(l.pos.x as int, l.pos.y as int)] == Some(
                            l.generation,
                        )
                        &&& forall|j: int|
                            0 <= j < i ==> ((#[trigger] self.cells@[j]) matches Some(g)
                                ==> l.generation >= g)
                        &&& forall|j: int|
                            0 <= j < self.flat(l.pos.x as int, l.pos.y as int) ==> ((
                            #[trigger] self.cells@[j]) matches Some(g) ==> l.generation > g)
                    },
                },
            decreases n - i,
        {
            proof {
                lemma_unflat(i as int, self.width as int, self.height as int);
            }
            let x = (i % (w as usize)) as u32;
            let y = (i / (w as usize)) as u32;
            match self.cells[i] {
                Some(g) => {
                    let replace = match &best {
                        None => true,
                        Some(l) => g > l.generation,
                    };
                    if replace {
                        best = Some(Life { generation: g, pos: Pos { x, y } });
                    }
                },
                None => {},
            }
            i += 1;
        }
        proof {
            match best {
                Some(l) => {
                    assert forall|x: int, y: int|
                        self.in_bounds(x, y) && self.alive_at(x, y) implies l.generation
                        >= self.gen_at(x, y) by {
                        lemma_flat_bijection(x, y, self.width as int, self.height as int);
                    }
                    assert forall|x: int, y: int|
                        self.in_bounds(x, y) && self.alive_at(x, y) && self.flat(x, y) < self.flat(
                            l.pos.x as int,
                            l.pos.y as int,
                        ) implies l.generation > self.gen_at(x, y) by {
                        lemma_flat_bijection(x, y, self.width as int, self.height as int);
                    }
                },
                None => {
                    assert forall|x: int, y: int| self.in_bounds(x, y) implies !self.alive_at(
                        x,
                        y,
                    ) by {
                        lemma_flat_bijection(x, y, self.width as int, self.height as int);
                    }
                },
            }
        }
        best
    }

    /// Live-neighbour count of `pos` under the given neighbourhood mode,
    /// with toroidal wrap-around addressing.
    pub fn num_neighbours(&self, pos: &Pos, mode: Neighborhood) -> (r: u32)
        requires
            self.wf(),
            pos.x < self.width,
            pos.y < self.height,
        ensures
            r as int == self.live_neighbours(pos.x as int, pos.y as int, mode),
            r <= 8,
    {
        let mut num: u32 = 0;
        if self.left_neighbour(pos) {
            num += 1;
        }
        if self.right_neighbour(pos) {
            num += 1;
        }
        if self.top_neighbour(pos) {
            num += 1;
        }
        if self.bottom_neighbour(pos) {
            num += 1;
        }
        match mode {
            Neighborhood::VonNeumann => {},
            Neighborhood::Moore => {
                if self.top_left_neighbour(pos) {
                    num += 1;
                }
                if self.top_right_neighbour(pos) {
                    num += 1;
                }
                if self.bottom_left_neighbour(pos) {
                    num += 1;
                }
                if self.bottom_right_neighbour(pos) {
                    num += 1;
                }
            },
        }
        num
    }
}

} // verus!
