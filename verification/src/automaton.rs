//! The automaton core: a toroidal grid, a Moore-neighborhood enumerator,
//! and the automaton capability trait with Conway's Life as its instance.

use vstd::arithmetic::div_mod::{
    lemma_fundamental_div_mod, lemma_fundamental_div_mod_converse_div,
    lemma_fundamental_div_mod_converse_mod, lemma_mod_division_less_than_divisor,
    lemma_small_mod,
};
use vstd::prelude::*;

verus! {

/// Canonical wrap of an arbitrary integer coordinate `c` into `[0, d)`.
///
/// Spec-level `%` is the Euclidean remainder, so for `d > 0` the result is
/// always in range, for negative `c` included. The executable code below is
/// proved to match this definition; in particular a negative coordinate that
/// is an exact multiple of the dimension wraps to `0` (the naive
/// `d - (|c| % d)` formula would yield the out-of-range `d` there, so that
/// boundary is special-cased rather than reproduced).
pub open spec fn wrap(c: int, d: int) -> int {
    c % d
}

/// Mathematical model of a [`Grid`]: its dimensions and the row-major
/// sequence of cell states (`index = x + y * width`).
#[verifier::ext_equal]
pub struct GridView<State> {
    pub width: nat,
    pub height: nat,
    pub cells: Seq<State>,
}

impl<State> GridView<State> {
    /// Well-formedness: positive dimensions, exactly one cell per
    /// coordinate, and a total cell count that fits the machine.
    pub open spec fn wf(self) -> bool {
        &&& 0 < self.width
        &&& 0 < self.height
        &&& self.cells.len() == self.width * self.height
        &&& self.width * self.height <= usize::MAX
    }

    /// The row-major index that an arbitrary integer coordinate resolves to.
    pub open spec fn index_of(self, x: int, y: int) -> int {
        wrap(x, self.width as int) + wrap(y, self.height as int) * self.width as int
    }

    /// The cell any integer coordinate pair resolves to, via wrap-around.
    pub open spec fn cell_at(self, x: int, y: int) -> State {
        self.cells[self.index_of(x, y)]
    }
}

/// A fixed-size 2D array of cell states with toroidal (wrap-around)
/// indexing: any integer coordinate, however negative or large, resolves to
/// exactly one cell.
#[derive(Debug, Clone)]
pub struct Grid<State> {
    width: usize,
    height: usize,
    grid: Vec<State>,
}

impl<State> View for Grid<State> {
    type V = GridView<State>;

    closed spec fn view(&self) -> GridView<State> {
        GridView { width: self.width as nat, height: self.height as nat, cells: self.grid@ }
    }
}

/// Wraps one coordinate into `[0, d)`, matching the Euclidean remainder.
fn wrap_coord(c: isize, d: usize) -> (r: usize)
    requires
        0 < d,
    ensures
        r == wrap(c as int, d as int),
        r < d,
{
    if c >= 0 {
        (c as usize) % d
    } else {
        // |c|, written so that it cannot overflow at isize::MIN.
        let a: usize = ((-(c + 1)) as usize) + 1;
        let m: usize = a % d;
        proof {
            let ci = c as int;
            let di = d as int;
            let ai = a as int;
            let mi = m as int;
            lemma_fundamental_div_mod(ai, di);
            let q = ai / di;
            assert(ci == -ai);
            if m == 0 {
                assert(ci == (-q) * di + 0) by (nonlinear_arith)
                    requires
                        ai == di * q + mi,
                        mi == 0,
                        ci == -ai,
                ;
                lemma_fundamental_div_mod_converse_mod(ci, di, -q, 0);
            } else {
                assert(ci == (-q - 1) * di + (di - mi)) by (nonlinear_arith)
                    requires
                        ai == di * q + mi,
                        ci == -ai,
                ;
                lemma_fundamental_div_mod_converse_mod(ci, di, -q - 1, di - mi);
            }
        }
        if m == 0 {
            0
        } else {
            d - m
        }
    }
}

impl<State: Default> Grid<State> {
    /// Creates a `width` by `height` grid with every cell set to the state
    /// type's default value. Zero dimensions are invalid and ruled out here,
    /// at construction, rather than surfacing later as a lookup failure.
    pub fn generate(width: usize, height: usize) -> (g: Self)
        requires
            0 < width,
            0 < height,
            width * height <= usize::MAX,
        ensures
            g@.wf(),
            g@.width == width,
            g@.height == height,
            forall|i: int|
                0 <= i < g@.cells.len() ==> call_ensures(
                    State::default,
                    (),
                    #[trigger] g@.cells[i],
                ),
    {
        let n: usize = width * height;
        let mut grid: Vec<State> = Vec::new();
        while grid.len() < n
            invariant
                grid.len() <= n,
                forall|i: int|
                    0 <= i < grid@.len() ==> call_ensures(State::default, (), #[trigger] grid@[i]),
            decreases n - grid.len(),
        {
            grid.push(State::default());
        }
        Grid { width, height, grid }
    }
}

impl<State> Grid<State> {
    /// The fixed number of columns.
    pub fn width(&self) -> (w: usize)
        ensures
            w == self@.width,
    {
        self.width
    }

    /// The fixed number of rows.
    pub fn height(&self) -> (h: usize)
        ensures
            h == self@.height,
    {
        self.height
    }

    /// Resolves an arbitrary integer coordinate pair to its row-major cell
    /// index, wrapping each axis independently.
    fn to_idx(&self, x: isize, y: isize) -> (idx: usize)
        requires
            self@.wf(),
        ensures
            idx == self@.index_of(x as int, y as int),
            idx < self@.cells.len(),
    {
        let xw = wrap_coord(x, self.width);
        let yw = wrap_coord(y, self.height);
        proof {
            let w = self.width as int;
            let h = self.height as int;
            assert((yw as int) * w + (xw as int) < w * h) by (nonlinear_arith)
                requires
                    0 <= yw as int <= h - 1,
                    0 <= xw as int <= w - 1,
                    0 < w,
                    0 < h,
            ;
        }
        xw + yw * self.width
    }

    /// Reads the cell that `(x, y)` resolves to. Any integers are legal
    /// input; the lookup never fails.
    pub fn get(&self, x: isize, y: isize) -> (r: &State)
        requires
            self@.wf(),
        ensures
            *r == self@.cell_at(x as int, y as int),
    {
        let idx = self.to_idx(x, y);
        &self.grid[idx]
    }

    /// Overwrites the cell that `(x, y)` resolves to. Any integers are
    /// legal input; exactly one cell changes.
    pub fn set(&mut self, x: isize, y: isize, value: State)
        requires
            old(self)@.wf(),
        ensures
            final(self)@.wf(),
            final(self)@.width == old(self)@.width,
            final(self)@.height == old(self)@.height,
            final(self)@.cells == old(self)@.cells.update(
                old(self)@.index_of(x as int, y as int),
                value,
            ),
    {
        let idx = self.to_idx(x, y);
        self.grid[idx] = value;
    }
}

/// For every well-formed grid and all integer coordinates, however
/// negative or far beyond the dimensions, the lookup resolves inside the
/// grid and equals the lookup at the canonically wrapped coordinates
/// `(x mod W, y mod H)`.
pub proof fn lemma_cell_at_canonical<State>(g: GridView<State>, x: int, y: int)
    requires
        g.wf(),
    ensures
        0 <= wrap(x, g.width as int) < g.width,
        0 <= wrap(y, g.height as int) < g.height,
        g.cell_at(x, y) == g.cell_at(wrap(x, g.width as int), wrap(y, g.height as int)),
{
    lemma_mod_division_less_than_divisor(x, g.width as int);
    lemma_mod_division_less_than_divisor(y, g.height as int);
    lemma_small_mod(wrap(x, g.width as int) as nat, g.width);
    lemma_small_mod(wrap(y, g.height as int) as nat, g.height);
}

/// The relative offsets of a radius-`r` square (Moore) stencil centered on
/// the origin, in row-major scan order: `y` outer from `-r` to `r`, `x`
/// inner from `-r` to `r`, so entry `k` is
/// `(-r + k % (2r+1), -r + k / (2r+1))`. `(0, 0)` is included.
pub open spec fn moore_offsets(r: int) -> Seq<(int, int)> {
    Seq::new(
        ((2 * r + 1) * (2 * r + 1)) as nat,
        |k: int| (-r + k % (2 * r + 1), -r + k / (2 * r + 1)),
    )
}

/// Radius 0 enumerates exactly the origin.
pub proof fn lemma_moore_offsets_zero()
    ensures
        moore_offsets(0) =~= seq![(0int, 0int)],
{
    let s = moore_offsets(0);
    assert((2int * 0 + 1) * (2int * 0 + 1) == 1) by (nonlinear_arith);
    assert(s.len() == 1);
    assert(s[0] == (0int, 0int));
}

/// The radius-`r` enumeration has `(2r+1)^2` entries, all pairwise
/// distinct, every entry lies in the square `[-r, r] x [-r, r]`, and every
/// offset of that square occurs.
pub proof fn lemma_moore_offsets_square(r: int)
    requires
        0 <= r,
    ensures
        moore_offsets(r).len() == (2 * r + 1) * (2 * r + 1),
        forall|i: int, j: int|
            0 <= i < j < moore_offsets(r).len() ==> moore_offsets(r)[i] != moore_offsets(r)[j],
        forall|k: int|
            0 <= k < moore_offsets(r).len() ==> -r <= (#[trigger] moore_offsets(r)[k]).0 <= r
                && -r <= moore_offsets(r)[k].1 <= r,
        forall|dx: int, dy: int|
            -r <= dx <= r && -r <= dy <= r ==> moore_offsets(r).contains((dx, dy)),
{
    let d = 2 * r + 1;
    assert forall|i: int, j: int|
        0 <= i < j < moore_offsets(r).len() implies moore_offsets(r)[i] != moore_offsets(r)[j] by {
        lemma_fundamental_div_mod(i, d);
        lemma_fundamental_div_mod(j, d);
    }
    assert forall|k: int|
        0 <= k < moore_offsets(r).len() implies -r <= (#[trigger] moore_offsets(r)[k]).0 <= r && -r
        <= moore_offsets(r)[k].1 <= r by {
        lemma_mod_division_less_than_divisor(k, d);
        lemma_fundamental_div_mod(k, d);
        assert(0 <= k / d < d) by (nonlinear_arith)
            requires
                k == d * (k / d) + k % d,
                0 <= k % d < d,
                0 <= k < d * d,
        ;
    }
    assert forall|dx: int, dy: int|
        -r <= dx <= r && -r <= dy <= r implies moore_offsets(r).contains((dx, dy)) by {
        let k = (dy + r) * d + (dx + r);
        assert(0 <= k < d * d) by (nonlinear_arith)
            requires
                k == (dy + r) * d + (dx + r),
                0 <= dy + r < d,
                0 <= dx + r < d,
        ;
        lemma_fundamental_div_mod_converse_mod(k, d, dy + r, dx + r);
        lemma_fundamental_div_mod_converse_div(k, d, dy + r, dx + r);
        assert(moore_offsets(r)[k] == (dx, dy));
    }
}

/// Marker for the dimensionality of an automaton's grid.
pub trait Dimension {

}

/// The two-dimensional case, the only one provided here.
pub struct D2;

impl Dimension for D2 {

}

/// A cellular automaton as a capability set over a cell-state type: the
/// update rule applied on every generation step, the rule for a manual
/// edit of one cell, and the style a renderer paints a state with. All
/// three are pure; their meaning is fixed by the spec functions that the
/// method contracts refer to.
pub trait Automaton {
    type State: Default + Copy;

    type Dimension: Dimension;

    /// The positions the update rule accepts. Concrete automata exclude
    /// only coordinates so extreme that the stencil arithmetic would not
    /// fit the machine integers.
    spec fn pos_ok(pos: (int, int)) -> bool;

    /// The next state of the cell at `pos`, as a function of the previous
    /// generation alone.
    spec fn next_spec(pos: (int, int), grid: GridView<Self::State>) -> Self::State;

    /// What a manual edit turns a cell in state `curr` into.
    spec fn toggle_spec(curr: Self::State) -> Self::State;

    /// The fill style a cell in state `curr` is painted with.
    spec fn style_spec(curr: Self::State) -> Seq<char>;

    /// Every nonnegative coordinate pair below `isize::MAX` is accepted,
    /// so a supervisor may update any cell of any well-formed grid.
    proof fn pos_ok_in_grid(pos: (int, int))
        requires
            0 <= pos.0 < isize::MAX as int,
            0 <= pos.1 < isize::MAX as int,
        ensures
            Self::pos_ok(pos),
    ;

    /// Computes the next state of the cell at `curr` by reading `grid`,
    /// the previous generation, which it does not mutate.
    fn update(curr: (isize, isize), grid: &Grid<Self::State>) -> (r: Self::State)
        requires
            grid@.wf(),
            Self::pos_ok((curr.0 as int, curr.1 as int)),
        ensures
            r == Self::next_spec((curr.0 as int, curr.1 as int), grid@),
    ;

    /// The state to store when a user manually clicks a cell.
    fn toggle(curr: Self::State) -> (r: Self::State)
        ensures
            r == Self::toggle_spec(curr),
    ;

    /// A renderer-consumable color descriptor for a state; total and
    /// deterministic.
    fn style(curr: &Self::State) -> (r: &'static str)
        ensures
            r@ == Self::style_spec(*curr),
    ;
}

/// Conway's Game of Life.
pub struct Life;

/// The two cell states of Life; `Dead` is the default.
#[derive(Debug, Clone, Copy, PartialEq, Eq, Structural)]
pub enum LifeStates {
    Dead,
    Alife,
}

impl Default for LifeStates {
    /// A fresh cell is dead.
    fn default() -> (r: Self)
        ensures
            r == LifeStates::Dead,
    {
        LifeStates::Dead
    }
}

/// 1 if the cell that `(x, y)` resolves to is alive, else 0.
pub open spec fn alive_at(g: GridView<LifeStates>, x: int, y: int) -> int {
    match g.cell_at(x, y) {
        LifeStates::Alife => 1,
        LifeStates::Dead => 0,
    }
}

/// The number of live cells among the eight Moore neighbors of `(x, y)`,
/// each read through the grid's wrap-around.
pub open spec fn live_neighbors(g: GridView<LifeStates>, x: int, y: int) -> int {
    alive_at(g, x - 1, y - 1) + alive_at(g, x, y - 1) + alive_at(g, x + 1, y - 1) + alive_at(
        g,
        x - 1,
        y,
    ) + alive_at(g, x + 1, y) + alive_at(g, x - 1, y + 1) + alive_at(g, x, y + 1) + alive_at(
        g,
        x + 1,
        y + 1,
    )
}

/// Conway's rule: a live cell with 2 or 3 live neighbors stays alive, a
/// dead cell with exactly 3 becomes alive, and every other cell is dead in
/// the next generation.
pub open spec fn life_next(g: GridView<LifeStates>, x: int, y: int) -> LifeStates {
    let n = live_neighbors(g, x, y);
    match g.cell_at(x, y) {
        LifeStates::Alife => if 2 <= n <= 3 {
            LifeStates::Alife
        } else {
            LifeStates::Dead
        },
        LifeStates::Dead => if n == 3 {
            LifeStates::Alife
        } else {
            LifeStates::Dead
        },
    }
}

/// The neighbor count contributed by one stencil offset: the center
/// contributes nothing, every other offset the liveness of the cell it
/// points at.
spec fn life_contrib(g: GridView<LifeStates>, x: int, y: int, o: (int, int)) -> int {
    if o == (0int, 0int) {
        0
    } else {
        alive_at(g, x + o.0, y + o.1)
    }
}

/// The neighbor count accumulated over the first `k` offsets of the
/// radius-1 stencil.
spec fn life_partial(g: GridView<LifeStates>, x: int, y: int, k: int) -> int
    decreases k,
{
    if k <= 0 {
        0
    } else {
        life_partial(g, x, y, k - 1) + life_contrib(g, x, y, moore_offsets(1)[k - 1])
    }
}

/// Walking the whole radius-1 stencil and skipping the center counts
/// exactly the eight Moore neighbors.
proof fn lemma_life_partial_full(g: GridView<LifeStates>, x: int, y: int)
    ensures
        life_partial(g, x, y, 9) == live_neighbors(g, x, y),
{
    reveal_with_fuel(life_partial, 10);
    let s = moore_offsets(1);
    assert((2int * 1 + 1) * (2int * 1 + 1) == 9) by (nonlinear_arith);
    assert(s.len() == 9);
    assert(0int % 3 == 0 && 0int / 3 == 0 && 1int % 3 == 1 && 1int / 3 == 0 && 2int % 3 == 2
        && 2int / 3 == 0 && 3int % 3 == 0 && 3int / 3 == 1 && 4int % 3 == 1 && 4int / 3 == 1
        && 5int % 3 == 2 && 5int / 3 == 1 && 6int % 3 == 0 && 6int / 3 == 2 && 7int % 3 == 1
        && 7int / 3 == 2 && 8int % 3 == 2 && 8int / 3 == 2) by (nonlinear_arith);
    assert(s[0] == (-1int, -1int));
    assert(s[1] == (0int, -1int));
    assert(s[2] == (1int, -1int));
    assert(s[3] == (-1int, 0int));
    assert(s[4] == (0int, 0int));
    assert(s[5] == (1int, 0int));
    assert(s[6] == (-1int, 1int));
    assert(s[7] == (0int, 1int));
    assert(s[8] == (1int, 1int));
}

impl Automaton for Life {
    type State = LifeStates;

    type Dimension = D2;

    /// Only coordinates whose radius-1 neighbors exist as machine integers.
    open spec fn pos_ok(pos: (int, int)) -> bool {
        &&& (isize::MIN as int) < pos.0 < (isize::MAX as int)
        &&& (isize::MIN as int) < pos.1 < (isize::MAX as int)
    }

    open spec fn next_spec(pos: (int, int), grid: GridView<LifeStates>) -> LifeStates {
        life_next(grid, pos.0, pos.1)
    }

    /// A manual edit flips the state.
    open spec fn toggle_spec(curr: LifeStates) -> LifeStates {
        match curr {
            LifeStates::Dead => LifeStates::Alife,
            LifeStates::Alife => LifeStates::Dead,
        }
    }

    /// Dead cells are painted dark, live cells light.
    open spec fn style_spec(curr: LifeStates) -> Seq<char> {
        match curr {
            LifeStates::Dead => "#1d2021"@,
            LifeStates::Alife => "#ebdbb2"@,
        }
    }

    proof fn pos_ok_in_grid(pos: (int, int)) {
    }

    fn update(curr: (isize, isize), grid: &Grid<LifeStates>) -> (r: LifeStates) {
        let (pos_x, pos_y) = curr;
        let mut it = MooreNeighbors::<1>::new();
        let mut sum: u8 = 0;
        let mut k: usize = 0;
        while k < 9
            invariant
                grid@.wf(),
                Self::pos_ok((pos_x as int, pos_y as int)),
                it.wf(),
                it.pos() == k,
                k <= 9,
                0 <= sum <= k,
                sum as int == life_partial(grid@, pos_x as int, pos_y as int, k as int),
            decreases 9 - k,
        {
            proof {
                assert(MooreNeighbors::<1>::total() == (2int * 1 + 1) * (2int * 1 + 1));
                assert((2int * 1 + 1) * (2int * 1 + 1) == 9) by (nonlinear_arith);
            }
            let o = it.next().unwrap();
            proof {
                let ki = k as int;
                assert(moore_offsets(1).len() == 9);
                lemma_mod_division_less_than_divisor(ki, 3);
                lemma_fundamental_div_mod(ki, 3);
                assert(0 <= ki / 3 < 3) by (nonlinear_arith)
                    requires
                        ki == 3 * (ki / 3) + ki % 3,
                        0 <= ki % 3 < 3,
                        0 <= ki < 9,
                ;
                assert(moore_offsets(1)[ki] == (-1 + ki % 3, -1 + ki / 3));
            }
            if o.0 != 0 || o.1 != 0 {
                let cell = grid.get(pos_x + o.0, pos_y + o.1);
                match cell {
                    LifeStates::Alife => {
                        sum = sum + 1;
                    },
                    LifeStates::Dead => {},
                }
            }
            k = k + 1;
        }
        proof {
            lemma_life_partial_full(grid@, pos_x as int, pos_y as int);
        }
        let curr_state = *grid.get(pos_x, pos_y);
        match (sum, curr_state) {
            (2..=3, LifeStates::Alife) => LifeStates::Alife,
            (3, LifeStates::Dead) => LifeStates::Alife,
            _ => LifeStates::Dead,
        }
    }

    fn toggle(curr: LifeStates) -> (r: LifeStates) {
        match curr {
            LifeStates::Dead => LifeStates::Alife,
            LifeStates::Alife => LifeStates::Dead,
        }
    }

    fn style(curr: &LifeStates) -> (r: &'static str) {
        match curr {
            LifeStates::Dead => "#1d2021",
            LifeStates::Alife => "#ebdbb2",
        }
    }
}

/// Toggling a Life cell twice returns it to its original state, for both
/// states.
pub proof fn lemma_toggle_involutive(s: LifeStates)
    ensures
        Life::toggle_spec(Life::toggle_spec(s)) == s,
{
}

/// A lazy, restartable enumerator of the radius-`RANGE` Moore stencil.
/// Successive calls of [`next`](Self::next) yield the entries of
/// [`moore_offsets`] in order, then `None`.
pub struct MooreNeighbors<const RANGE: u16> {
    curr_x: isize,
    curr_y: isize,
    done: bool,
}

impl<const RANGE: u16> MooreNeighbors<RANGE> {
    /// The stencil radius as a mathematical integer.
    pub open spec fn radius() -> int {
        RANGE as int
    }

    /// How many offsets the enumerator yields in total.
    pub open spec fn total() -> int {
        (2 * Self::radius() + 1) * (2 * Self::radius() + 1)
    }

    /// The cursor is either finished or within the stencil square.
    pub closed spec fn wf(self) -> bool {
        self.done || (-Self::radius() <= self.curr_x as int <= Self::radius()
            && -Self::radius() <= self.curr_y as int <= Self::radius())
    }

    /// How many offsets have been yielded so far.
    pub closed spec fn pos(self) -> int {
        if self.done {
            Self::total()
        } else {
            (self.curr_y as int + Self::radius()) * (2 * Self::radius() + 1) + self.curr_x as int
                + Self::radius()
        }
    }

    /// A fresh enumerator, positioned before the first offset `(-R, -R)`.
    pub fn new() -> (it: Self)
        ensures
            it.wf(),
            it.pos() == 0,
    {
        let min = -(RANGE as isize);
        let it = MooreNeighbors { curr_x: min, curr_y: min, done: false };
        proof {
            let r = Self::radius();
            assert((-r + r) * (2 * r + 1) == 0) by (nonlinear_arith);
        }
        it
    }

    /// Yields the next offset of the stencil, or `None` once all
    /// `(2 * RANGE + 1)^2` offsets are out.
    pub fn next(&mut self) -> (ret: Option<(isize, isize)>)
        requires
            old(self).wf(),
        ensures
            final(self).wf(),
            old(self).pos() < Self::total() ==> (ret matches Some(p) && (p.0 as int, p.1 as int)
                == moore_offsets(Self::radius())[old(self).pos()] && final(self).pos() == old(
                self,
            ).pos() + 1),
            old(self).pos() >= Self::total() ==> ret is None && final(self).pos() == old(
                self,
            ).pos(),
    {
        let range = RANGE as isize;
        proof {
            let r = Self::radius();
            let d = 2 * r + 1;
            if !self.done {
                let q = self.curr_y as int + r;
                let rr = self.curr_x as int + r;
                lemma_fundamental_div_mod_converse_mod(self.pos(), d, q, rr);
                lemma_fundamental_div_mod_converse_div(self.pos(), d, q, rr);
                assert(0 <= self.pos() < d * d) by (nonlinear_arith)
                    requires
                        self.pos() == q * d + rr,
                        0 <= q < d,
                        0 <= rr < d,
                ;
            }
        }
        if self.done {
            None
        } else if self.curr_x == range && self.curr_y == range {
            // Last offset (R, R).
            self.done = true;
            proof {
                let r = Self::radius();
                let d = 2 * r + 1;
                assert((r + r) * d + r + r + 1 == d * d) by (nonlinear_arith)
                    requires
                        d == 2 * r + 1,
                ;
            }
            Some((self.curr_x, self.curr_y))
        } else if self.curr_x == range {
            // End of a row: wrap to the start of the next one.
            let ret = (self.curr_x, self.curr_y);
            self.curr_x = -range;
            self.curr_y = self.curr_y + 1;
            proof {
                let r = Self::radius();
                let d = 2 * r + 1;
                let q = old(self).curr_y as int + r;
                assert((q + 1) * d == q * d + d) by (nonlinear_arith);
            }
            Some(ret)
        } else {
            // Step one column to the right.
            let ret = (self.curr_x, self.curr_y);
            self.curr_x = self.curr_x + 1;
            Some(ret)
        }
    }
}

} // verus!
