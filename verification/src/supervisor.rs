//! The supervisor: owns the front and back generation buffers and runs one
//! synchronous generation step at a time, so that every cell's update reads
//! a single consistent prior generation.

use crate::automaton::{Automaton, Grid, GridView};
use vstd::arithmetic::div_mod::{
    lemma_fundamental_div_mod_converse_div, lemma_fundamental_div_mod_converse_mod,
    lemma_mod_division_less_than_divisor, lemma_small_mod,
};
use vstd::prelude::*;

verus! {

/// The grid after one generation step: every cell is the automaton's
/// update rule applied, at that cell's own coordinates, to the previous
/// generation as one consistent snapshot.
pub open spec fn step_view<A: Automaton>(g: GridView<A::State>) -> GridView<A::State> {
    GridView {
        width: g.width,
        height: g.height,
        cells: Seq::new(
            g.cells.len(),
            |i: int| A::next_spec((i % (g.width as int), i / (g.width as int)), g),
        ),
    }
}

/// Two consecutive steps update every cell twice from the originally
/// observed generation: each cell of the second result is the rule applied
/// to the intermediate generation, each cell of which is in turn the rule
/// applied to the original one. A step never reads a cell that the same
/// step has already updated.
pub proof fn lemma_double_step<A: Automaton>(g: GridView<A::State>)
    requires
        g.wf(),
    ensures
        forall|i: int|
            0 <= i < g.cells.len() ==> (#[trigger] step_view::<A>(step_view::<A>(g)).cells[i])
                == A::next_spec(
                (i % (g.width as int), i / (g.width as int)),
                step_view::<A>(g),
            ),
        forall|i: int|
            0 <= i < g.cells.len() ==> (#[trigger] step_view::<A>(g).cells[i]) == A::next_spec(
                (i % (g.width as int), i / (g.width as int)),
                g,
            ),
{
}

/// Drives an automaton on two grids of equal, fixed size: `front_buf`
/// holds the last committed generation (what is drawn and what manual
/// edits touch), `swap_buf` is the scratch target for the generation being
/// computed; a step swaps their roles and then overwrites the new front
/// completely.
pub struct Supervisor<A: Automaton> {
    front_buf: Grid<A::State>,
    swap_buf: Grid<A::State>,
}

impl<A: Automaton> Supervisor<A> {
    /// The last committed generation.
    pub closed spec fn front(self) -> GridView<A::State> {
        self.front_buf@
    }

    /// The stale scratch buffer.
    pub closed spec fn back(self) -> GridView<A::State> {
        self.swap_buf@
    }

    /// Both buffers are well-formed, share one size, and each coordinate
    /// fits a signed machine integer.
    pub open spec fn wf(self) -> bool {
        &&& self.front().wf()
        &&& self.back().wf()
        &&& self.front().width == self.back().width
        &&& self.front().height == self.back().height
        &&& self.front().width <= isize::MAX
        &&& self.front().height <= isize::MAX
    }

    /// Allocates both buffers at the given fixed size with every cell
    /// defaulted. Zero dimensions are rejected here, at construction.
    pub fn new(width: usize, height: usize) -> (s: Self)
        requires
            0 < width,
            0 < height,
            width * height <= usize::MAX,
            width <= isize::MAX,
            height <= isize::MAX,
        ensures
            s.wf(),
            s.front().width == width,
            s.front().height == height,
            forall|i: int|
                0 <= i < s.front().cells.len() ==> call_ensures(
                    A::State::default,
                    (),
                    #[trigger] s.front().cells[i],
                ),
            forall|i: int|
                0 <= i < s.back().cells.len() ==> call_ensures(
                    A::State::default,
                    (),
                    #[trigger] s.back().cells[i],
                ),
    {
        Supervisor { front_buf: Grid::generate(width, height), swap_buf: Grid::generate(width, height) }
    }

    /// Runs one generation step: the roles of the buffers swap, so the old
    /// front becomes the read-only source, and every cell of the new front
    /// is the automaton's rule applied to that source. The source is one
    /// consistent snapshot — no cell's update can observe a cell already
    /// updated during the same step.
    pub fn update(&mut self)
        requires
            old(self).wf(),
        ensures
            final(self).wf(),
            final(self).front() == step_view::<A>(old(self).front()),
            final(self).back() == old(self).front(),
    {
        core::mem::swap(&mut self.front_buf, &mut self.swap_buf);
        let ghost src = self.swap_buf@;
        let ghost stepped = step_view::<A>(src);
        let w = self.front_buf.width();
        let h = self.front_buf.height();
        let mut x: usize = 0;
        while x < w
            invariant
                self.swap_buf@ == src,
                src.wf(),
                w == src.width,
                h == src.height,
                w <= isize::MAX,
                h <= isize::MAX,
                self.front_buf@.wf(),
                self.front_buf@.width == src.width,
                self.front_buf@.height == src.height,
                stepped == step_view::<A>(src),
                x <= w,
                forall|i: int|
                    0 <= i < src.cells.len() && i % (w as int) < x as int
                        ==> (#[trigger] self.front_buf@.cells[i]) == stepped.cells[i],
            decreases w - x,
        {
            let mut y: usize = 0;
            while y < h
                invariant
                    self.swap_buf@ == src,
                    src.wf(),
                    w == src.width,
                    h == src.height,
                    w <= isize::MAX,
                    h <= isize::MAX,
                    self.front_buf@.wf(),
                    self.front_buf@.width == src.width,
                    self.front_buf@.height == src.height,
                    stepped == step_view::<A>(src),
                    x < w,
                    y <= h,
                    forall|i: int|
                        0 <= i < src.cells.len() && i % (w as int) < x as int
                            ==> (#[trigger] self.front_buf@.cells[i]) == stepped.cells[i],
                    forall|i: int|
                        0 <= i < src.cells.len() && i % (w as int) == x as int && i / (w as int)
                            < y as int ==> (#[trigger] self.front_buf@.cells[i])
                            == stepped.cells[i],
                decreases h - y,
            {
                proof {
                    A::pos_ok_in_grid((x as int, y as int));
                }
                let s = A::update((x as isize, y as isize), &self.swap_buf);
                self.front_buf.set(x as isize, y as isize, s);
                proof {
                    let wi = w as int;
                    let hi = h as int;
                    lemma_small_mod(x as nat, w as nat);
                    lemma_small_mod(y as nat, h as nat);
                    let idx = x as int + (y as int) * wi;
                    lemma_fundamental_div_mod_converse_mod(idx, wi, y as int, x as int);
                    lemma_fundamental_div_mod_converse_div(idx, wi, y as int, x as int);
                    assert(0 <= idx < wi * hi) by (nonlinear_arith)
                        requires
                            idx == x as int + (y as int) * wi,
                            0 <= (x as int) < wi,
                            0 <= (y as int) < hi,
                    ;
                    assert forall|i: int|
                        0 <= i < src.cells.len() && i % wi == x as int && i / wi < y as int
                            + 1 implies (#[trigger] self.front_buf@.cells[i])
                        == stepped.cells[i] by {
                        vstd::arithmetic::div_mod::lemma_fundamental_div_mod(i, wi);
                        vstd::arithmetic::mul::lemma_mul_is_commutative(wi, i / wi);
                    }
                }
                y = y + 1;
            }
            proof {
                assert forall|i: int|
                    0 <= i < src.cells.len() && i % (w as int) < x as int + 1 implies (
                #[trigger] self.front_buf@.cells[i]) == stepped.cells[i] by {
                    lemma_mod_division_less_than_divisor(i, w as int);
                    if i % (w as int) == x as int {
                        vstd::arithmetic::div_mod::lemma_fundamental_div_mod(i, w as int);
                        assert(i / (w as int) < h as int) by (nonlinear_arith)
                            requires
                                i == (w as int) * (i / (w as int)) + i % (w as int),
                                0 <= i % (w as int) < w as int,
                                0 <= i < (w as int) * (h as int),
                                0 < w as int,
                        ;
                        assert(0 <= i / (w as int)) by (nonlinear_arith)
                            requires
                                i == (w as int) * (i / (w as int)) + i % (w as int),
                                0 <= i % (w as int) < w as int,
                                0 <= i,
                                0 < w as int,
                        ;
                    }
                }
            }
            x = x + 1;
        }
        proof {
            assert forall|i: int| 0 <= i < src.cells.len() implies (
            #[trigger] self.front_buf@.cells[i]) == stepped.cells[i] by {
                lemma_mod_division_less_than_divisor(i, w as int);
            }
            assert(self.front_buf@.cells =~= stepped.cells);
            assert(self.front_buf@ =~= stepped);
        }
    }

    /// Applies the automaton's manual-edit rule to the cell of the
    /// displayed generation that `(x, y)` resolves to; the scratch buffer
    /// is untouched. Any integers are legal input.
    pub fn toggle(&mut self, x: isize, y: isize)
        requires
            old(self).wf(),
        ensures
            final(self).wf(),
            final(self).front().width == old(self).front().width,
            final(self).front().height == old(self).front().height,
            final(self).front().cells == old(self).front().cells.update(
                old(self).front().index_of(x as int, y as int),
                A::toggle_spec(old(self).front().cell_at(x as int, y as int)),
            ),
            final(self).back() == old(self).back(),
    {
        let old_state = *self.front_buf.get(x, y);
        let new_state = A::toggle(old_state);
        self.front_buf.set(x, y, new_state);
    }

    /// Reads the cell of the displayed generation that `(x, y)` resolves
    /// to, with the grid's wrap-around. Any integers are legal input.
    pub fn get(&self, x: isize, y: isize) -> (r: A::State)
        requires
            self.wf(),
        ensures
            r == self.front().cell_at(x as int, y as int),
    {
        *self.front_buf.get(x, y)
    }

    /// The fixed number of columns.
    pub fn width(&self) -> (w: usize)
        ensures
            w == self.front().width,
    {
        self.front_buf.width()
    }

    /// The fixed number of rows.
    pub fn height(&self) -> (h: usize)
        ensures
            h == self.front().height,
    {
        self.front_buf.height()
    }
}

} // verus!
