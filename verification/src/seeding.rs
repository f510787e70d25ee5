//! Seeding a fresh field: the steady state everywhere, a square of seeded
//! cells in the centre and, on request, pseudo-random ink blots.

use vstd::prelude::*;
use crate::grid::{dimension_error, Cell, Grid, GridError};
use crate::rng::{nth_output, state_after, xorshift, SimpleRng};
use crate::torus::{lemma_position_slot, lemma_slot_in_range, lemma_slot_position};

verus! {

/// The uniform steady state: activator at its maximum, no inhibitor.
pub open spec fn steady_cell<S>(zero: S, one: S) -> Cell<S> {
    Cell { a: one, b: zero }
}

/// A seeded cell: inhibitor at its maximum, no activator.
pub open spec fn seeded_cell<S>(zero: S, one: S) -> Cell<S> {
    Cell { a: zero, b: one }
}

/// Whether `(x, y)` lies in the square of the given side whose corner of
/// least coordinates is `(x0, y0)`.
pub open spec fn in_square(x0: int, y0: int, side: int, x: int, y: int) -> bool {
    x0 <= x < x0 + side && y0 <= y < y0 + side
}

/// Whether the row-major slot `i` of a grid `width` wide lies in that square.
pub open spec fn slot_in_square(width: int, x0: int, y0: int, side: int, i: int) -> bool {
    in_square(x0, y0, side, i % width, i / width)
}

/// Side of the central seed: a tenth of the shorter dimension, at least 1.
pub open spec fn seed_side(width: int, height: int) -> int {
    let shorter = if width <= height { width } else { height };
    if shorter / 10 >= 1 { shorter / 10 } else { 1 }
}

/// Whether `(x, y)` lies in the central seed of a `width` by `height` grid.
pub open spec fn in_center_seed(width: int, height: int, x: int, y: int) -> bool {
    let side = seed_side(width, height);
    in_square(width / 2 - side / 2, height / 2 - side / 2, side, x, y)
}

/// The buffer of a freshly built grid: the steady state everywhere but in
/// the central seed.
pub open spec fn fresh_cells<S>(width: int, height: int, zero: S, one: S) -> Seq<Cell<S>> {
    Seq::new(
        (width * height) as nat,
        |i: int|
            if in_center_seed(width, height, i % width, i / width) {
                seeded_cell(zero, one)
            } else {
                steady_cell(zero, one)
            },
    )
}

/// Number of ink blots that random seeding adds to the central seed.
pub const BLOT_COUNT: usize = 5;

/// Column of the corner of the blot number `k` that `seed` gives.
pub open spec fn blot_x(width: int, seed: u64, k: nat) -> int {
    (nth_output(seed, 3 * k) as int) % width
}

/// Row of the corner of the blot number `k` that `seed` gives.
pub open spec fn blot_y(height: int, seed: u64, k: nat) -> int {
    (nth_output(seed, 3 * k + 1) as int) % height
}

/// Side of the blot number `k` that `seed` gives: between 3 and 10.
pub open spec fn blot_side(seed: u64, k: nat) -> int {
    3 + (nth_output(seed, 3 * k + 2) as int) % 8
}

/// Whether `(x, y)` lies in one of the first `count` blots that `seed` gives
/// on a `width` by `height` grid.
pub open spec fn in_blots(width: int, height: int, seed: u64, count: nat, x: int, y: int) -> bool
    decreases count,
{
    if count == 0 {
        false
    } else {
        let k = (count - 1) as nat;
        in_blots(width, height, seed, k, x, y) || in_square(
            blot_x(width, seed, k),
            blot_y(height, seed, k),
            blot_side(seed, k),
            x,
            y,
        )
    }
}

/// The buffer of a grid with the central seed and the first `count` blots
/// that `seed` gives.
pub open spec fn blotted_cells<S>(
    width: int,
    height: int,
    seed: u64,
    count: nat,
    zero: S,
    one: S,
) -> Seq<Cell<S>> {
    Seq::new(
        (width * height) as nat,
        |i: int|
            if in_center_seed(width, height, i % width, i / width) || in_blots(
                width,
                height,
                seed,
                count,
                i % width,
                i / width,
            ) {
                seeded_cell(zero, one)
            } else {
                steady_cell(zero, one)
            },
    )
}

/// The buffer of a randomly seeded grid: the central seed and all the blots.
pub open spec fn random_cells<S>(width: int, height: int, seed: u64, zero: S, one: S) -> Seq<
    Cell<S>,
> {
    blotted_cells(width, height, seed, BLOT_COUNT as nat, zero, one)
}

/// `base` with the given square, clipped at the grid's edges, set to `value`.
pub open spec fn stamped<S>(
    base: Seq<Cell<S>>,
    width: int,
    x0: int,
    y0: int,
    side: int,
    value: Cell<S>,
) -> Seq<Cell<S>> {
    Seq::new(
        base.len(),
        |i: int| if slot_in_square(width, x0, y0, side, i) { value } else { base[i] },
    )
}

impl<S: Copy> Grid<S> {
    /// Builds a grid at the steady state `(one, zero)` with the central
    /// square seeded to `(zero, one)`.
    pub fn new(width: usize, height: usize, zero: S, one: S) -> (made: Result<Self, GridError>)
        ensures
            match made {
                Ok(grid) => {
                    &&& dimension_error(width, height) is None
                    &&& grid.wf()
                    &&& grid.width == width
                    &&& grid.height == height
                    &&& grid.cells@ == fresh_cells(width as int, height as int, zero, one)
                },
                Err(e) => dimension_error(width, height) == Some(e),
            },
    {
        if width == 0 || height == 0 {
            return Err(GridError::InvalidDimensions);
        }
        let count: usize = match width.checked_mul(height) {
            Some(n) => n,
            None => {
                return Err(GridError::TooLarge);
            },
        };
        let steady = Cell { a: one, b: zero };
        let mut cells: Vec<Cell<S>> = Vec::with_capacity(count);
        let mut filled: usize = 0;
        while filled < count
            invariant
                filled <= count,
                cells@.len() == filled,
                forall|i: int| 0 <= i < filled ==> cells@[i] == steady,
            decreases count - filled,
        {
            cells.push(steady);
            filled = filled + 1;
        }
        let mut grid = Grid { width, height, cells };
        let shorter: usize = if width <= height { width } else { height };
        let side: usize = if shorter / 10 >= 1 { shorter / 10 } else { 1 };
        grid.stamp(width / 2 - side / 2, height / 2 - side / 2, side, Cell { a: zero, b: one });
        assert(grid.cells@ =~= fresh_cells(width as int, height as int, zero, one));
        Ok(grid)
    }

    /// Builds a grid as [`Grid::new`] does, then stamps the blots that
    /// `seed` gives: each a square of seeded cells with a pseudo-random
    /// corner on the grid and a pseudo-random side between 3 and 10, cut
    /// off at the right and bottom edges.
    pub fn new_random(width: usize, height: usize, seed: u64, zero: S, one: S) -> (made: Result<
        Self,
        GridError,
    >)
        ensures
            match made {
                Ok(grid) => {
                    &&& dimension_error(width, height) is None
                    &&& grid.wf()
                    &&& grid.width == width
                    &&& grid.height == height
                    &&& grid.cells@ == random_cells(width as int, height as int, seed, zero, one)
                },
                Err(e) => dimension_error(width, height) == Some(e),
            },
    {
        let mut grid = match Self::new(width, height, zero, one) {
            Ok(grid) => grid,
            Err(e) => {
                return Err(e);
            },
        };
        let mut rng = SimpleRng::new(seed);
        assert(grid.cells@ =~= blotted_cells(width as int, height as int, seed, 0, zero, one));
        let mut k: usize = 0;
        while k < BLOT_COUNT
            invariant
                k <= BLOT_COUNT,
                grid.wf(),
                grid.width == width,
                grid.height == height,
                rng.state() == state_after(seed, 3 * (k as nat)),
                grid.cells@ == blotted_cells(
                    width as int,
                    height as int,
                    seed,
                    k as nat,
                    zero,
                    one,
                ),
            decreases BLOT_COUNT - k,
        {
            let x0: usize = rng.next_usize(width);
            let y0: usize = rng.next_usize(height);
            let extra: usize = rng.next_usize(8);
            let side: usize = 3 + extra;
            proof {
                let n = 3 * (k as nat);
                assert(state_after(seed, n + 1) == xorshift(state_after(seed, n)));
                assert(state_after(seed, n + 2) == xorshift(state_after(seed, (n + 1) as nat)));
                assert(state_after(seed, n + 3) == xorshift(state_after(seed, (n + 2) as nat)));
                assert(x0 == blot_x(width as int, seed, k as nat));
                assert(y0 == blot_y(height as int, seed, k as nat));
                assert(side == blot_side(seed, k as nat));
            }
            grid.stamp(x0, y0, side, Cell { a: zero, b: one });
            k = k + 1;
            assert(grid.cells@ =~= blotted_cells(
                width as int,
                height as int,
                seed,
                k as nat,
                zero,
                one,
            ));
        }
        Ok(grid)
    }

    /// Sets every cell of the square with corner `(x0, y0)` and the given
    /// side that lies on the grid to `value`; cells past the right or the
    /// bottom edge are left out, not wrapped.
    fn stamp(&mut self, x0: usize, y0: usize, side: usize, value: Cell<S>)
        requires
            old(self).wf(),
        ensures
            final(self).wf(),
            final(self).width == old(self).width,
            final(self).height == old(self).height,
            final(self).cells@ == stamped(
                old(self).cells@,
                old(self).width as int,
                x0 as int,
                y0 as int,
                side as int,
                value,
            ),
    {
        let width: usize = self.width;
        let height: usize = self.height;
        if x0 >= width || y0 >= height {
            assert(self.cells@ =~= stamped(
                old(self).cells@,
                width as int,
                x0 as int,
                y0 as int,
                side as int,
                value,
            )) by {
                assert forall|i: int| 0 <= i < self.cells@.len() implies !#[trigger] slot_in_square(
                    width as int,
                    x0 as int,
                    y0 as int,
                    side as int,
                    i,
                ) by {
                    lemma_position_slot(width as int, height as int, i);
                }
            }
            return ;
        }
        let x_end: usize = if side > width - x0 { width } else { x0 + side };
        let y_end: usize = if side > height - y0 { height } else { y0 + side };
        let mut y: usize = y0;
        while y < y_end
            invariant
                self.wf(),
                self.width == width,
                self.height == height,
                self.cells@.len() == old(self).cells@.len(),
                x0 < width,
                y0 <= y <= y_end <= height,
                x0 <= x_end <= width,
                x_end == if side > width - x0 { width as int } else { x0 + side },
                forall|i: int|
                    0 <= i < self.cells@.len() ==> #[trigger] self.cells@[i] == if x0 <= i % (
                    width as int) < x_end && y0 <= i / (width as int) < y {
                        value
                    } else {
                        old(self).cells@[i]
                    },
            decreases y_end - y,
        {
            let mut x: usize = x0;
            while x < x_end
                invariant
                    self.wf(),
                    self.width == width,
                    self.height == height,
                    self.cells@.len() == old(self).cells@.len(),
                    x0 <= x <= x_end <= width,
                    y0 <= y < y_end <= height,
                    forall|i: int|
                        0 <= i < self.cells@.len() ==> #[trigger] self.cells@[i] == if (x0 <= i % (
                        width as int) < x_end && y0 <= i / (width as int) < y) || (i / (
                        width as int) == y && x0 <= i % (width as int) < x) {
                            value
                        } else {
                            old(self).cells@[i]
                        },
                decreases x_end - x,
            {
                proof {
                    lemma_slot_in_range(width as int, height as int, x as int, y as int);
                    lemma_slot_position(width as int, x as int, y as int);
                }
                let j: usize = y * width + x;
                let ghost prev = self.cells@;
                self.cells[j] = value;
                proof {
                    assert forall|i: int| 0 <= i < self.cells@.len() && i != j implies #[trigger] self.cells@[i]
                        == prev[i] && !(i / (width as int) == y && i % (width as int) == x) by {
                        lemma_position_slot(width as int, height as int, i);
                    }
                }
                x = x + 1;
            }
            y = y + 1;
        }
        assert(self.cells@ =~= stamped(
            old(self).cells@,
            width as int,
            x0 as int,
            y0 as int,
            side as int,
            value,
        )) by {
            assert forall|i: int| 0 <= i < self.cells@.len() implies (#[trigger] slot_in_square(
                width as int,
                x0 as int,
                y0 as int,
                side as int,
                i,
            ) <==> (x0 <= i % (width as int) < x_end && y0 <= i / (width as int) < y_end)) by {
                lemma_position_slot(width as int, height as int, i);
            }
        }
    }
}

/// The cell in the middle of the grid is always part of the central seed,
/// so no freshly built grid is uniform unless it is a single cell.
pub proof fn lemma_center_is_seeded(width: int, height: int)
    requires
        width > 0,
        height > 0,
    ensures
        in_center_seed(width, height, width / 2, height / 2),
{
}

/// On a grid at least two cells wide the central seed stays clear of the
/// first column, so the corner `(0, 0)` starts at the steady state.
pub proof fn lemma_first_column_is_steady(width: int, height: int, y: int)
    requires
        width >= 2,
        height > 0,
    ensures
        !in_center_seed(width, height, 0, y),
{
}

/// A freshly built grid holds no cell but the steady and the seeded one,
/// with or without blots.
pub proof fn lemma_seeding_two_valued<S>(
    width: int,
    height: int,
    seed: u64,
    zero: S,
    one: S,
    i: int,
)
    requires
        0 <= i < width * height,
    ensures
        fresh_cells(width, height, zero, one)[i] == steady_cell(zero, one) || fresh_cells(
            width,
            height,
            zero,
            one,
        )[i] == seeded_cell(zero, one),
        random_cells(width, height, seed, zero, one)[i] == steady_cell(zero, one) || random_cells(
            width,
            height,
            seed,
            zero,
            one,
        )[i] == seeded_cell(zero, one),
{
}

/// Blots only add seeded cells: what the plain seeding seeds, the random
/// seeding seeds too, whatever the seed.
pub proof fn lemma_blots_keep_center<S>(
    width: int,
    height: int,
    seed: u64,
    zero: S,
    one: S,
    i: int,
)
    requires
        0 <= i < width * height,
        fresh_cells(width, height, zero, one)[i] == seeded_cell(zero, one),
        steady_cell(zero, one) != seeded_cell(zero, one),
    ensures
        random_cells(width, height, seed, zero, one)[i] == seeded_cell(zero, one),
{
}

/// Every blot has its corner on the grid and a side between 3 and 10.
pub proof fn lemma_blot_bounds(width: int, height: int, seed: u64, k: nat)
    requires
        width > 0,
        height > 0,
    ensures
        0 <= blot_x(width, seed, k) < width,
        0 <= blot_y(height, seed, k) < height,
        3 <= blot_side(seed, k) <= 10,
{
}

} // verus!
