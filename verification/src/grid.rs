//! The concentration field: a rectangular, row-major, toroidal grid of
//! two-chemical cells, generic in the scalar that measures a concentration.

use vstd::prelude::*;
use crate::torus::{
    lemma_slot_in_range, lemma_wrap_identity, lemma_wrap_periodic, slot, wrap, wrap_coord,
};

verus! {

/// One grid cell: the concentrations of the two chemicals.
#[derive(Debug, Clone, Copy)]
pub struct Cell<S> {
    /// Activator concentration.
    pub a: S,
    /// Inhibitor concentration.
    pub b: S,
}

/// Why a grid could not be built.
#[derive(Debug, Clone, Copy, PartialEq, Eq, Structural)]
pub enum GridError {
    /// The width or the height is zero.
    InvalidDimensions,
    /// The number of cells does not fit the machine's address range.
    TooLarge,
}

/// A `width` by `height` field of cells in row-major order.
#[derive(Debug, Clone)]
pub struct Grid<S> {
    pub width: usize,
    pub height: usize,
    pub cells: Vec<Cell<S>>,
}

/// The reason, if any, for which no grid of the given dimensions is built.
pub open spec fn dimension_error(width: usize, height: usize) -> Option<GridError> {
    if width == 0 || height == 0 {
        Some(GridError::InvalidDimensions)
    } else if width * height > usize::MAX {
        Some(GridError::TooLarge)
    } else {
        None
    }
}

/// The cell of a row-major buffer that the coordinates `(x, y)` name on a
/// `width` by `height` torus, for any integers.
pub open spec fn cell_at<S>(cells: Seq<Cell<S>>, width: int, height: int, x: int, y: int) -> Cell<
    S,
> {
    cells[slot(width, wrap(x, width), wrap(y, height))]
}

impl<S: Copy> Grid<S> {
    /// Positive dimensions, and one cell for each position.
    pub open spec fn wf(&self) -> bool {
        &&& self.width > 0
        &&& self.height > 0
        &&& self.cells.len() == self.width * self.height
    }

    /// The cell that the coordinates `(x, y)` name, for any integers: each
    /// axis wraps around.
    pub open spec fn at(&self, x: int, y: int) -> Cell<S> {
        cell_at(self.cells@, self.width as int, self.height as int, x, y)
    }

    /// The cell at `(x, y)`, with wrap-around on both axes.
    pub fn get(&self, x: isize, y: isize) -> (cell: Cell<S>)
        requires
            self.wf(),
        ensures
            cell == self.at(x as int, y as int),
    {
        let wx: usize = wrap_coord(x, self.width);
        let wy: usize = wrap_coord(y, self.height);
        proof {
            lemma_slot_in_range(self.width as int, self.height as int, wx as int, wy as int);
        }
        self.cells[wy * self.width + wx]
    }
}

/// Addressing is periodic in both axes: coordinates that differ by whole
/// multiples of the width and of the height name the same cell. So the
/// column before the first is the last one, and the row before the first
/// is the last one.
pub proof fn lemma_addressing_periodic<S>(
    cells: Seq<Cell<S>>,
    width: int,
    height: int,
    x: int,
    y: int,
    turns_x: int,
    turns_y: int,
)
    requires
        width > 0,
        height > 0,
    ensures
        cell_at(cells, width, height, x + turns_x * width, y + turns_y * height) == cell_at(
            cells,
            width,
            height,
            x,
            y,
        ),
        cell_at(cells, width, height, -1, y) == cell_at(cells, width, height, width - 1, y),
        cell_at(cells, width, height, x, -1) == cell_at(cells, width, height, x, height - 1),
{
    lemma_wrap_periodic(x, turns_x, width);
    lemma_wrap_periodic(y, turns_y, height);
    lemma_wrap_periodic(-1, 1, width);
    lemma_wrap_periodic(-1, 1, height);
}

/// Inside the grid, addressing by coordinates is row-major indexing.
pub proof fn lemma_addressing_inside<S>(cells: Seq<Cell<S>>, width: int, height: int, x: int, y: int)
    requires
        0 <= x < width,
        0 <= y < height,
    ensures
        cell_at(cells, width, height, x, y) == cells[y * width + x],
{
    lemma_wrap_identity(x, width);
    lemma_wrap_identity(y, height);
}

} // verus!
