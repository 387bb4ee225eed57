//! From a flat pixel index to a cell of the grid.

use vstd::prelude::*;

verus! {

/// A cell of a `width` by `height` grid.
///
/// The row is counted in steps of `height` and the column in steps of
/// `width`, so the two agree with row-major order exactly on square grids.
#[derive(Clone, Copy, Debug, PartialEq, Eq, Structural)]
pub struct RowCol {
    pub width: u32,
    pub height: u32,
    pub row: u32,
    pub col: u32,
}

impl RowCol {
    /// The cell of `index`: its row is `index / height`, its column `index % width`.
    pub open spec fn at(index: u32, width: u32, height: u32) -> RowCol
        recommends
            width > 0,
            height > 0,
    {
        RowCol {
            width,
            height,
            row: (index as int / height as int) as u32,
            col: (index as int % width as int) as u32,
        }
    }

    /// The position of this cell in row-major order.
    pub open spec fn flat_index(self) -> int {
        self.row as int * self.width as int + self.col as int
    }

    /// Whether the cell lies inside its grid.
    pub open spec fn in_grid(self) -> bool {
        self.row < self.height && self.col < self.width
    }

    /// Maps a flat pixel index to its cell.
    pub fn from_index(index: u32, width: &u32, height: &u32) -> (cell: RowCol)
        requires
            *width > 0,
            *height > 0,
        ensures
            cell == RowCol::at(index, *width, *height),
            cell.width == *width,
            cell.height == *height,
            cell.row as int == index as int / *height as int,
            cell.col as int == index as int % *width as int,
            cell.col < *width,
            cell.row <= index,
    {
        RowCol { width: *width, height: *height, row: index / *height, col: index % *width }
    }
}

/// On a square grid every index below `side * side` lands inside the grid,
/// and at the place that row-major order gives it.
pub proof fn lemma_square_grid_is_row_major(index: u32, side: u32)
    requires
        side > 0,
        (index as int) < side as int * side as int,
    ensures
        RowCol::at(index, side, side).in_grid(),
        RowCol::at(index, side, side).flat_index() == index as int,
{
    let i = index as int;
    let s = side as int;
    assert(i == s * (i / s) + i % s && 0 <= i % s < s) by (nonlinear_arith)
        requires
            s > 0,
            i >= 0,
    ;
    assert(i / s < s) by (nonlinear_arith)
        requires
            s > 0,
            0 <= i < s * s,
    ;
    assert(0 <= i / s) by (nonlinear_arith)
        requires
            s > 0,
            i >= 0,
    ;
    assert((i / s) * s == s * (i / s)) by (nonlinear_arith);
}

/// On a square grid two different indices never share a cell.
pub proof fn lemma_square_grid_cells_are_distinct(first: u32, second: u32, side: u32)
    requires
        side > 0,
        (first as int) < side as int * side as int,
        (second as int) < side as int * side as int,
        RowCol::at(first, side, side) == RowCol::at(second, side, side),
    ensures
        first == second,
{
    lemma_square_grid_is_row_major(first, side);
    lemma_square_grid_is_row_major(second, side);
}

} // verus!
