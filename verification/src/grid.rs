//! Tile codes and the mathematical model of the tile grid.
//!
//! A grid is modelled as a sequence of rows, each row a sequence of tile
//! codes. Coordinates in this module are mathematical integers, so a cell
//! outside the grid is an ordinary thing to ask about: it reads as empty.

use vstd::prelude::*;

verus! {

/// Code of an empty cell.
pub const TILE_EMPTY: u8 = 0;

/// Code of a wall: it stops the player and swallows bullets.
pub const TILE_WALL: u8 = 1;

/// Code of a destructible target: it stops the player until a bullet clears it.
pub const TILE_TARGET: u8 = 2;

/// The largest number of rows, and of columns, that a grid may have. Rows and
/// columns are addressed by one byte each.
pub const MAX_DIM: usize = 256;

/// Number of columns of the viewport.
pub const VISIBLE_WIDTH: usize = 8;

/// Number of rows of the viewport.
pub const VISIBLE_HEIGHT: usize = 4;

/// Number of rows.
pub open spec fn height(grid: Seq<Seq<u8>>) -> int {
    grid.len() as int
}

/// Number of columns: the length of the first row, and 0 where there is no row.
pub open spec fn width(grid: Seq<Seq<u8>>) -> int {
    if grid.len() == 0 {
        0
    } else {
        grid[0].len() as int
    }
}

/// Every row is as long as the first one.
pub open spec fn rectangular(grid: Seq<Seq<u8>>) -> bool {
    forall|r: int| 0 <= r < grid.len() ==> (#[trigger] grid[r]).len() == width(grid)
}

/// Every cell holds one of the three tile codes.
pub open spec fn codes_known(grid: Seq<Seq<u8>>) -> bool {
    forall|r: int, c: int|
        0 <= r < grid.len() && 0 <= c < grid[r].len() ==> #[trigger] grid[r][c] <= TILE_TARGET
}

/// The cell `(row, col)` lies inside the grid.
pub open spec fn in_bounds(grid: Seq<Seq<u8>>, row: int, col: int) -> bool {
    0 <= row < height(grid) && 0 <= col < width(grid)
}

/// The code at `(row, col)`, where a cell outside the grid reads as empty.
pub open spec fn tile_at(grid: Seq<Seq<u8>>, row: int, col: int) -> u8 {
    if in_bounds(grid, row, col) {
        grid[row][col]
    } else {
        TILE_EMPTY
    }
}

/// A player standing on `(row, col)` has hit something: the cell lies inside
/// the grid and is not empty.
pub open spec fn collides(grid: Seq<Seq<u8>>, row: int, col: int) -> bool {
    tile_at(grid, row, col) > TILE_EMPTY
}

/// The grid with the cell `(row, col)` set to `value`.
pub open spec fn with_tile(grid: Seq<Seq<u8>>, row: int, col: int, value: u8) -> Seq<Seq<u8>> {
    grid.update(row, grid[row].update(col, value))
}

/// The viewport whose left column is `left`: `VISIBLE_HEIGHT` rows of
/// `VISIBLE_WIDTH` cells, row after row, starting at row 0. Cells outside the
/// grid read as empty.
pub open spec fn window(grid: Seq<Seq<u8>>, left: int) -> Seq<u8> {
    Seq::new(
        (VISIBLE_WIDTH * VISIBLE_HEIGHT) as nat,
        |k: int| tile_at(grid, k / (VISIBLE_WIDTH as int), left + k % (VISIBLE_WIDTH as int)),
    )
}

/// `cells` holds the rows of `grid` one after the other.
pub open spec fn is_row_major(grid: Seq<Seq<u8>>, cells: Seq<u8>) -> bool {
    &&& cells.len() == height(grid) * width(grid)
    &&& forall|r: int, c: int|
        in_bounds(grid, r, c) ==> cells[r * width(grid) + c] == #[trigger] grid[r][c]
}

/// The rows that a vector of vectors holds.
pub open spec fn grid_of(rows: Seq<Vec<u8>>) -> Seq<Seq<u8>> {
    Seq::new(rows.len(), |r: int| rows[r]@)
}

/// The place of the cell `(r, c)` in a row-major listing of rows of `w`
/// cells lies before the end of row `r`, and so before every cell of a later
/// row.
pub proof fn lemma_cell_index(r: int, c: int, rows: int, w: int)
    requires
        0 <= r < rows,
        0 <= c < w,
    ensures
        0 <= r * w + c < (r + 1) * w <= rows * w,
        (r + 1) * w == r * w + w,
{
    assert((r + 1) * w == r * w + w) by (nonlinear_arith);
    assert(0 <= r * w) by (nonlinear_arith)
        requires
            0 <= r,
            0 <= w,
    ;
    assert((r + 1) * w <= rows * w) by (nonlinear_arith)
        requires
            r + 1 <= rows,
            0 <= w,
    ;
}

} // verus!
