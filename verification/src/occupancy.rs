//! The mathematical model of an occupancy grid, and the laws that follow from
//! its row-major layout.

use vstd::prelude::*;
use vstd::arithmetic::div_mod::lemma_fundamental_div_mod;
use vstd::arithmetic::div_mod::lemma_fundamental_div_mod_converse;

verus! {

/// A rectangular field of cells, each either occupied or free.
///
/// Cells are numbered row by row: the cell in column `x` of row `y` has the
/// linear index `y * width + x`, and `occupied` holds the linear indices of the
/// occupied cells.
#[verifier::ext_equal]
pub struct OccupancyGrid {
    pub width: nat,
    pub height: nat,
    pub occupied: Set<int>,
}

impl OccupancyGrid {
    /// The grid of the given size with every cell free.
    pub open spec fn empty(width: nat, height: nat) -> OccupancyGrid {
        OccupancyGrid { width, height, occupied: Set::empty() }
    }

    /// The number of cells.
    pub open spec fn cell_count(self) -> nat {
        self.width * self.height
    }

    /// Whether `(x, y)` names a cell of the grid.
    pub open spec fn in_bounds(self, x: int, y: int) -> bool {
        0 <= x < self.width && 0 <= y < self.height
    }

    /// Whether `idx` is the linear index of a cell of the grid.
    pub open spec fn valid_index(self, idx: int) -> bool {
        0 <= idx < self.cell_count()
    }

    /// The linear index of the cell in column `x` of row `y`.
    pub open spec fn index_of(self, x: int, y: int) -> int {
        y * self.width + x
    }

    /// The column and row of the cell with linear index `idx`.
    pub open spec fn position_of(self, idx: int) -> (int, int) {
        (idx % (self.width as int), idx / (self.width as int))
    }

    /// Whether the cell at `(x, y)` is occupied.
    pub open spec fn is_set(self, x: int, y: int) -> bool {
        self.occupied.contains(self.index_of(x, y))
    }

    /// The grid with the cell at `(x, y)` occupied and every other cell as before.
    pub open spec fn set(self, x: int, y: int) -> OccupancyGrid {
        OccupancyGrid { occupied: self.occupied.insert(self.index_of(x, y)), ..self }
    }

    /// The grid with the cell at `(x, y)` free and every other cell as before.
    pub open spec fn unset(self, x: int, y: int) -> OccupancyGrid {
        OccupancyGrid { occupied: self.occupied.remove(self.index_of(x, y)), ..self }
    }

    /// The grid of the same size with every cell free.
    pub open spec fn clear(self) -> OccupancyGrid {
        OccupancyGrid::empty(self.width, self.height)
    }

    /// Only cells of the grid are recorded as occupied.
    pub open spec fn well_formed(self) -> bool {
        forall|idx: int| self.occupied.contains(idx) ==> self.valid_index(idx)
    }
}

/// The linear index of an in-bounds coordinate is a valid index.
pub proof fn lemma_index_of_is_valid(grid: OccupancyGrid, x: int, y: int)
    requires
        grid.in_bounds(x, y),
    ensures
        grid.valid_index(grid.index_of(x, y)),
{
    let w = grid.width as int;
    let h = grid.height as int;
    assert(0 <= y * w + x < w * h) by (nonlinear_arith)
        requires
            0 <= x < w,
            0 <= y < h,
    ;
}

/// The coordinate of a valid index lies within the grid.
pub proof fn lemma_position_of_is_in_bounds(grid: OccupancyGrid, idx: int)
    requires
        grid.valid_index(idx),
    ensures
        grid.in_bounds(grid.position_of(idx).0, grid.position_of(idx).1),
{
    let w = grid.width as int;
    let h = grid.height as int;
    assert(w > 0 && 0 <= idx % w < w && 0 <= idx / w < h) by (nonlinear_arith)
        requires
            0 <= idx < w * h,
            0 <= w,
            0 <= h,
    ;
}

/// Converting a valid linear index to its coordinate and back gives the index
/// again.
pub proof fn lemma_index_of_position_of(grid: OccupancyGrid, idx: int)
    requires
        grid.valid_index(idx),
    ensures
        grid.index_of(grid.position_of(idx).0, grid.position_of(idx).1) == idx,
{
    let w = grid.width as int;
    lemma_position_of_is_in_bounds(grid, idx);
    lemma_fundamental_div_mod(idx, w);
    assert(w * (idx / w) == (idx / w) * w) by (nonlinear_arith);
}

/// Converting an in-bounds coordinate to its linear index and back gives the
/// coordinate again.
pub proof fn lemma_position_of_index_of(grid: OccupancyGrid, x: int, y: int)
    requires
        grid.in_bounds(x, y),
    ensures
        grid.position_of(grid.index_of(x, y)) == (x, y),
{
    let w = grid.width as int;
    lemma_fundamental_div_mod_converse(y * w + x, w, y, x);
}

/// Two in-bounds coordinates share a linear index only if they are the same
/// coordinate.
pub proof fn lemma_index_of_is_injective(grid: OccupancyGrid, x1: int, y1: int, x2: int, y2: int)
    requires
        grid.in_bounds(x1, y1),
        grid.in_bounds(x2, y2),
        grid.index_of(x1, y1) == grid.index_of(x2, y2),
    ensures
        x1 == x2,
        y1 == y2,
{
    lemma_position_of_index_of(grid, x1, y1);
    lemma_position_of_index_of(grid, x2, y2);
}

/// No cell of a freshly made grid is occupied.
pub proof fn lemma_empty_grid_has_no_occupied_cell(width: nat, height: nat, x: int, y: int)
    ensures
        !OccupancyGrid::empty(width, height).is_set(x, y),
{
}

/// A cell reads as occupied once it has been set, and as free once it has been
/// unset after that.
pub proof fn lemma_set_then_unset(grid: OccupancyGrid, x: int, y: int)
    ensures
        grid.set(x, y).is_set(x, y),
        !grid.set(x, y).unset(x, y).is_set(x, y),
        !grid.unset(x, y).is_set(x, y),
{
}

/// Setting a cell that is occupied already, or unsetting one that is free
/// already, changes nothing.
pub proof fn lemma_set_and_unset_are_idempotent(grid: OccupancyGrid, x: int, y: int)
    ensures
        grid.is_set(x, y) ==> grid.set(x, y) == grid,
        !grid.is_set(x, y) ==> grid.unset(x, y) == grid,
        grid.set(x, y).set(x, y) == grid.set(x, y),
        grid.unset(x, y).unset(x, y) == grid.unset(x, y),
{
    assert(grid.is_set(x, y) ==> grid.set(x, y) =~= grid);
    assert(!grid.is_set(x, y) ==> grid.unset(x, y) =~= grid);
    assert(grid.set(x, y).set(x, y) =~= grid.set(x, y));
    assert(grid.unset(x, y).unset(x, y) =~= grid.unset(x, y));
}

/// Setting or unsetting one cell leaves every other cell of the grid as it was.
pub proof fn lemma_set_and_unset_leave_other_cells(
    grid: OccupancyGrid,
    x: int,
    y: int,
    other_x: int,
    other_y: int,
)
    requires
        grid.in_bounds(x, y),
        grid.in_bounds(other_x, other_y),
        x != other_x || y != other_y,
    ensures
        grid.set(x, y).is_set(other_x, other_y) == grid.is_set(other_x, other_y),
        grid.unset(x, y).is_set(other_x, other_y) == grid.is_set(other_x, other_y),
{
    if grid.index_of(x, y) == grid.index_of(other_x, other_y) {
        lemma_index_of_is_injective(grid, x, y, other_x, other_y);
    }
}

/// After clearing, no cell is occupied, whatever the grid held before.
pub proof fn lemma_clear_frees_every_cell(grid: OccupancyGrid, x: int, y: int)
    ensures
        !grid.clear().is_set(x, y),
        grid.clear().width == grid.width,
        grid.clear().height == grid.height,
{
}

/// Setting, unsetting and clearing keep a well-formed grid well-formed.
pub proof fn lemma_updates_keep_well_formed(grid: OccupancyGrid, x: int, y: int)
    requires
        grid.well_formed(),
        grid.in_bounds(x, y),
    ensures
        grid.set(x, y).well_formed(),
        grid.unset(x, y).well_formed(),
        grid.clear().well_formed(),
{
    lemma_index_of_is_valid(grid, x, y);
    assert forall|idx: int| grid.set(x, y).occupied.contains(idx) implies grid.set(
        x,
        y,
    ).valid_index(idx) by {
        if idx != grid.index_of(x, y) {
            assert(grid.occupied.contains(idx));
            assert(grid.valid_index(idx));
        }
    }
    assert forall|idx: int| grid.unset(x, y).occupied.contains(idx) implies grid.unset(
        x,
        y,
    ).valid_index(idx) by {
        assert(grid.occupied.contains(idx));
        assert(grid.valid_index(idx));
    }
}

} // verus!
