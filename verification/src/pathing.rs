//! The occupancy grid seen as a graph: cells are nodes, and a step leads from a
//! cell to each free cell directly right of, left of, below or above it.

use vstd::prelude::*;
use crate::occupancy::OccupancyGrid;
use crate::occupancy::lemma_index_of_is_valid;
use crate::occupancy::lemma_index_of_position_of;
use crate::occupancy::lemma_position_of_index_of;
use crate::occupancy::lemma_position_of_is_in_bounds;

verus! {

/// The cost of one step between neighbouring cells.
pub const EDGE_COST: u32 = 1;

impl OccupancyGrid {
    /// Whether the cell with linear index `idx` blocks movement.
    pub open spec fn is_opaque(self, idx: int) -> bool {
        self.occupied.contains(idx)
    }

    /// The cell one column to the right of `idx`, unless `idx` lies in the last
    /// column.
    pub open spec fn right_of(self, idx: int) -> Option<int> {
        if idx % (self.width as int) < self.width - 1 {
            Some(idx + 1)
        } else {
            None
        }
    }

    /// The cell one column to the left of `idx`, unless `idx` lies in the first
    /// column.
    pub open spec fn left_of(self, idx: int) -> Option<int> {
        if idx % (self.width as int) > 0 {
            Some(idx - 1)
        } else {
            None
        }
    }

    /// The cell one row below `idx`, unless `idx` lies in the last row.
    pub open spec fn below(self, idx: int) -> Option<int> {
        if idx / (self.width as int) < self.height - 1 {
            Some(idx + self.width)
        } else {
            None
        }
    }

    /// The cell one row above `idx`, unless `idx` lies in the first row.
    pub open spec fn above(self, idx: int) -> Option<int> {
        if idx >= self.width {
            Some(idx - self.width)
        } else {
            None
        }
    }

    /// The step into `candidate`, if there is such a cell and it is free.
    pub open spec fn exit_into(self, candidate: Option<int>) -> Seq<(usize, u32)> {
        if candidate is Some && !self.is_opaque(candidate->0) {
            seq![(candidate->0 as usize, EDGE_COST)]
        } else {
            Seq::empty()
        }
    }

    /// The steps that leave the cell `idx`, each with its cost: to the right,
    /// to the left, down and up, in that order, leaving out the directions in
    /// which the grid ends or the neighbouring cell is occupied. Whether `idx`
    /// itself is occupied plays no part.
    pub open spec fn exits(self, idx: int) -> Seq<(usize, u32)> {
        self.exit_into(self.right_of(idx)) + self.exit_into(self.left_of(idx)) + self.exit_into(
            self.below(idx),
        ) + self.exit_into(self.above(idx))
    }

    /// The square of the straight-line distance between the cells `from` and
    /// `to`.
    pub open spec fn distance_squared(self, from: int, to: int) -> int {
        let (from_x, from_y) = self.position_of(from);
        let (to_x, to_y) = self.position_of(to);
        (to_x - from_x) * (to_x - from_x) + (to_y - from_y) * (to_y - from_y)
    }

    /// Whether the cells `a` and `b` share a side: they lie in the same row
    /// one column apart, or in the same column one row apart.
    pub open spec fn adjacent(self, a: int, b: int) -> bool {
        let (a_x, a_y) = self.position_of(a);
        let (b_x, b_y) = self.position_of(b);
        ||| a_y == b_y && (a_x + 1 == b_x || b_x + 1 == a_x)
        ||| a_x == b_x && (a_y + 1 == b_y || b_y + 1 == a_y)
    }

    /// Whether no cell is occupied.
    pub open spec fn all_free(self) -> bool {
        forall|idx: int| !self.is_opaque(idx)
    }
}

/// Where each of the four directions leads from a valid cell: a direction is
/// open exactly when the neighbouring coordinate is within the grid, and then
/// leads to the cell at that coordinate.
pub proof fn lemma_directions(grid: OccupancyGrid, idx: int)
    requires
        grid.valid_index(idx),
    ensures
        ({
            let (x, y) = grid.position_of(idx);
            &&& grid.right_of(idx) == if grid.in_bounds(x + 1, y) {
                Some(grid.index_of(x + 1, y))
            } else {
                None
            }
            &&& grid.left_of(idx) == if grid.in_bounds(x - 1, y) {
                Some(grid.index_of(x - 1, y))
            } else {
                None
            }
            &&& grid.below(idx) == if grid.in_bounds(x, y + 1) {
                Some(grid.index_of(x, y + 1))
            } else {
                None
            }
            &&& grid.above(idx) == if grid.in_bounds(x, y - 1) {
                Some(grid.index_of(x, y - 1))
            } else {
                None
            }
        }),
{
    let w = grid.width as int;
    let (x, y) = grid.position_of(idx);
    lemma_position_of_is_in_bounds(grid, idx);
    lemma_index_of_position_of(grid, idx);
    assert((y + 1) * w + x == idx + w && (y - 1) * w + x == idx - w) by (nonlinear_arith)
        requires
            y * w + x == idx,
    ;
    assert((idx >= w) == (y >= 1)) by (nonlinear_arith)
        requires
            y * w + x == idx,
            0 <= x < w,
            0 <= y,
    ;
}

/// A direction that is open from a valid cell leads to a cell of the grid
/// that shares a side with it, and no two directions lead to the same cell.
proof fn lemma_open_directions_lead_to_neighbours(grid: OccupancyGrid, idx: int)
    requires
        grid.valid_index(idx),
    ensures
        grid.right_of(idx) matches Some(n) ==> grid.valid_index(n) && grid.adjacent(idx, n),
        grid.left_of(idx) matches Some(n) ==> grid.valid_index(n) && grid.adjacent(idx, n),
        grid.below(idx) matches Some(n) ==> grid.valid_index(n) && grid.adjacent(idx, n),
        grid.above(idx) matches Some(n) ==> grid.valid_index(n) && grid.adjacent(idx, n),
        grid.right_of(idx) is Some ==> grid.right_of(idx) != grid.left_of(idx)
            && grid.right_of(idx) != grid.below(idx) && grid.right_of(idx) != grid.above(idx),
        grid.left_of(idx) is Some ==> grid.left_of(idx) != grid.below(idx) && grid.left_of(idx)
            != grid.above(idx),
        grid.below(idx) is Some ==> grid.below(idx) != grid.above(idx),
{
    let (x, y) = grid.position_of(idx);
    lemma_directions(grid, idx);
    lemma_position_of_is_in_bounds(grid, idx);
    if grid.in_bounds(x + 1, y) {
        lemma_position_of_index_of(grid, x + 1, y);
        lemma_index_of_is_valid(grid, x + 1, y);
    }
    if grid.in_bounds(x - 1, y) {
        lemma_position_of_index_of(grid, x - 1, y);
        lemma_index_of_is_valid(grid, x - 1, y);
    }
    if grid.in_bounds(x, y + 1) {
        lemma_position_of_index_of(grid, x, y + 1);
        lemma_index_of_is_valid(grid, x, y + 1);
    }
    if grid.in_bounds(x, y - 1) {
        lemma_position_of_index_of(grid, x, y - 1);
        lemma_index_of_is_valid(grid, x, y - 1);
    }
}

/// A cell of the grid that shares a side with a valid cell lies in one of the
/// four directions from it.
proof fn lemma_neighbours_lie_in_a_direction(grid: OccupancyGrid, idx: int, n: int)
    requires
        grid.valid_index(idx),
        grid.valid_index(n),
        grid.adjacent(idx, n),
    ensures
        grid.right_of(idx) == Some(n) || grid.left_of(idx) == Some(n) || grid.below(idx) == Some(n)
            || grid.above(idx) == Some(n),
{
    lemma_directions(grid, idx);
    lemma_position_of_is_in_bounds(grid, n);
    lemma_index_of_position_of(grid, n);
}

/// The entry at position `k` of `exits`: the step into a free cell in one of
/// the four directions.
proof fn lemma_exit_comes_from_a_direction(grid: OccupancyGrid, idx: int, k: int)
    requires
        0 <= k < grid.exits(idx).len(),
    ensures
        ({
            let exit = grid.exits(idx)[k];
            ||| grid.right_of(idx) matches Some(n) && !grid.is_opaque(n) && exit == (
                n as usize,
                EDGE_COST,
            )
            ||| grid.left_of(idx) matches Some(n) && !grid.is_opaque(n) && exit == (
                n as usize,
                EDGE_COST,
            )
            ||| grid.below(idx) matches Some(n) && !grid.is_opaque(n) && exit == (
                n as usize,
                EDGE_COST,
            )
            ||| grid.above(idx) matches Some(n) && !grid.is_opaque(n) && exit == (
                n as usize,
                EDGE_COST,
            )
        }),
{
    let right = grid.exit_into(grid.right_of(idx));
    let left = grid.exit_into(grid.left_of(idx));
    let down = grid.exit_into(grid.below(idx));
    let up = grid.exit_into(grid.above(idx));
    let exits = grid.exits(idx);
    assert(exits == right + left + down + up);
    if k < right.len() {
        assert(exits[k] == right[k]);
    } else if k < right.len() + left.len() {
        assert(exits[k] == left[k - right.len()]);
    } else if k < right.len() + left.len() + down.len() {
        assert(exits[k] == down[k - right.len() - left.len()]);
    } else {
        assert(exits[k] == up[k - right.len() - left.len() - down.len()]);
    }
}

/// The step into a free cell that lies in one of the four directions is
/// among the exits.
proof fn lemma_open_direction_is_an_exit(grid: OccupancyGrid, idx: int, n: int)
    requires
        !grid.is_opaque(n),
        grid.right_of(idx) == Some(n) || grid.left_of(idx) == Some(n) || grid.below(idx) == Some(n)
            || grid.above(idx) == Some(n),
    ensures
        grid.exits(idx).contains((n as usize, EDGE_COST)),
{
    let right = grid.exit_into(grid.right_of(idx));
    let left = grid.exit_into(grid.left_of(idx));
    let down = grid.exit_into(grid.below(idx));
    let up = grid.exit_into(grid.above(idx));
    let exits = grid.exits(idx);
    let exit = (n as usize, EDGE_COST);
    assert(exits == right + left + down + up);
    if grid.right_of(idx) == Some(n) {
        assert(exits[0] == exit);
    } else if grid.left_of(idx) == Some(n) {
        assert(exits[right.len() as int] == exit);
    } else if grid.below(idx) == Some(n) {
        assert(exits[(right.len() + left.len()) as int] == exit);
    } else {
        assert(exits[(right.len() + left.len() + down.len()) as int] == exit);
    }
}

/// What `exits` lists, said without reference to the order: each entry is a
/// free cell of the grid that shares a side with `idx` and costs one step;
/// every such cell is listed; and none is listed twice.
pub proof fn lemma_exits_are_the_free_neighbours(grid: OccupancyGrid, idx: int)
    requires
        grid.valid_index(idx),
        grid.cell_count() <= usize::MAX,
    ensures
        grid.exits(idx).len() <= 4,
        forall|k: int|
            0 <= k < grid.exits(idx).len() ==> {
                let exit = #[trigger] grid.exits(idx)[k];
                &&& grid.valid_index(exit.0 as int)
                &&& grid.adjacent(idx, exit.0 as int)
                &&& !grid.is_opaque(exit.0 as int)
                &&& exit.1 == EDGE_COST
            },
        forall|n: int|
            grid.valid_index(n) && #[trigger] grid.adjacent(idx, n) && !grid.is_opaque(n)
                ==> grid.exits(idx).contains((n as usize, EDGE_COST)),
        forall|j: int, k: int|
            0 <= j < k < grid.exits(idx).len() ==> (#[trigger] grid.exits(idx)[j]).0 != (
            #[trigger] grid.exits(idx)[k]).0,
{
    let exits = grid.exits(idx);
    assert forall|k: int| 0 <= k < exits.len() implies {
        let exit = #[trigger] exits[k];
        &&& grid.valid_index(exit.0 as int)
        &&& grid.adjacent(idx, exit.0 as int)
        &&& !grid.is_opaque(exit.0 as int)
        &&& exit.1 == EDGE_COST
    } by {
        lemma_exit_comes_from_a_direction(grid, idx, k);
        lemma_open_directions_lead_to_neighbours(grid, idx);
    }
    assert forall|n: int|
        grid.valid_index(n) && #[trigger] grid.adjacent(idx, n) && !grid.is_opaque(
            n,
        ) implies exits.contains((n as usize, EDGE_COST)) by {
        lemma_neighbours_lie_in_a_direction(grid, idx, n);
        lemma_open_direction_is_an_exit(grid, idx, n);
    }
    assert forall|j: int, k: int| 0 <= j < k < exits.len() implies (#[trigger] exits[j]).0 != (
    #[trigger] exits[k]).0 by {
        lemma_exits_differ(grid, idx, j, k);
    }
}

/// Two entries of `exits` at different positions name different cells.
proof fn lemma_exits_differ(grid: OccupancyGrid, idx: int, j: int, k: int)
    requires
        grid.valid_index(idx),
        grid.cell_count() <= usize::MAX,
        0 <= j < k < grid.exits(idx).len(),
    ensures
        grid.exits(idx)[j].0 != grid.exits(idx)[k].0,
{
    let right = grid.exit_into(grid.right_of(idx));
    let left = grid.exit_into(grid.left_of(idx));
    let down = grid.exit_into(grid.below(idx));
    let up = grid.exit_into(grid.above(idx));
    let exits = grid.exits(idx);
    let a = right.len() as int;
    let b = a + left.len();
    let c = b + down.len();
    lemma_open_directions_lead_to_neighbours(grid, idx);
    assert(exits == right + left + down + up);
    assert(exits[j] == if j < a {
        right[j]
    } else if j < b {
        left[j - a]
    } else if j < c {
        down[j - b]
    } else {
        up[j - c]
    });
    assert(exits[k] == if k < a {
        right[k]
    } else if k < b {
        left[k - a]
    } else if k < c {
        down[k - b]
    } else {
        up[k - c]
    });
}

/// On a grid without occupied cells, a cell that touches no edge has exactly
/// four exits, each costing one step: right, left, down and up.
pub proof fn lemma_interior_cell_has_four_exits(grid: OccupancyGrid, idx: int)
    requires
        grid.all_free(),
        grid.valid_index(idx),
        grid.cell_count() <= usize::MAX,
        0 < grid.position_of(idx).0 < grid.width - 1,
        0 < grid.position_of(idx).1 < grid.height - 1,
    ensures
        grid.exits(idx) == seq![
            ((idx + 1) as usize, EDGE_COST),
            ((idx - 1) as usize, EDGE_COST),
            ((idx + grid.width) as usize, EDGE_COST),
            ((idx - grid.width) as usize, EDGE_COST),
        ],
        grid.exits(idx).len() == 4,
{
    lemma_directions(grid, idx);
    assert(!grid.is_opaque(idx + 1) && !grid.is_opaque(idx - 1) && !grid.is_opaque(
        idx + grid.width,
    ) && !grid.is_opaque(idx - grid.width));
}

/// On a grid without occupied cells that is at least two cells wide and two
/// high, each corner cell has exactly two exits: the two that lead away from
/// the edges it touches.
pub proof fn lemma_corner_cells_have_two_exits(grid: OccupancyGrid)
    requires
        grid.all_free(),
        grid.cell_count() <= usize::MAX,
        grid.width >= 2,
        grid.height >= 2,
    ensures
        ({
            let w = grid.width as int;
            let last = grid.cell_count() - 1;
            &&& grid.exits(0) == seq![(1usize, EDGE_COST), (w as usize, EDGE_COST)]
            &&& grid.exits(w - 1) == seq![
                ((w - 2) as usize, EDGE_COST),
                ((w - 1 + w) as usize, EDGE_COST),
            ]
            &&& grid.exits(last - (w - 1)) == seq![
                ((last - (w - 1) + 1) as usize, EDGE_COST),
                ((last - (w - 1) - w) as usize, EDGE_COST),
            ]
            &&& grid.exits(last) == seq![
                ((last - 1) as usize, EDGE_COST),
                ((last - w) as usize, EDGE_COST),
            ]
        }),
{
    let w = grid.width as int;
    let h = grid.height as int;
    let last = grid.cell_count() - 1;
    assert(0 * w + 0 == 0 && 0 * w + (w - 1) == w - 1 && (h - 1) * w + 0 == last - (w - 1) && (h
        - 1) * w + (w - 1) == last) by (nonlinear_arith)
        requires
            last == w * h - 1,
    ;
    lemma_index_of_is_valid(grid, 0, 0);
    lemma_index_of_is_valid(grid, w - 1, 0);
    lemma_index_of_is_valid(grid, 0, h - 1);
    lemma_index_of_is_valid(grid, w - 1, h - 1);
    lemma_position_of_index_of(grid, 0, 0);
    lemma_position_of_index_of(grid, w - 1, 0);
    lemma_position_of_index_of(grid, 0, h - 1);
    lemma_position_of_index_of(grid, w - 1, h - 1);
    lemma_directions(grid, 0);
    lemma_directions(grid, w - 1);
    lemma_directions(grid, last - (w - 1));
    lemma_directions(grid, last);
    assert(!grid.is_opaque(1) && !grid.is_opaque(w) && !grid.is_opaque(w - 2) && !grid.is_opaque(
        w - 1 + w,
    ));
    assert(!grid.is_opaque(last - (w - 1) + 1) && !grid.is_opaque(last - (w - 1) - w)
        && !grid.is_opaque(last - 1) && !grid.is_opaque(last - w));
}

/// The squared distance is never negative, is zero from a cell to itself,
/// and is the same in both directions.
pub proof fn lemma_distance_is_symmetric(grid: OccupancyGrid, a: int, b: int)
    ensures
        grid.distance_squared(a, b) >= 0,
        grid.distance_squared(a, a) == 0,
        grid.distance_squared(a, b) == grid.distance_squared(b, a),
{
    let (a_x, a_y) = grid.position_of(a);
    let (b_x, b_y) = grid.position_of(b);
    assert((b_x - a_x) * (b_x - a_x) == (a_x - b_x) * (a_x - b_x) && (b_x - a_x) * (b_x - a_x)
        >= 0) by (nonlinear_arith);
    assert((b_y - a_y) * (b_y - a_y) == (a_y - b_y) * (a_y - b_y) && (b_y - a_y) * (b_y - a_y)
        >= 0) by (nonlinear_arith);
}

/// Two distinct cells of the grid are never at distance zero.
pub proof fn lemma_distance_separates_cells(grid: OccupancyGrid, a: int, b: int)
    requires
        grid.valid_index(a),
        grid.valid_index(b),
        grid.distance_squared(a, b) == 0,
    ensures
        a == b,
{
    let (a_x, a_y) = grid.position_of(a);
    let (b_x, b_y) = grid.position_of(b);
    assert(a_x == b_x && a_y == b_y) by (nonlinear_arith)
        requires
            (b_x - a_x) * (b_x - a_x) + (b_y - a_y) * (b_y - a_y) == 0,
    ;
    lemma_index_of_position_of(grid, a);
    lemma_index_of_position_of(grid, b);
}

/// Cells that share a side are at distance one: the cost of the step between
/// them.
pub proof fn lemma_adjacent_cells_are_one_apart(grid: OccupancyGrid, a: int, b: int)
    requires
        grid.adjacent(a, b),
    ensures
        grid.distance_squared(a, b) == EDGE_COST * EDGE_COST,
{
    let (a_x, a_y) = grid.position_of(a);
    let (b_x, b_y) = grid.position_of(b);
    assert((b_x - a_x) * (b_x - a_x) + (b_y - a_y) * (b_y - a_y) == 1) by (nonlinear_arith)
        requires
            (a_y == b_y && (a_x + 1 == b_x || b_x + 1 == a_x)) || (a_x == b_x && (a_y + 1 == b_y
                || b_y + 1 == a_y)),
    ;
}

/// The product of two sums of two squares is again a sum of two squares.
proof fn lemma_two_squares_identity(u_x: int, u_y: int, v_x: int, v_y: int)
    ensures
        (u_x * u_x + u_y * u_y) * (v_x * v_x + v_y * v_y) == (u_x * v_x + u_y * v_y) * (u_x * v_x
            + u_y * v_y) + (u_x * v_y - u_y * v_x) * (u_x * v_y - u_y * v_x),
{
    let a = u_x * v_x;
    let b = u_y * v_y;
    let c = u_x * v_y;
    let d = u_y * v_x;
    assert((u_x * u_x + u_y * u_y) * (v_x * v_x + v_y * v_y) == (u_x * u_x) * (v_x * v_x) + (u_x
        * u_x) * (v_y * v_y) + (u_y * u_y) * (v_x * v_x) + (u_y * u_y) * (v_y * v_y))
        by (nonlinear_arith);
    assert((u_x * u_x) * (v_x * v_x) == a * a) by (nonlinear_arith)
        requires
            a == u_x * v_x,
    ;
    assert((u_y * u_y) * (v_y * v_y) == b * b) by (nonlinear_arith)
        requires
            b == u_y * v_y,
    ;
    assert((u_x * u_x) * (v_y * v_y) == c * c) by (nonlinear_arith)
        requires
            c == u_x * v_y,
    ;
    assert((u_y * u_y) * (v_x * v_x) == d * d) by (nonlinear_arith)
        requires
            d == u_y * v_x,
    ;
    assert(a * b == c * d) by (nonlinear_arith)
        requires
            a == u_x * v_x,
            b == u_y * v_y,
            c == u_x * v_y,
            d == u_y * v_x,
    ;
    assert((a + b) * (a + b) + (c - d) * (c - d) == a * a + b * b + c * c + d * d)
        by (nonlinear_arith)
        requires
            a * b == c * d,
    ;
}

/// The triangle inequality for the straight-line distance, stated over the
/// squares: with `p`, `q` and `r` the squared distances from `a` to `b`, from
/// `b` to `c` and from `a` to `c`, the root of `r` is at most the sum of the
/// roots of `p` and `q`, which without roots reads `r <= p + q` or
/// `(r - p - q)^2 <= 4 * p * q`.
pub proof fn lemma_distance_obeys_triangle_inequality(grid: OccupancyGrid, a: int, b: int, c: int)
    ensures
        ({
            let p = grid.distance_squared(a, b);
            let q = grid.distance_squared(b, c);
            let r = grid.distance_squared(a, c);
            r <= p + q || (r - p - q) * (r - p - q) <= 4 * p * q
        }),
{
    let (a_x, a_y) = grid.position_of(a);
    let (b_x, b_y) = grid.position_of(b);
    let (c_x, c_y) = grid.position_of(c);
    let u_x = b_x - a_x;
    let u_y = b_y - a_y;
    let v_x = c_x - b_x;
    let v_y = c_y - b_y;
    let p = u_x * u_x + u_y * u_y;
    let q = v_x * v_x + v_y * v_y;
    let r = (c_x - a_x) * (c_x - a_x) + (c_y - a_y) * (c_y - a_y);
    let dot = u_x * v_x + u_y * v_y;
    let cross = u_x * v_y - u_y * v_x;
    assert(p == grid.distance_squared(a, b));
    assert(q == grid.distance_squared(b, c));
    assert(r == grid.distance_squared(a, c));
    assert((c_x - a_x) * (c_x - a_x) == u_x * u_x + 2 * (u_x * v_x) + v_x * v_x)
        by (nonlinear_arith)
        requires
            c_x - a_x == u_x + v_x,
    ;
    assert((c_y - a_y) * (c_y - a_y) == u_y * u_y + 2 * (u_y * v_y) + v_y * v_y)
        by (nonlinear_arith)
        requires
            c_y - a_y == u_y + v_y,
    ;
    assert(r - p - q == 2 * dot);
    lemma_two_squares_identity(u_x, u_y, v_x, v_y);
    assert(p * q == dot * dot + cross * cross);
    assert((r - p - q) * (r - p - q) <= 4 * p * q) by (nonlinear_arith)
        requires
            r - p - q == 2 * dot,
            p * q == dot * dot + cross * cross,
    ;
}

} // verus!
