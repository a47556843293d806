//! The occupancy grid as a value: a bit per cell, with bounds-checked
//! conversion between coordinates and linear indices.

use vstd::prelude::*;
use vstd::pervasive::runtime_assert;
use crate::bitset::BitSet;
use crate::occupancy::OccupancyGrid;
use crate::occupancy::lemma_index_of_is_valid;
use crate::occupancy::lemma_position_of_is_in_bounds;
use crate::pathing::EDGE_COST;

verus! {

/// Which cells of a fixed-size tile grid block movement.
pub struct CollisionMap {
    bitset: BitSet,
    width: u32,
    height: u32,
}

impl View for CollisionMap {
    type V = OccupancyGrid;

    closed spec fn view(&self) -> OccupancyGrid {
        OccupancyGrid {
            width: self.width as nat,
            height: self.height as nat,
            occupied: Set::new(
                |idx: int| 0 <= idx < self.width * self.height && self.bitset@.contains(idx),
            ),
        }
    }
}

impl CollisionMap {
    #[verifier::type_invariant]
    spec fn well_formed(self) -> bool {
        self.bitset.bound() == self.width * self.height
    }

    /// Only cells of the grid are ever recorded as occupied.
    pub proof fn lemma_view_is_well_formed(&self)
        ensures
            self@.well_formed(),
    {
    }

    /// Creates a map of `width` by `height` cells, all of them free. Either
    /// side may be zero, which gives a map without cells. Linear indices are
    /// 32-bit, so the number of cells has to fit in 32 bits.
    pub fn new(width: u32, height: u32) -> (map: Self)
        requires
            width * height <= u32::MAX,
        ensures
            map@ == OccupancyGrid::empty(width as nat, height as nat),
            map@.cell_count() == width * height,
    {
        CollisionMap { bitset: BitSet::with_capacity(width * height), width, height }
    }

    /// Whether `(x, y)` names a cell of the map.
    pub fn in_bounds(&self, x: u32, y: u32) -> (inside: bool)
        ensures
            inside == self@.in_bounds(x as int, y as int),
    {
        x < self.width && y < self.height
    }

    /// The number of cells.
    pub fn cell_count(&self) -> (count: u32)
        ensures
            count == self@.cell_count(),
    {
        proof {
            use_type_invariant(self);
        }
        self.bitset.capacity()
    }

    /// Marks the cell at `(x, y)` as blocking.
    pub fn set(&mut self, x: u32, y: u32)
        requires
            old(self)@.in_bounds(x as int, y as int),
        ensures
            final(self)@ == old(self)@.set(x as int, y as int),
    {
        let idx = self.index_of(x, y);
        proof {
            use_type_invariant(&*self);
        }
        self.bitset.add(idx);
    }

    /// Marks the cell at `(x, y)` as free.
    pub fn unset(&mut self, x: u32, y: u32)
        requires
            old(self)@.in_bounds(x as int, y as int),
        ensures
            final(self)@ == old(self)@.unset(x as int, y as int),
    {
        let idx = self.index_of(x, y);
        proof {
            use_type_invariant(&*self);
        }
        self.bitset.remove(idx);
    }

    /// Whether the cell at `(x, y)` blocks movement.
    pub fn is_set(&self, x: u32, y: u32) -> (blocked: bool)
        requires
            self@.in_bounds(x as int, y as int),
        ensures
            blocked == self@.is_set(x as int, y as int),
    {
        let idx = self.index_of(x, y);
        self.bitset.contains(idx)
    }

    /// The width and height of the map, in cells.
    pub fn size(&self) -> (size: (u32, u32))
        ensures
            size.0 == self@.width,
            size.1 == self@.height,
    {
        (self.width, self.height)
    }

    /// Marks every cell as free. The storage is kept.
    pub fn clear(&mut self)
        ensures
            final(self)@ == old(self)@.clear(),
    {
        proof {
            use_type_invariant(&*self);
        }
        self.bitset.clear();
    }

    /// The linear index of the cell at `(x, y)`. This is where a coordinate
    /// outside the map is caught: a caller that is not verified and passes
    /// one is stopped by a failed assertion, as are `set`, `unset` and
    /// `is_set`, which all come through here.
    pub fn index_of(&self, x: u32, y: u32) -> (idx: u32)
        requires
            self@.in_bounds(x as int, y as int),
        ensures
            idx == self@.index_of(x as int, y as int),
            self@.valid_index(idx as int),
    {
        proof {
            use_type_invariant(self);
            self.bitset.lemma_members_below_bound();
            lemma_index_of_is_valid(self@, x as int, y as int);
        }
        runtime_assert(x < self.width && y < self.height);
        y * self.width + x
    }

    /// The column and row of the cell with linear index `idx`. A caller that
    /// is not verified and asks this of a map without cells is stopped by a
    /// failed assertion.
    pub fn position_of(&self, idx: u32) -> (position: (u32, u32))
        requires
            self@.width > 0,
            self@.height > 0,
        ensures
            (position.0 as int, position.1 as int) == self@.position_of(idx as int),
            self@.valid_index(idx as int) ==> self@.in_bounds(position.0 as int, position.1 as int),
    {
        proof {
            if self@.valid_index(idx as int) {
                lemma_position_of_is_in_bounds(self@, idx as int);
            }
        }
        runtime_assert(self.width > 0 && self.height > 0);
        (idx % self.width, idx / self.width)
    }

    /// Whether the cell with linear index `idx` blocks movement. An index
    /// that names no cell of the map blocks nothing.
    pub fn is_opaque(&self, idx: usize) -> (blocked: bool)
        ensures
            blocked == self@.is_opaque(idx as int),
    {
        proof {
            use_type_invariant(self);
            self.bitset.lemma_members_below_bound();
        }
        if idx > u32::MAX as usize {
            return false;
        }
        self.bitset.contains(idx as u32)
    }

    /// The steps that leave the cell with linear index `idx`, each with its
    /// cost: to the right, to the left, down and up, in that order. A
    /// direction is left out where the map ends or the neighbouring cell
    /// blocks movement. Whether the cell `idx` itself blocks is not looked at.
    pub fn get_available_exits(&self, idx: usize) -> (exits: Vec<(usize, u32)>)
        requires
            self@.valid_index(idx as int),
        ensures
            exits@ == self@.exits(idx as int),
    {
        proof {
            use_type_invariant(self);
            self.bitset.lemma_members_below_bound();
            lemma_position_of_is_in_bounds(self@, idx as int);
            lemma_steps_stay_on_grid(self.width as int, self.height as int, idx as int);
        }
        let width = self.width as usize;
        let height = self.height as usize;
        let mut exits: Vec<(usize, u32)> = Vec::new();
        if idx % width < width - 1 {
            let neighbour = idx + 1;
            if !self.is_opaque(neighbour) {
                exits.push((neighbour, EDGE_COST));
            }
        }
        assert(exits@ == self@.exit_into(self@.right_of(idx as int)));
        if idx % width > 0 {
            let neighbour = idx - 1;
            if !self.is_opaque(neighbour) {
                exits.push((neighbour, EDGE_COST));
            }
        }
        assert(exits@ == self@.exit_into(self@.right_of(idx as int)) + self@.exit_into(
            self@.left_of(idx as int),
        ));
        if idx / width < height - 1 {
            let neighbour = idx + width;
            if !self.is_opaque(neighbour) {
                exits.push((neighbour, EDGE_COST));
            }
        }
        assert(exits@ == self@.exit_into(self@.right_of(idx as int)) + self@.exit_into(
            self@.left_of(idx as int),
        ) + self@.exit_into(self@.below(idx as int)));
        if idx >= width {
            let neighbour = idx - width;
            if !self.is_opaque(neighbour) {
                exits.push((neighbour, EDGE_COST));
            }
        }
        exits
    }

    /// The square of the straight-line distance between the cells with linear
    /// indices `from` and `to`.
    pub fn pathing_distance_squared(&self, from: usize, to: usize) -> (distance: u64)
        requires
            self@.valid_index(from as int),
            self@.valid_index(to as int),
        ensures
            distance == self@.distance_squared(from as int, to as int),
    {
        proof {
            use_type_invariant(self);
            self.bitset.lemma_members_below_bound();
            lemma_position_of_is_in_bounds(self@, from as int);
            lemma_position_of_is_in_bounds(self@, to as int);
        }
        let (from_x, from_y) = self.position_of(from as u32);
        let (to_x, to_y) = self.position_of(to as u32);
        let dx: u64 = if to_x >= from_x {
            (to_x - from_x) as u64
        } else {
            (from_x - to_x) as u64
        };
        let dy: u64 = if to_y >= from_y {
            (to_y - from_y) as u64
        } else {
            (from_y - to_y) as u64
        };
        proof {
            lemma_squares_fit(self.width as int, self.height as int, dx as int, dy as int);
            assert(dx * dx == (to_x - from_x) * (to_x - from_x)) by (nonlinear_arith)
                requires
                    dx == to_x - from_x || dx == from_x - to_x,
            ;
            assert(dy * dy == (to_y - from_y) * (to_y - from_y)) by (nonlinear_arith)
                requires
                    dy == to_y - from_y || dy == from_y - to_y,
            ;
        }
        dx * dx + dy * dy
    }
}

/// A grid that has a cell has at least one column and one row; from a cell
/// that is not in the last row, the index one row further down still names a
/// cell; and the first cell lies in the first column.
proof fn lemma_steps_stay_on_grid(width: int, height: int, idx: int)
    by (nonlinear_arith)
    requires
        0 <= idx < width * height,
        0 <= width,
        0 <= height,
    ensures
        width > 0,
        height > 0,
        idx / width < height - 1 ==> idx + width < width * height,
        idx % width > 0 ==> idx >= 1,
{
}

/// On a grid of at most 2^32 - 1 cells, the squared column and row distances
/// between two cells add up to less than 2^64.
proof fn lemma_squares_fit(width: int, height: int, dx: int, dy: int)
    by (nonlinear_arith)
    requires
        0 <= dx < width,
        0 <= dy < height,
        width * height <= 0xffff_ffff,
    ensures
        dx * dx <= 0xffff_ffff_ffff_ffff,
        dy * dy <= 0xffff_ffff_ffff_ffff,
        dx * dx + dy * dy <= 0xffff_ffff_ffff_ffff,
{
}

} // verus!
