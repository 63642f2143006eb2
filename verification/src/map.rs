//! The tile grid: terrain, the three parallel boolean grids, the room list,
//! and the grid contracts (opacity, exits, distance, dimensions) that the
//! field-of-view and path-search routines consume.

use vstd::prelude::*;
use vstd::pervasive::VecAdditionalExecFns;

use crate::components::Point;
use crate::rect::Rect;

verus! {

/// One grid cell's terrain classification.
#[derive(Clone, Copy, PartialEq, Eq, Structural, Debug)]
pub enum TileType {
    Wall,
    Floor,
}

/// The map: terrain plus three parallel boolean grids and the ordered room
/// list.  All four grids are row-major with index `y * width + x`.
pub struct GameMap {
    pub tiles: Vec<TileType>,
    pub explored_tiles: Vec<bool>,
    pub visible_tiles: Vec<bool>,
    pub blocked_tiles: Vec<bool>,
    pub rooms: Vec<Rect>,
    pub width: i32,
    pub height: i32,
}

/// Index arithmetic: `y * w + x` stays inside `[0, w * h)` for in-bounds
/// coordinates.
pub proof fn lemma_idx_in_range(w: int, h: int, x: int, y: int)
    requires
        1 <= w,
        0 <= x < w,
        0 <= y < h,
    ensures
        0 <= y * w,
        0 <= y * w + x < w * h,
{
    assert(0 <= y * w && 0 <= y * w + x < w * h) by (nonlinear_arith)
        requires
            1 <= w,
            0 <= x < w,
            0 <= y < h,
    ;
}

/// Distributing a row step over the row-major encoding.
pub proof fn lemma_row_step(y: int, w: int)
    ensures
        (y - 1) * w == y * w - w,
        (y + 1) * w == y * w + w,
{
    assert((y - 1) * w == y * w - w && (y + 1) * w == y * w + w) by (nonlinear_arith);
}

/// Index arithmetic is bijective over the grid: decoding `y * w + x` by
/// division and remainder recovers `(x, y)` exactly.
pub proof fn lemma_idx_round_trip(w: int, x: int, y: int)
    requires
        1 <= w,
        0 <= x < w,
        0 <= y,
    ensures
        (y * w + x) % w == x,
        (y * w + x) / w == y,
{
    vstd::arithmetic::div_mod::lemma_fundamental_div_mod_converse(y * w + x, w, y, x);
}

impl GameMap {
    /// Total number of grid cells.
    pub open spec fn spec_size(self) -> int {
        self.width * self.height
    }

    /// Shape invariant: positive extents within machine limits, and all four
    /// parallel grids of identical length `width * height`.
    pub open spec fn wf(self) -> bool {
        &&& 1 <= self.width <= 0x4000
        &&& 1 <= self.height <= 0x4000
        &&& self.tiles@.len() == self.spec_size()
        &&& self.explored_tiles@.len() == self.spec_size()
        &&& self.visible_tiles@.len() == self.spec_size()
        &&& self.blocked_tiles@.len() == self.spec_size()
    }

    /// The grid never exceeds `0x4000 * 0x4000` cells.
    pub proof fn lemma_size_bound(self)
        requires
            self.wf(),
        ensures
            1 <= self.spec_size() <= 0x1000_0000,
    {
        assert(1 <= self.width * self.height <= 0x1000_0000) by (nonlinear_arith)
            requires
                1 <= self.width <= 0x4000,
                1 <= self.height <= 0x4000,
        ;
    }

    pub open spec fn in_bounds(self, x: int, y: int) -> bool {
        0 <= x < self.width && 0 <= y < self.height
    }

    /// Row-major index of `(x, y)`.
    pub open spec fn spec_idx(self, x: int, y: int) -> int {
        y * self.width + x
    }

    /// The decoded coordinates of a grid index.
    pub open spec fn spec_x_of(self, idx: int) -> int {
        idx % (self.width as int)
    }

    pub open spec fn spec_y_of(self, idx: int) -> int {
        idx / (self.width as int)
    }

    /// An in-bounds index encodes in-bounds coordinates and round-trips.
    pub proof fn lemma_decode(self, idx: int)
        requires
            self.wf(),
            0 <= idx < self.spec_size(),
        ensures
            self.in_bounds(self.spec_x_of(idx), self.spec_y_of(idx)),
            self.spec_idx(self.spec_x_of(idx), self.spec_y_of(idx)) == idx,
    {
        let w = self.width as int;
        let h = self.height as int;
        vstd::arithmetic::div_mod::lemma_fundamental_div_mod(idx, w);
        vstd::arithmetic::div_mod::lemma_mod_pos_bound(idx, w);
        assert(idx / w < h) by (nonlinear_arith)
            requires
                1 <= w,
                0 <= idx < w * h,
                idx == w * (idx / w) + idx % w,
                0 <= idx % w < w,
        ;
        assert(idx / w >= 0) by (nonlinear_arith)
            requires
                1 <= w,
                0 <= idx,
                idx == w * (idx / w) + idx % w,
                0 <= idx % w < w,
        ;
    }

    fn size(&self) -> (s: usize)
        requires
            self.wf(),
        ensures
            s == self.spec_size(),
    {
        proof {
            self.lemma_size_bound();
        }
        (self.width * self.height) as usize
    }

    /// Returns the value to index into the tile grids.
    pub fn xy_idx(&self, x: i32, y: i32) -> (idx: usize)
        requires
            self.wf(),
            self.in_bounds(x as int, y as int),
        ensures
            idx == self.spec_idx(x as int, y as int),
            idx < self.spec_size(),
    {
        proof {
            self.lemma_size_bound();
            lemma_idx_in_range(self.width as int, self.height as int, x as int, y as int);
        }
        ((y * self.width) + x) as usize
    }

    /// Decodes a grid index back into its coordinates.
    pub fn idx_xy(&self, idx: usize) -> (p: Point)
        requires
            self.wf(),
            idx < self.spec_size(),
        ensures
            p.x == self.spec_x_of(idx as int),
            p.y == self.spec_y_of(idx as int),
            self.in_bounds(p.x as int, p.y as int),
            self.spec_idx(p.x as int, p.y as int) == idx,
    {
        proof {
            self.lemma_size_bound();
            self.lemma_decode(idx as int);
        }
        let x = (idx as i32) % self.width;
        let y = (idx as i32) / self.width;
        Point { x, y }
    }

    /// Returns whether the tile at `idx` blocks sight: true iff it is a wall.
    pub fn is_opaque(&self, idx: usize) -> (r: bool)
        requires
            self.wf(),
            idx < self.spec_size(),
        ensures
            r == (self.tiles@[idx as int] == TileType::Wall),
    {
        self.tiles[idx] == TileType::Wall
    }

    /// A neighbour cell is a valid movement exit iff it lies inside the grid
    /// excluding the outer border ring, and is not marked blocked.
    pub open spec fn spec_exit_valid(self, x: int, y: int) -> bool {
        &&& 1 <= x <= self.width - 2
        &&& 1 <= y <= self.height - 2
        &&& !self.blocked_tiles@[self.spec_idx(x, y)]
    }

    fn is_exit_valid(&self, x: i32, y: i32) -> (r: bool)
        requires
            self.wf(),
            -0x8000 <= x <= 0x8000,
            -0x8000 <= y <= 0x8000,
        ensures
            r == self.spec_exit_valid(x as int, y as int),
    {
        // if outside the inner region, return false straight away
        if x < 1 || x > self.width - 2 || y < 1 || y > self.height - 2 {
            return false;
        }
        // else, the cell is an exit iff it is not blocked
        let idx = self.xy_idx(x, y);
        !self.blocked_tiles[idx]
    }

    /// `to` is reachable from `from` in one step: a cardinal neighbour that
    /// is a valid exit.
    pub open spec fn spec_valid_exit(self, from: int, to: int) -> bool {
        let x = self.spec_x_of(from);
        let y = self.spec_y_of(from);
        ||| (to == from - 1 && self.spec_exit_valid(x - 1, y))
        ||| (to == from + 1 && self.spec_exit_valid(x + 1, y))
        ||| (to == from - self.width && self.spec_exit_valid(x, y - 1))
        ||| (to == from + self.width && self.spec_exit_valid(x, y + 1))
    }

    /// A valid exit is itself an in-bounds, unblocked cell.
    pub proof fn lemma_valid_exit_bounds(self, from: int, to: int)
        requires
            self.wf(),
            0 <= from < self.spec_size(),
            self.spec_valid_exit(from, to),
        ensures
            0 <= to < self.spec_size(),
            !self.blocked_tiles@[to],
            to == self.spec_idx(self.spec_x_of(to), self.spec_y_of(to)),
    {
        let w = self.width as int;
        let x = self.spec_x_of(from);
        let y = self.spec_y_of(from);
        self.lemma_decode(from);
        lemma_row_step(y, w);
        if to == from - 1 && self.spec_exit_valid(x - 1, y) {
            lemma_idx_in_range(w, self.height as int, x - 1, y);
            lemma_idx_round_trip(w, x - 1, y);
        } else if to == from + 1 && self.spec_exit_valid(x + 1, y) {
            lemma_idx_in_range(w, self.height as int, x + 1, y);
            lemma_idx_round_trip(w, x + 1, y);
        } else if to == from - w && self.spec_exit_valid(x, y - 1) {
            lemma_idx_in_range(w, self.height as int, x, y - 1);
            lemma_idx_round_trip(w, x, y - 1);
        } else {
            lemma_idx_in_range(w, self.height as int, x, y + 1);
            lemma_idx_round_trip(w, x, y + 1);
        }
    }

    /// The traversable neighbours of `idx` in the four cardinal directions,
    /// each with uniform unit cost.
    pub fn get_available_exits(&self, idx: usize) -> (exits: Vec<usize>)
        requires
            self.wf(),
            idx < self.spec_size(),
        ensures
            forall|u: usize| exits@.contains(u) <==> self.spec_valid_exit(idx as int, u as int),
            forall|i: int, j: int| 0 <= i < j < exits@.len() ==> exits@[i] != exits@[j],
    {
        // find x and y for the given tile index
        let p = self.idx_xy(idx);
        let x = p.x;
        let y = p.y;
        let w = self.width as usize;
        proof {
            broadcast use vstd::seq_lib::group_seq_properties;

            self.lemma_size_bound();
            lemma_row_step(y as int, self.width as int);
            assert(0 <= (y as int) * (self.width as int) && (1 <= y as int ==> self.width as int
                <= (y as int) * (self.width as int))) by (nonlinear_arith)
                requires
                    0 <= y as int,
                    1 <= self.width as int,
            ;
        }

        let mut exits: Vec<usize> = Vec::new();

        // add each of the cardinal directions which is a valid exit
        if self.is_exit_valid(x - 1, y) {
            exits.push(idx - 1);
        }
        if self.is_exit_valid(x + 1, y) {
            proof {
                lemma_idx_in_range(self.width as int, self.height as int, x + 1, y as int);
            }
            exits.push(idx + 1);
        }
        if self.is_exit_valid(x, y - 1) {
            exits.push(idx - w);
        }
        if self.is_exit_valid(x, y + 1) {
            proof {
                lemma_idx_in_range(self.width as int, self.height as int, x as int, y + 1);
            }
            exits.push(idx + w);
        }
        exits
    }

    /// Squared straight-line distance between two grid indices, computed on
    /// their decoded coordinates.
    pub fn get_pathing_distance_sq(&self, idx1: usize, idx2: usize) -> (d: i64)
        requires
            self.wf(),
            idx1 < self.spec_size(),
            idx2 < self.spec_size(),
        ensures
            d == crate::components::spec_dist_sq(
                Point { x: self.spec_x_of(idx1 as int) as i32, y: self.spec_y_of(idx1 as int) as i32 },
                Point { x: self.spec_x_of(idx2 as int) as i32, y: self.spec_y_of(idx2 as int) as i32 },
            ),
    {
        let p1 = self.idx_xy(idx1);
        let p2 = self.idx_xy(idx2);
        crate::components::dist_sq(p1, p2)
    }

    /// Returns a `Point` containing the width and height of the map.
    pub fn dimensions(&self) -> (d: Point)
        ensures
            d.x == self.width,
            d.y == self.height,
    {
        Point { x: self.width, y: self.height }
    }

    /// The blocked grid reflects the static terrain alone: a cell is
    /// blocked iff it is a wall.
    pub open spec fn blocked_matches_tiles(self) -> bool {
        forall|i: int|
            0 <= i < self.spec_size() ==> #[trigger] self.blocked_tiles@[i] == (self.tiles@[i]
                == TileType::Wall)
    }

    /// Resets the blocked grid from the static terrain: a cell is blocked
    /// iff it is a wall.  Blocking entities are added on top by the
    /// map-indexing step.
    pub fn populate_blocked(&mut self)
        requires
            old(self).wf(),
        ensures
            final(self).blocked_matches_tiles(),
            final(self).wf(),
            final(self).blocked_tiles@.len() == old(self).blocked_tiles@.len(),
            forall|i: int|
                0 <= i < final(self).blocked_tiles@.len()
                    ==> final(self).blocked_tiles@[i] == (final(self).tiles@[i]
                        == TileType::Wall),
            final(self).tiles@ == old(self).tiles@,
            final(self).explored_tiles@ == old(self).explored_tiles@,
            final(self).visible_tiles@ == old(self).visible_tiles@,
            final(self).rooms@ == old(self).rooms@,
            final(self).width == old(self).width,
            final(self).height == old(self).height,
    {
        let n = self.size();
        let mut i: usize = 0;
        while i < n
            invariant
                self.wf(),
                n == self.spec_size(),
                0 <= i <= n,
                self.blocked_tiles@.len() == old(self).blocked_tiles@.len(),
                forall|j: int|
                    0 <= j < i ==> self.blocked_tiles@[j] == (self.tiles@[j] == TileType::Wall),
                forall|j: int|
                    i <= j < n ==> self.blocked_tiles@[j] == old(self).blocked_tiles@[j],
                self.tiles@ == old(self).tiles@,
                self.explored_tiles@ == old(self).explored_tiles@,
                self.visible_tiles@ == old(self).visible_tiles@,
                self.rooms@ == old(self).rooms@,
                self.width == old(self).width,
                self.height == old(self).height,
            decreases n - i,
        {
            let wall = self.tiles[i] == TileType::Wall;
            self.blocked_tiles.set(i, wall);
            i = i + 1;
        }
    }
}

} // verus!
