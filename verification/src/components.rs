//! Entity attributes: positions, viewsheds, and the marker tags that the
//! simulation steps query.

use vstd::prelude::*;

verus! {

/// A grid point.  Also serves as the globally published player-position
/// resource.
#[derive(Clone, Copy, PartialEq, Eq, Structural, Debug)]
pub struct Point {
    pub x: i32,
    pub y: i32,
}

/// Squared Euclidean distance between two points, as the mathematical value.
pub open spec fn spec_dist_sq(a: Point, b: Point) -> int {
    (a.x - b.x) * (a.x - b.x) + (a.y - b.y) * (a.y - b.y)
}

/// Squared Euclidean distance between two points.  All behaviour-distance
/// comparisons are made on squares, which keeps the arithmetic exact.
pub fn dist_sq(a: Point, b: Point) -> (d: i64)
    requires
        -0x10000 <= a.x <= 0x10000,
        -0x10000 <= a.y <= 0x10000,
        -0x10000 <= b.x <= 0x10000,
        -0x10000 <= b.y <= 0x10000,
    ensures
        d == spec_dist_sq(a, b),
{
    let dx: i64 = a.x as i64 - b.x as i64;
    let dy: i64 = a.y as i64 - b.y as i64;
    proof {
        assert(dx * dx + dy * dy == spec_dist_sq(a, b) && 0 <= dx * dx <= 0x20000 * 0x20000
            && 0 <= dy * dy <= 0x20000 * 0x20000) by (nonlinear_arith)
            requires
                dx == a.x - b.x,
                dy == a.y - b.y,
                -0x20000 <= dx <= 0x20000,
                -0x20000 <= dy <= 0x20000,
        ;
    }
    dx * dx + dy * dy
}

/// An entity's location on the grid; mutated only by validated movement.
#[derive(Clone, Copy, PartialEq, Eq, Structural, Debug)]
pub struct Position {
    pub x: i32,
    pub y: i32,
}

impl Position {
    pub fn to_point(&self) -> (p: Point)
        ensures
            p.x == self.x,
            p.y == self.y,
    {
        Point { x: self.x, y: self.y }
    }
}

/// Per-entity sight: the set of grid points currently seen, the sight
/// radius, and a staleness flag.  The flag is the only trigger for
/// recomputation.
pub struct Viewshed {
    pub visible_tiles: Vec<Point>,
    pub range: i32,
    pub out_of_date: bool,
}

impl Viewshed {
    /// The sight radius stays within the machine limits of the grid.
    pub open spec fn wf(self) -> bool {
        0 <= self.range <= 0x4000
    }

    /// The visible tiles, as a set.
    pub open spec fn tiles_set(self) -> Set<Point> {
        self.visible_tiles@.to_set()
    }

    pub fn new(r: i32) -> (v: Viewshed)
        requires
            0 <= r <= 0x4000,
        ensures
            v.visible_tiles@ =~= Seq::<Point>::empty(),
            v.range == r,
            v.out_of_date,
            v.wf(),
    {
        Viewshed { visible_tiles: Vec::new(), range: r, out_of_date: true }
    }

    /// Whether `p` is among the currently recorded visible tiles.
    pub fn contains(&self, p: Point) -> (r: bool)
        ensures
            r == self.tiles_set().contains(p),
    {
        let mut i: usize = 0;
        while i < self.visible_tiles.len()
            invariant
                0 <= i <= self.visible_tiles@.len(),
                forall|j: int| 0 <= j < i ==> self.visible_tiles@[j] != p,
            decreases self.visible_tiles@.len() - i,
        {
            if self.visible_tiles[i].x == p.x && self.visible_tiles[i].y == p.y {
                assert(self.visible_tiles@[i as int] == p);
                assert(self.tiles_set().contains(p));
                return true;
            }
            i = i + 1;
        }
        assert(!self.visible_tiles@.contains(p));
        false
    }
}

/// Marker: the (single) player-controlled entity.
pub struct Player {}

/// Marker: a hostile agent.
pub struct Enemy {}

/// Marker: an entity that contributes to the blocked grid.
pub struct BlocksTile {}

/// A display name, used when a contact signal is reported.
pub struct Name {
    pub name: String,
}

} // verus!
