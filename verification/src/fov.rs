//! Field of view: a ray-cast sweep over the grid.
//!
//! A cell is visible from an origin when it lies inside the map, within the
//! sight radius (by straight-line distance), and the ray walked from the
//! origin towards it meets no opaque cell strictly before arriving.

use vstd::prelude::*;

use crate::components::{spec_dist_sq, Point};
use crate::map::{GameMap, TileType};

verus! {

/// Sign of an integer: -1, 0 or 1.
pub open spec fn sgn(d: int) -> int {
    if d > 0 {
        1
    } else if d < 0 {
        -1
    } else {
        0
    }
}

pub open spec fn abs_of(d: int) -> int {
    if d >= 0 {
        d
    } else {
        -d
    }
}

/// Chebyshev distance between two cells: the number of ray steps between
/// them.
pub open spec fn cheb(px: int, py: int, qx: int, qy: int) -> int {
    if abs_of(qx - px) >= abs_of(qy - py) {
        abs_of(qx - px)
    } else {
        abs_of(qy - py)
    }
}

/// The ray from `(px, py)` towards `(qx, qy)` meets no opaque cell strictly
/// between the two: at each step both coordinates move one cell towards the
/// target.
pub open spec fn ray_clear(m: GameMap, px: int, py: int, qx: int, qy: int) -> bool
    decreases cheb(px, py, qx, qy),
{
    if cheb(px, py, qx, qy) <= 1 {
        true
    } else {
        let nx = px + sgn(qx - px);
        let ny = py + sgn(qy - py);
        m.tiles@[m.spec_idx(nx, ny)] != TileType::Wall && ray_clear(m, nx, ny, qx, qy)
    }
}

/// `p` is seen from `o`: inside the grid, within the radius, and the ray to
/// it is clear.
pub open spec fn visible_from(m: GameMap, o: Point, range: i32, p: Point) -> bool {
    &&& m.in_bounds(p.x as int, p.y as int)
    &&& spec_dist_sq(o, p) <= (range as int) * (range as int)
    &&& ray_clear(m, o.x as int, o.y as int, p.x as int, p.y as int)
}

/// Ray clearness reads only the terrain: two maps with the same tiles and
/// extents agree on every ray.
pub proof fn lemma_ray_clear_same_terrain(
    m1: GameMap,
    m2: GameMap,
    px: int,
    py: int,
    qx: int,
    qy: int,
)
    requires
        m1.tiles@ == m2.tiles@,
        m1.width == m2.width,
        m1.height == m2.height,
    ensures
        ray_clear(m1, px, py, qx, qy) == ray_clear(m2, px, py, qx, qy),
    decreases cheb(px, py, qx, qy),
{
    if cheb(px, py, qx, qy) > 1 {
        let nx = px + sgn(qx - px);
        let ny = py + sgn(qy - py);
        lemma_ray_clear_same_terrain(m1, m2, nx, ny, qx, qy);
    }
}

/// Visibility reads only the terrain: two maps with the same tiles and
/// extents agree on every visible point.
pub proof fn lemma_visible_from_same_terrain(m1: GameMap, m2: GameMap, o: Point, range: i32)
    requires
        m1.tiles@ == m2.tiles@,
        m1.width == m2.width,
        m1.height == m2.height,
    ensures
        forall|p: Point|
            #[trigger] visible_from(m1, o, range, p) == visible_from(m2, o, range, p),
{
    assert forall|p: Point|
        #[trigger] visible_from(m1, o, range, p) == visible_from(m2, o, range, p) by {
        lemma_ray_clear_same_terrain(
            m1,
            m2,
            o.x as int,
            o.y as int,
            p.x as int,
            p.y as int,
        );
    };
}

/// Walks the ray from `o` to `t`, reporting whether it is clear.
fn line_clear(m: &GameMap, o: Point, t: Point) -> (r: bool)
    requires
        m.wf(),
        m.in_bounds(o.x as int, o.y as int),
        m.in_bounds(t.x as int, t.y as int),
    ensures
        r == ray_clear(*m, o.x as int, o.y as int, t.x as int, t.y as int),
{
    let adx = if t.x >= o.x {
        t.x - o.x
    } else {
        o.x - t.x
    };
    let ady = if t.y >= o.y {
        t.y - o.y
    } else {
        o.y - t.y
    };
    let n = if adx >= ady {
        adx
    } else {
        ady
    };
    let mut cx = o.x;
    let mut cy = o.y;
    let mut i: i32 = 0;
    while i + 1 < n
        invariant
            m.wf(),
            m.in_bounds(o.x as int, o.y as int),
            m.in_bounds(t.x as int, t.y as int),
            0 <= i <= if n >= 1 {
                n - 1
            } else {
                0
            },
            n == cheb(o.x as int, o.y as int, t.x as int, t.y as int),
            cheb(cx as int, cy as int, t.x as int, t.y as int) == n - i,
            (if o.x <= t.x {
                o.x as int
            } else {
                t.x as int
            }) <= cx as int <= (if o.x <= t.x {
                t.x as int
            } else {
                o.x as int
            }),
            (if o.y <= t.y {
                o.y as int
            } else {
                t.y as int
            }) <= cy as int <= (if o.y <= t.y {
                t.y as int
            } else {
                o.y as int
            }),
            ray_clear(*m, o.x as int, o.y as int, t.x as int, t.y as int) == ray_clear(
                *m,
                cx as int,
                cy as int,
                t.x as int,
                t.y as int,
            ),
        decreases n - i,
    {
        let nx = if t.x > cx {
            cx + 1
        } else if t.x < cx {
            cx - 1
        } else {
            cx
        };
        let ny = if t.y > cy {
            cy + 1
        } else if t.y < cy {
            cy - 1
        } else {
            cy
        };
        let idx = m.xy_idx(nx, ny);
        if m.is_opaque(idx) {
            return false;
        }
        cx = nx;
        cy = ny;
        i = i + 1;
    }
    true
}

/// Computes the set of grid points visible from `origin` out to `range`,
/// sweeping the clipped bounding square of the radius.  Every returned
/// point is inside the grid, and no point is listed twice.
pub fn field_of_view(m: &GameMap, origin: Point, range: i32) -> (v: Vec<Point>)
    requires
        m.wf(),
        m.in_bounds(origin.x as int, origin.y as int),
        0 <= range <= 0x4000,
    ensures
        forall|p: Point| v@.contains(p) <==> visible_from(*m, origin, range, p),
        forall|i: int, j: int| 0 <= i < j < v@.len() ==> v@[i] != v@[j],
{
    let xs = if origin.x >= range {
        origin.x - range
    } else {
        0
    };
    let xe = if origin.x + range <= m.width - 1 {
        origin.x + range
    } else {
        m.width - 1
    };
    let ys = if origin.y >= range {
        origin.y - range
    } else {
        0
    };
    let ye = if origin.y + range <= m.height - 1 {
        origin.y + range
    } else {
        m.height - 1
    };
    proof {
        assert(0 <= (range as int) * (range as int) <= 0x1000_0000) by (nonlinear_arith)
            requires
                0 <= range as int <= 0x4000,
        ;
    }
    let range_sq = (range as i64) * (range as i64);

    let mut v: Vec<Point> = Vec::new();
    let mut y = ys;
    while y <= ye
        invariant
            m.wf(),
            m.in_bounds(origin.x as int, origin.y as int),
            0 <= range <= 0x4000,
            0 <= xs,
            xe as int <= m.width - 1,
            0 <= ys,
            ye as int <= m.height - 1,
            xs as int == if origin.x as int - range >= 0 {
                origin.x as int - range
            } else {
                0
            },
            xe as int == if origin.x as int + range <= m.width - 1 {
                origin.x as int + range
            } else {
                m.width as int - 1
            },
            ys as int == if origin.y as int - range >= 0 {
                origin.y as int - range
            } else {
                0
            },
            ye as int == if origin.y as int + range <= m.height - 1 {
                origin.y as int + range
            } else {
                m.height as int - 1
            },
            range_sq == (range as int) * (range as int),
            ys <= y,
            y as int <= ye as int + 1,
            forall|p: Point|
                v@.contains(p) <==> (visible_from(*m, origin, range, p) && ys as int
                    <= p.y as int && (p.y as int) < y as int),
            forall|i: int, j: int| 0 <= i < j < v@.len() ==> v@[i] != v@[j],
        decreases ye + 1 - y,
    {
        let mut x = xs;
        while x <= xe
            invariant
                m.wf(),
                m.in_bounds(origin.x as int, origin.y as int),
                0 <= range <= 0x4000,
                0 <= xs,
                xe as int <= m.width - 1,
                0 <= ys,
                ye as int <= m.height - 1,
                xs as int == if origin.x as int - range >= 0 {
                    origin.x as int - range
                } else {
                    0
                },
                xe as int == if origin.x as int + range <= m.width - 1 {
                    origin.x as int + range
                } else {
                    m.width as int - 1
                },
                ys <= y <= ye,
                range_sq == (range as int) * (range as int),
                xs <= x,
                x as int <= xe as int + 1,
                forall|p: Point|
                    v@.contains(p) <==> (visible_from(*m, origin, range, p) && ((ys as int
                        <= p.y as int && (p.y as int) < y as int) || (p.y as int == y as int
                        && xs as int <= p.x as int && (p.x as int) < x as int))),
                forall|i: int, j: int| 0 <= i < j < v@.len() ==> v@[i] != v@[j],
            decreases xe + 1 - x,
        {
            let p = Point { x, y };
            let d = crate::components::dist_sq(origin, p);
            if d <= range_sq {
                if line_clear(m, origin, p) {
                    proof {
                        broadcast use vstd::seq_lib::group_seq_properties;

                        assert(visible_from(*m, origin, range, p));
                        assert(!v@.contains(p));
                    }
                    v.push(p);
                }
            }
            proof {
                broadcast use vstd::seq_lib::group_seq_properties;

                assert forall|q: Point|
                    visible_from(*m, origin, range, q) && ((ys as int <= q.y as int
                    && (q.y as int) < y as int) || (q.y as int == y as int && xs as int
                    <= q.x as int && (q.x as int) < x as int + 1)) implies
                    v@.contains(q) by {
                    if q.y as int == y as int && q.x as int == x as int {
                        assert(q == p);
                    }
                };
            }
            x = x + 1;
        }
        proof {
            assert forall|q: Point|
                visible_from(*m, origin, range, q) && ys as int <= q.y as int && (q.y as int)
                    < y as int + 1 implies v@.contains(q) by {
                if q.y as int == y as int {
                    let dx = q.x as int - origin.x as int;
                    let dy = q.y as int - origin.y as int;
                    assert((origin.x as int - q.x as int) * (origin.x as int - q.x as int) == dx
                        * dx && (origin.y as int - q.y as int) * (origin.y as int - q.y as int)
                        == dy * dy && dx * dx <= dx * dx + dy * dy && (dx * dx <= (range as int)
                        * (range as int) ==> -(range as int) <= dx <= range as int))
                        by (nonlinear_arith)
                        requires
                            dx == q.x as int - origin.x as int,
                            dy == q.y as int - origin.y as int,
                            0 <= range as int,
                    ;
                    assert(xs as int <= q.x as int <= xe as int);
                }
            };
        }
        y = y + 1;
    }
    proof {
        assert forall|q: Point| visible_from(*m, origin, range, q) implies v@.contains(q) by {
            let dx = q.x as int - origin.x as int;
            let dy = q.y as int - origin.y as int;
            assert((origin.x as int - q.x as int) * (origin.x as int - q.x as int) == dx * dx
                && (origin.y as int - q.y as int) * (origin.y as int - q.y as int) == dy * dy
                && dy * dy <= dx * dx + dy * dy && (dy * dy <= (range as int) * (range as int)
                ==> -(range as int) <= dy <= range as int)) by (nonlinear_arith)
                requires
                    dx == q.x as int - origin.x as int,
                    dy == q.y as int - origin.y as int,
                    0 <= range as int,
            ;
            assert(ys as int <= q.y as int <= ye as int);
        };
    }
    v
}

} // verus!
