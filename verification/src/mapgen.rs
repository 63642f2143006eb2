//! Dungeon generation: random rooms connected by L-shaped corridors.
//!
//! The carving routines state their effect exactly: which cells become
//! `Floor` and that every other cell keeps its previous tile.  Corridor
//! writes whose index would fall outside the grid are silently dropped.

use vstd::prelude::*;
use vstd::pervasive::VecAdditionalExecFns;

use crate::components::Point;
use crate::map::{lemma_idx_in_range, lemma_idx_round_trip, lemma_row_step, GameMap, TileType};
use crate::rect::Rect;
use crate::rng::{rng_new, rng_range, rng_roll_dice};

verus! {

/// Builds a vector of `n` copies of `val`.
pub(crate) fn fill<T: Copy>(n: usize, val: T) -> (v: Vec<T>)
    ensures
        v@.len() == n,
        forall|i: int| 0 <= i < n ==> v@[i] == val,
{
    let mut v: Vec<T> = Vec::new();
    let mut i: usize = 0;
    while i < n
        invariant
            0 <= i <= n,
            v@.len() == i,
            forall|j: int| 0 <= j < i ==> v@[j] == val,
        decreases n - i,
    {
        v.push(val);
        i = i + 1;
    }
    v
}

/// The horizontal-tunnel carve covers index `i` when `i` is `y * width + x`
/// for some `x` between the two endpoints (clipping to the grid's index
/// range is handled by the carving routines' bounded quantifiers).
pub open spec fn h_covers(m: GameMap, x1: int, x2: int, y: int, i: int) -> bool {
    let lo = if x1 <= x2 { x1 } else { x2 };
    let hi = if x1 <= x2 { x2 } else { x1 };
    lo <= i - y * m.width && i - y * m.width <= hi
}

/// The vertical-tunnel carve covers index `i` when `i` is `y * width + x`
/// for some `y` between the two endpoints.
pub open spec fn v_covers(m: GameMap, y1: int, y2: int, x: int, i: int) -> bool {
    let lo = if y1 <= y2 { y1 } else { y2 };
    let hi = if y1 <= y2 { y2 } else { y1 };
    (i - x) % (m.width as int) == 0 && lo <= (i - x) / (m.width as int) && (i - x) / (
    m.width as int) <= hi
}

/// The room carve covers index `i` when its decoded coordinates lie in the
/// room's interior: one tile inset from each edge.
pub open spec fn room_covers(m: GameMap, r: Rect, i: int) -> bool {
    r.x1 + 1 <= m.spec_x_of(i) <= r.x2 && r.y1 + 1 <= m.spec_y_of(i) <= r.y2
}

/// The room lies inside the grid with a one-tile margin on every side, and
/// is wide enough for its centre to fall strictly inside its interior.
pub open spec fn room_in_grid(m: GameMap, r: Rect) -> bool {
    &&& 0 <= r.x1
    &&& r.x1 + 3 <= r.x2
    &&& r.x2 <= m.width - 2
    &&& 0 <= r.y1
    &&& r.y1 + 3 <= r.y2
    &&& r.y2 <= m.height - 2
}

/// No two accepted rooms intersect; touching edges count as intersecting.
pub open spec fn rooms_disjoint(rooms: Seq<Rect>) -> bool {
    forall|i: int, j: int|
        #![trigger rooms[i], rooms[j]]
        0 <= i < j < rooms.len() ==> !rooms[i].spec_intersect(rooms[j])
}

pub open spec fn rooms_in_grid(m: GameMap) -> bool {
    forall|k: int| 0 <= k < m.rooms@.len() ==> room_in_grid(m, #[trigger] m.rooms@[k])
}

/// Every cell of the room's interior is `Floor`.
pub open spec fn room_interior_floor(m: GameMap, r: Rect) -> bool {
    forall|i: int|
        0 <= i < m.spec_size() && room_covers(m, r, i) ==> m.tiles@[i] == TileType::Floor
}

pub open spec fn rooms_floored(m: GameMap) -> bool {
    forall|k: int| 0 <= k < m.rooms@.len() ==> room_interior_floor(m, #[trigger] m.rooms@[k])
}

/// The grid's border ring is all `Wall`.
pub open spec fn border_is_wall(m: GameMap) -> bool {
    forall|i: int|
        0 <= i < m.spec_size() && (m.spec_x_of(i) == 0 || m.spec_x_of(i) == m.width - 1
            || m.spec_y_of(i) == 0 || m.spec_y_of(i) == m.height - 1) ==> m.tiles@[i]
            == TileType::Wall
}

/// Two grid points are cardinal neighbours.
pub open spec fn adjacent4(a: Point, b: Point) -> bool {
    ||| (a.x == b.x && (a.y - b.y == 1 || b.y - a.y == 1))
    ||| (a.y == b.y && (a.x - b.x == 1 || b.x - a.x == 1))
}

/// The point is a `Floor` cell strictly inside the border ring.
pub open spec fn inner_floor_cell(m: GameMap, p: Point) -> bool {
    &&& 1 <= p.x <= m.width - 2
    &&& 1 <= p.y <= m.height - 2
    &&& m.tiles@[m.spec_idx(p.x as int, p.y as int)] == TileType::Floor
}

/// A walk over inner floor cells, each step a cardinal neighbour.
pub open spec fn floor_path(m: GameMap, s: Seq<Point>) -> bool {
    &&& 1 <= s.len()
    &&& forall|k: int| 0 <= k < s.len() ==> inner_floor_cell(m, #[trigger] s[k])
    &&& forall|k: int| 0 <= k < s.len() - 1 ==> adjacent4(#[trigger] s[k], s[k + 1])
}

/// Some floor walk joins `a` to `b`.
pub open spec fn floor_connected(m: GameMap, a: Point, b: Point) -> bool {
    exists|s: Seq<Point>| #[trigger] floor_path(m, s) && s[0] == a && s[s.len() - 1] == b
}

/// The centre of a room, as a grid point.
pub open spec fn centre_of(r: Rect) -> Point {
    Point { x: ((r.x1 + r.x2) / 2) as i32, y: ((r.y1 + r.y2) / 2) as i32 }
}

/// Each accepted room's centre is floor-connected to the previous accepted
/// room's centre.
pub open spec fn rooms_linked(m: GameMap) -> bool {
    forall|k: int|
        1 <= k < m.rooms@.len() ==> floor_connected(
            m,
            centre_of(m.rooms@[k - 1]),
            centre_of(#[trigger] m.rooms@[k]),
        )
}

/// Cell `i` lies on one of the four straight runs that could form the
/// L-shaped corridor between the centres of rooms `k - 1` and `k`.
pub open spec fn corridor_covers(m: GameMap, k: int, i: int) -> bool {
    let a = centre_of(m.rooms@[k - 1]);
    let b = centre_of(m.rooms@[k]);
    ||| h_covers(m, a.x as int, b.x as int, a.y as int, i)
    ||| h_covers(m, a.x as int, b.x as int, b.y as int, i)
    ||| v_covers(m, a.y as int, b.y as int, a.x as int, i)
    ||| v_covers(m, a.y as int, b.y as int, b.x as int, i)
}

/// Every floor cell was carved: it lies in some accepted room's interior or
/// on a corridor between consecutive accepted rooms.  Every other cell is
/// still wall.
pub open spec fn floors_carved(m: GameMap) -> bool {
    forall|i: int|
        0 <= i < m.spec_size() && #[trigger] m.tiles@[i] == TileType::Floor ==> (exists|k: int|
            0 <= k < m.rooms@.len() && #[trigger] room_covers(m, m.rooms@[k], i)) || (exists|
        k: int|
            1 <= k < m.rooms@.len() && #[trigger] corridor_covers(m, k, i))
}

/// One carving operation: the grids keep their shape, tiles change only
/// from `Wall` to `Floor`, and the border ring is untouched.
pub open spec fn carve_step(m1: GameMap, m2: GameMap) -> bool {
    &&& m1.wf()
    &&& m2.wf()
    &&& m1.width == m2.width
    &&& m1.height == m2.height
    &&& m1.rooms@ == m2.rooms@
    &&& forall|i: int|
        0 <= i < m2.spec_size() ==> m2.tiles@[i] == m1.tiles@[i] || #[trigger] m2.tiles@[i]
            == TileType::Floor
    &&& forall|i: int|
        0 <= i < m2.spec_size() && (m1.spec_x_of(i) == 0 || m1.spec_x_of(i) == m1.width - 1
            || m1.spec_y_of(i) == 0 || m1.spec_y_of(i) == m1.height - 1)
            ==> #[trigger] m2.tiles@[i] == m1.tiles@[i]
    &&& forall|i: int|
        0 <= i < m2.spec_size() && m1.tiles@[i] == TileType::Floor ==> #[trigger] m2.tiles@[i]
            == TileType::Floor
}

/// The second map has the same shape and keeps every `Floor` of the first.
pub open spec fn floors_preserved(m1: GameMap, m2: GameMap) -> bool {
    &&& m1.wf()
    &&& m2.wf()
    &&& m1.width == m2.width
    &&& m1.height == m2.height
    &&& forall|i: int|
        0 <= i < m2.spec_size() && m1.tiles@[i] == TileType::Floor ==> #[trigger] m2.tiles@[i]
            == TileType::Floor
}

/// A room interior that is all floor stays all floor.
pub proof fn lemma_room_floor_monotone(m1: GameMap, m2: GameMap, r: Rect)
    requires
        floors_preserved(m1, m2),
        room_interior_floor(m1, r),
    ensures
        room_interior_floor(m2, r),
{
    assert forall|i: int| 0 <= i < m2.spec_size() && room_covers(m2, r, i) implies m2.tiles@[i]
        == TileType::Floor by {
        assert(room_covers(m1, r, i));
        assert(m1.tiles@[i] == TileType::Floor);
    };
}

/// A carving step preserves the generation invariants.
pub proof fn lemma_carve_step_preserves(m1: GameMap, m2: GameMap)
    requires
        carve_step(m1, m2),
    ensures
        rooms_in_grid(m1) ==> rooms_in_grid(m2),
        rooms_floored(m1) ==> rooms_floored(m2),
        border_is_wall(m1) ==> border_is_wall(m2),
        rooms_linked(m1) ==> rooms_linked(m2),
{
    if rooms_floored(m1) {
        assert forall|k: int| 0 <= k < m2.rooms@.len() implies room_interior_floor(
            m2,
            #[trigger] m2.rooms@[k],
        ) by {
            let r = m2.rooms@[k];
            assert(room_interior_floor(m1, r));
            lemma_room_floor_monotone(m1, m2, r);
        };
    }
    if border_is_wall(m1) {
        assert forall|i: int|
            0 <= i < m2.spec_size() && (m2.spec_x_of(i) == 0 || m2.spec_x_of(i) == m2.width - 1
                || m2.spec_y_of(i) == 0 || m2.spec_y_of(i) == m2.height - 1) implies
            m2.tiles@[i] == TileType::Wall by {
            assert(m1.spec_x_of(i) == m2.spec_x_of(i) && m1.spec_y_of(i) == m2.spec_y_of(i));
            assert(m1.tiles@[i] == TileType::Wall);
            assert(m2.tiles@[i] == m1.tiles@[i]);
        };
    }
    if rooms_linked(m1) {
        assert forall|k: int| 1 <= k < m2.rooms@.len() implies floor_connected(
            m2,
            centre_of(m2.rooms@[k - 1]),
            centre_of(#[trigger] m2.rooms@[k]),
        ) by {
            lemma_connected_monotone(
                m1,
                m2,
                centre_of(m1.rooms@[k - 1]),
                centre_of(m1.rooms@[k]),
            );
        };
    }
}

/// Floor connectivity survives a carving step.
pub proof fn lemma_connected_monotone(m1: GameMap, m2: GameMap, a: Point, b: Point)
    requires
        floors_preserved(m1, m2),
        floor_connected(m1, a, b),
    ensures
        floor_connected(m2, a, b),
{
    let s = choose|s: Seq<Point>| #[trigger] floor_path(m1, s) && s[0] == a && s[s.len() - 1]
        == b;
    assert forall|k: int| 0 <= k < s.len() implies inner_floor_cell(m2, #[trigger] s[k]) by {
        assert(inner_floor_cell(m1, s[k]));
        crate::map::lemma_idx_in_range(
            m1.width as int,
            m1.height as int,
            s[k].x as int,
            s[k].y as int,
        );
    };
    assert(floor_path(m2, s) && s[0] == a && s[s.len() - 1] == b);
}

/// Concatenating floor walks: connectivity is transitive.
pub proof fn lemma_connected_trans(m: GameMap, a: Point, b: Point, c: Point)
    requires
        floor_connected(m, a, b),
        floor_connected(m, b, c),
    ensures
        floor_connected(m, a, c),
{
    let s1 = choose|s: Seq<Point>| #[trigger] floor_path(m, s) && s[0] == a && s[s.len() - 1]
        == b;
    let s2 = choose|s: Seq<Point>| #[trigger] floor_path(m, s) && s[0] == b && s[s.len() - 1]
        == c;
    let s = s1 + s2.subrange(1, s2.len() as int);
    assert(s.len() == s1.len() + s2.len() - 1);
    assert forall|k: int| 0 <= k < s.len() implies inner_floor_cell(m, #[trigger] s[k]) by {
        if k < s1.len() {
            assert(s[k] == s1[k]);
        } else {
            assert(s[k] == s2[k - s1.len() + 1]);
        }
    };
    assert forall|k: int| 0 <= k < s.len() - 1 implies adjacent4(#[trigger] s[k], s[k + 1]) by {
        if k + 1 < s1.len() {
            assert(s[k] == s1[k] && s[k + 1] == s1[k + 1]);
        } else if k + 1 == s1.len() {
            assert(s[k] == s1[s1.len() - 1]);
            if s2.len() >= 2 {
                assert(s[k + 1] == s2[1]);
                assert(adjacent4(s2[0], s2[1]));
            }
        } else {
            assert(s[k] == s2[k - s1.len() + 1] && s[k + 1] == s2[k + 1 - s1.len() + 1]);
            assert(adjacent4(s2[k - s1.len()], s2[k - s1.len() + 1]));
        }
    };
    assert(floor_path(m, s) && s[0] == a && s[s.len() - 1] == c);
}

/// A row of inner floor cells joins its two end points.
pub proof fn lemma_row_connected(m: GameMap, a: Point, b: Point)
    requires
        m.wf(),
        a.y == b.y,
        1 <= a.y <= m.height - 2,
        1 <= a.x <= m.width - 2,
        1 <= b.x <= m.width - 2,
        forall|x: int|
            (if a.x <= b.x {
                a.x as int
            } else {
                b.x as int
            }) <= x <= (if a.x <= b.x {
                b.x as int
            } else {
                a.x as int
            }) ==> #[trigger] m.tiles@[(a.y as int) * (m.width as int) + x] == TileType::Floor,
    ensures
        floor_connected(m, a, b),
    decreases (if a.x <= b.x { b.x - a.x } else { a.x - b.x }),
{
    if a.x == b.x {
        let s = seq![a];
        assert(floor_path(m, s) && s[0] == a && s[s.len() - 1] == b);
    } else {
        let step: int = if a.x < b.x { 1 } else { -1 };
        let a2 = Point { x: (a.x + step) as i32, y: a.y };
        lemma_row_connected(m, a2, b);
        let s2 = choose|s: Seq<Point>| #[trigger] floor_path(m, s) && s[0] == a2 && s[s.len()
            - 1] == b;
        let s = seq![a] + s2;
        assert forall|k: int| 0 <= k < s.len() implies inner_floor_cell(m, #[trigger] s[k]) by {
            if k == 0 {
                assert(s[k] == a);
            } else {
                assert(s[k] == s2[k - 1]);
            }
        };
        assert forall|k: int| 0 <= k < s.len() - 1 implies adjacent4(
            #[trigger] s[k],
            s[k + 1],
        ) by {
            if k == 0 {
                assert(s[0] == a && s[1] == s2[0] && s2[0] == a2);
            } else {
                assert(s[k] == s2[k - 1] && s[k + 1] == s2[k]);
                assert(adjacent4(s2[k - 1], s2[k]));
            }
        };
        assert(floor_path(m, s) && s[0] == a && s[s.len() - 1] == b);
    }
}

/// A column of inner floor cells joins its two end points.
pub proof fn lemma_col_connected(m: GameMap, a: Point, b: Point)
    requires
        m.wf(),
        a.x == b.x,
        1 <= a.x <= m.width - 2,
        1 <= a.y <= m.height - 2,
        1 <= b.y <= m.height - 2,
        forall|y: int|
            (if a.y <= b.y {
                a.y as int
            } else {
                b.y as int
            }) <= y <= (if a.y <= b.y {
                b.y as int
            } else {
                a.y as int
            }) ==> #[trigger] m.tiles@[y * (m.width as int) + a.x as int] == TileType::Floor,
    ensures
        floor_connected(m, a, b),
    decreases (if a.y <= b.y { b.y - a.y } else { a.y - b.y }),
{
    if a.y == b.y {
        let s = seq![a];
        assert(floor_path(m, s) && s[0] == a && s[s.len() - 1] == b);
    } else {
        let step: int = if a.y < b.y { 1 } else { -1 };
        let a2 = Point { x: a.x, y: (a.y + step) as i32 };
        lemma_col_connected(m, a2, b);
        let s2 = choose|s: Seq<Point>| #[trigger] floor_path(m, s) && s[0] == a2 && s[s.len()
            - 1] == b;
        let s = seq![a] + s2;
        assert forall|k: int| 0 <= k < s.len() implies inner_floor_cell(m, #[trigger] s[k]) by {
            if k == 0 {
                assert(s[k] == a);
            } else {
                assert(s[k] == s2[k - 1]);
            }
        };
        assert forall|k: int| 0 <= k < s.len() - 1 implies adjacent4(
            #[trigger] s[k],
            s[k + 1],
        ) by {
            if k == 0 {
                assert(s[0] == a && s[1] == s2[0] && s2[0] == a2);
            } else {
                assert(s[k] == s2[k - 1] && s[k + 1] == s2[k]);
                assert(adjacent4(s2[k - 1], s2[k]));
            }
        };
        assert(floor_path(m, s) && s[0] == a && s[s.len() - 1] == b);
    }
}

/// The centre of a room that fits in the grid lies strictly inside both the
/// room's interior and the grid's inner region.
pub proof fn lemma_centre_bounds(m: GameMap, r: Rect)
    requires
        m.wf(),
        room_in_grid(m, r),
    ensures
        r.x1 + 1 <= centre_of(r).x as int <= r.x2 - 1,
        r.y1 + 1 <= centre_of(r).y as int <= r.y2 - 1,
        1 <= centre_of(r).x as int <= m.width - 2,
        1 <= centre_of(r).y as int <= m.height - 2,
        centre_of(r).x as int == (r.x1 + r.x2) / 2,
        centre_of(r).y as int == (r.y1 + r.y2) / 2,
{
    assert(r.x1 + 1 <= (r.x1 + r.x2) / 2 <= r.x2 - 1);
    assert(r.y1 + 1 <= (r.y1 + r.y2) / 2 <= r.y2 - 1);
}

/// A horizontal tunnel between inner-region endpoints is a carving step.
pub proof fn lemma_htunnel_carve_step(m1: GameMap, m2: GameMap, x1: int, x2: int, y: int)
    requires
        m1.wf(),
        m2.wf(),
        m1.width == m2.width,
        m1.height == m2.height,
        m1.rooms@ == m2.rooms@,
        1 <= x1 <= m1.width - 2,
        1 <= x2 <= m1.width - 2,
        1 <= y <= m1.height - 2,
        forall|i: int|
            0 <= i < m2.spec_size() ==> #[trigger] m2.tiles@[i] == (if h_covers(m1, x1, x2, y, i) {
                TileType::Floor
            } else {
                m1.tiles@[i]
            }),
    ensures
        carve_step(m1, m2),
        forall|x: int|
            (if x1 <= x2 {
                x1
            } else {
                x2
            }) <= x <= (if x1 <= x2 {
                x2
            } else {
                x1
            }) ==> #[trigger] m2.tiles@[y * (m1.width as int) + x] == TileType::Floor,
{
    let w = m1.width as int;
    assert forall|i: int|
        0 <= i < m2.spec_size() && (m1.spec_x_of(i) == 0 || m1.spec_x_of(i) == m1.width - 1
            || m1.spec_y_of(i) == 0 || m1.spec_y_of(i) == m1.height - 1) implies
        #[trigger] m2.tiles@[i] == m1.tiles@[i] by {
        if h_covers(m1, x1, x2, y, i) {
            lemma_idx_round_trip(w, i - y * w, y);
        }
    };
    assert forall|x: int|
        (if x1 <= x2 {
            x1
        } else {
            x2
        }) <= x <= (if x1 <= x2 {
            x2
        } else {
            x1
        }) implies #[trigger] m2.tiles@[y * w + x] == TileType::Floor by {
        lemma_idx_in_range(w, m1.height as int, x, y);
        assert(h_covers(m1, x1, x2, y, y * w + x));
    };
}

/// A vertical tunnel between inner-region endpoints is a carving step.
pub proof fn lemma_vtunnel_carve_step(m1: GameMap, m2: GameMap, y1: int, y2: int, x: int)
    requires
        m1.wf(),
        m2.wf(),
        m1.width == m2.width,
        m1.height == m2.height,
        m1.rooms@ == m2.rooms@,
        1 <= y1 <= m1.height - 2,
        1 <= y2 <= m1.height - 2,
        1 <= x <= m1.width - 2,
        forall|i: int|
            0 <= i < m2.spec_size() ==> #[trigger] m2.tiles@[i] == (if v_covers(m1, y1, y2, x, i) {
                TileType::Floor
            } else {
                m1.tiles@[i]
            }),
    ensures
        carve_step(m1, m2),
        forall|y: int|
            (if y1 <= y2 {
                y1
            } else {
                y2
            }) <= y <= (if y1 <= y2 {
                y2
            } else {
                y1
            }) ==> #[trigger] m2.tiles@[y * (m1.width as int) + x] == TileType::Floor,
{
    let w = m1.width as int;
    assert forall|i: int|
        0 <= i < m2.spec_size() && (m1.spec_x_of(i) == 0 || m1.spec_x_of(i) == m1.width - 1
            || m1.spec_y_of(i) == 0 || m1.spec_y_of(i) == m1.height - 1) implies
        #[trigger] m2.tiles@[i] == m1.tiles@[i] by {
        if v_covers(m1, y1, y2, x, i) {
            let q = (i - x) / w;
            vstd::arithmetic::div_mod::lemma_fundamental_div_mod(i - x, w);
            assert(i == q * w + x) by (nonlinear_arith)
                requires
                    i - x == w * ((i - x) / w) + (i - x) % w,
                    (i - x) % w == 0,
                    q == (i - x) / w,
            ;
            lemma_idx_round_trip(w, x, q);
        }
    };
    assert forall|y: int|
        (if y1 <= y2 {
            y1
        } else {
            y2
        }) <= y <= (if y1 <= y2 {
            y2
        } else {
            y1
        }) implies #[trigger] m2.tiles@[y * w + x] == TileType::Floor by {
        lemma_idx_in_range(w, m1.height as int, x, y);
        vstd::arithmetic::div_mod::lemma_fundamental_div_mod_converse(y * w, w, y, 0);
        assert(v_covers(m1, y1, y2, x, y * w + x));
    };
}

/// A room carve of a room that fits in the grid is a carving step.
pub proof fn lemma_room_carve_step(m1: GameMap, m2: GameMap, r: Rect)
    requires
        m1.wf(),
        m2.wf(),
        m1.width == m2.width,
        m1.height == m2.height,
        m1.rooms@ == m2.rooms@,
        room_in_grid(m1, r),
        forall|i: int|
            0 <= i < m2.spec_size() ==> #[trigger] m2.tiles@[i] == (if room_covers(m1, r, i) {
                TileType::Floor
            } else {
                m1.tiles@[i]
            }),
    ensures
        carve_step(m1, m2),
        room_interior_floor(m2, r),
{
    assert forall|i: int| 0 <= i < m2.spec_size() && room_covers(m2, r, i) implies
        #[trigger] m2.tiles@[i] == TileType::Floor by {
        assert(room_covers(m1, r, i));
    };
}

/// Reversing a floor walk: connectivity is symmetric.
pub proof fn lemma_connected_sym(m: GameMap, a: Point, b: Point)
    requires
        floor_connected(m, a, b),
    ensures
        floor_connected(m, b, a),
{
    let s = choose|s: Seq<Point>| #[trigger] floor_path(m, s) && s[0] == a && s[s.len() - 1]
        == b;
    let r = s.reverse();
    assert forall|k: int| 0 <= k < r.len() implies inner_floor_cell(m, #[trigger] r[k]) by {
        assert(r[k] == s[s.len() - 1 - k]);
    };
    assert forall|k: int| 0 <= k < r.len() - 1 implies adjacent4(#[trigger] r[k], r[k + 1]) by {
        assert(r[k] == s[s.len() - 1 - k]);
        assert(r[k + 1] == s[s.len() - 2 - k]);
        assert(adjacent4(s[s.len() - 2 - k], s[s.len() - 1 - k]));
    };
    assert(floor_path(m, r) && r[0] == b && r[r.len() - 1] == a);
}

/// A floor cell strictly inside the border is connected to itself.
pub proof fn lemma_connected_refl(m: GameMap, a: Point)
    requires
        inner_floor_cell(m, a),
    ensures
        floor_connected(m, a, a),
{
    let s = seq![a];
    assert(floor_path(m, s) && s[0] == a && s[s.len() - 1] == a);
}

/// When the blocked grid reflects the walls alone, a floor walk is a walk
/// over valid movement exits, so its end is search-reachable from its start.
pub proof fn lemma_floor_connected_reachable(m: GameMap, a: Point, b: Point)
    requires
        m.wf(),
        m.blocked_matches_tiles(),
        floor_connected(m, a, b),
    ensures
        crate::path::reachable(
            m,
            m.spec_idx(a.x as int, a.y as int),
            m.spec_idx(b.x as int, b.y as int),
        ),
{
    let w = m.width as int;
    let s = choose|s: Seq<Point>| #[trigger] floor_path(m, s) && s[0] == a && s[s.len() - 1]
        == b;
    let q = Seq::new(s.len(), |k: int| m.spec_idx(s[k].x as int, s[k].y as int));
    assert forall|k: int| 0 <= k < q.len() implies 0 <= #[trigger] q[k] < m.spec_size() by {
        assert(inner_floor_cell(m, s[k]));
        lemma_idx_in_range(w, m.height as int, s[k].x as int, s[k].y as int);
    };
    assert forall|k: int| 1 <= k < q.len() implies m.spec_valid_exit(q[k - 1], #[trigger] q[k]) by {
        let p0 = s[k - 1];
        let p1 = s[k];
        assert(inner_floor_cell(m, p0));
        assert(inner_floor_cell(m, p1));
        assert(adjacent4(p0, p1));
        lemma_idx_in_range(w, m.height as int, p0.x as int, p0.y as int);
        lemma_idx_in_range(w, m.height as int, p1.x as int, p1.y as int);
        lemma_idx_round_trip(w, p0.x as int, p0.y as int);
        lemma_row_step(p0.y as int, w);
        assert(!m.blocked_tiles@[m.spec_idx(p1.x as int, p1.y as int)]);
    };
    assert(crate::path::valid_path(m, q) && q[0] == m.spec_idx(a.x as int, a.y as int) && q[q.len()
        - 1] == m.spec_idx(b.x as int, b.y as int));
}

/// The chain of corridor links, followed forwards: for `i <= j` the two
/// centres are floor-connected.
proof fn lemma_rooms_chain_connected(m: GameMap, i: int, j: int)
    requires
        m.wf(),
        rooms_in_grid(m),
        rooms_floored(m),
        rooms_linked(m),
        0 <= i <= j,
        j < m.rooms@.len(),
    ensures
        floor_connected(m, centre_of(m.rooms@[i]), centre_of(m.rooms@[j])),
    decreases j - i,
{
    if i == j {
        lemma_centre_bounds(m, m.rooms@[i]);
        assert(room_covers(
            m,
            m.rooms@[i],
            m.spec_idx(centre_of(m.rooms@[i]).x as int, centre_of(m.rooms@[i]).y as int),
        )) by {
            let c = centre_of(m.rooms@[i]);
            lemma_idx_round_trip(m.width as int, c.x as int, c.y as int);
        };
        assert(room_interior_floor(m, m.rooms@[i]));
        assert(inner_floor_cell(m, centre_of(m.rooms@[i]))) by {
            let c = centre_of(m.rooms@[i]);
            lemma_idx_in_range(m.width as int, m.height as int, c.x as int, c.y as int);
        };
        lemma_connected_refl(m, centre_of(m.rooms@[i]));
    } else {
        lemma_rooms_chain_connected(m, i, j - 1);
        assert(floor_connected(m, centre_of(m.rooms@[j - 1]), centre_of(m.rooms@[j])));
        lemma_connected_trans(
            m,
            centre_of(m.rooms@[i]),
            centre_of(m.rooms@[j - 1]),
            centre_of(m.rooms@[j]),
        );
    }
}

/// Any two accepted rooms' centres are floor-connected: the chain of
/// corridor links, followed forwards or backwards.
pub proof fn lemma_rooms_pairwise_connected(m: GameMap, i: int, j: int)
    requires
        m.wf(),
        rooms_in_grid(m),
        rooms_floored(m),
        rooms_linked(m),
        0 <= i < m.rooms@.len(),
        0 <= j < m.rooms@.len(),
    ensures
        floor_connected(m, centre_of(m.rooms@[i]), centre_of(m.rooms@[j])),
{
    if i <= j {
        lemma_rooms_chain_connected(m, i, j);
    } else {
        lemma_rooms_chain_connected(m, j, i);
        lemma_connected_sym(m, centre_of(m.rooms@[j]), centre_of(m.rooms@[i]));
    }
}

/// Connectivity of the generated dungeon: once the blocked grid is rebuilt
/// from the walls, a path search between any two accepted rooms' centres
/// succeeds, because the centres are mutually reachable over the movement
/// exits.
pub proof fn lemma_generated_rooms_reachable(m: GameMap, i: int, j: int)
    requires
        m.wf(),
        m.blocked_matches_tiles(),
        rooms_in_grid(m),
        rooms_floored(m),
        rooms_linked(m),
        0 <= i < m.rooms@.len(),
        0 <= j < m.rooms@.len(),
    ensures
        crate::path::reachable(
            m,
            m.spec_idx(centre_of(m.rooms@[i]).x as int, centre_of(m.rooms@[i]).y as int),
            m.spec_idx(centre_of(m.rooms@[j]).x as int, centre_of(m.rooms@[j]).y as int),
        ),
{
    lemma_rooms_pairwise_connected(m, i, j);
    lemma_floor_connected_reachable(m, centre_of(m.rooms@[i]), centre_of(m.rooms@[j]));
}

impl GameMap {
    /// A fresh map: the given extents, all tiles `Wall`, all three boolean
    /// grids false, no rooms.
    pub fn new(width: i32, height: i32) -> (m: GameMap)
        requires
            1 <= width <= 0x4000,
            1 <= height <= 0x4000,
        ensures
            m.wf(),
            m.width == width,
            m.height == height,
            m.rooms@.len() == 0,
            forall|i: int| 0 <= i < m.spec_size() ==> m.tiles@[i] == TileType::Wall,
            forall|i: int| 0 <= i < m.spec_size() ==> !m.explored_tiles@[i],
            forall|i: int| 0 <= i < m.spec_size() ==> !m.visible_tiles@[i],
            forall|i: int| 0 <= i < m.spec_size() ==> !m.blocked_tiles@[i],
    {
        proof {
            assert(1 <= width * height <= 0x1000_0000) by (nonlinear_arith)
                requires
                    1 <= width <= 0x4000,
                    1 <= height <= 0x4000,
            ;
        }
        let n = (width * height) as usize;
        GameMap {
            tiles: fill(n, TileType::Wall),
            explored_tiles: fill(n, false),
            visible_tiles: fill(n, false),
            blocked_tiles: fill(n, false),
            rooms: Vec::new(),
            width,
            height,
        }
    }

    /// Carves a straight horizontal run at row `y` between columns `x1` and
    /// `x2` (either order), dropping any write outside the index range.
    fn apply_horizontal_tunnel(&mut self, x1: i32, x2: i32, y: i32)
        requires
            old(self).wf(),
            -0x4000 <= x1 <= 0x4000,
            -0x4000 <= x2 <= 0x4000,
            -0x4000 <= y <= 0x4000,
        ensures
            final(self).wf(),
            forall|i: int|
                0 <= i < final(self).spec_size() ==> final(self).tiles@[i] == (if h_covers(
                    *old(self),
                    x1 as int,
                    x2 as int,
                    y as int,
                    i,
                ) {
                    TileType::Floor
                } else {
                    old(self).tiles@[i]
                }),
            final(self).explored_tiles@ == old(self).explored_tiles@,
            final(self).visible_tiles@ == old(self).visible_tiles@,
            final(self).blocked_tiles@ == old(self).blocked_tiles@,
            final(self).rooms@ == old(self).rooms@,
            final(self).width == old(self).width,
            final(self).height == old(self).height,
    {
        proof {
            self.lemma_size_bound();
        }
        let lo = if x1 <= x2 { x1 } else { x2 };
        let hi = if x1 <= x2 { x2 } else { x1 };
        let w64 = self.width as i64;
        let size64 = (self.width as i64) * (self.height as i64);
        let mut x: i32 = lo;
        while x <= hi
            invariant
                self.wf(),
                lo <= x,
                x <= hi + 1,
                -0x4000 <= lo <= 0x4000,
                -0x4000 <= hi <= 0x4000,
                -0x4000 <= y <= 0x4000,
                w64 == self.width as int,
                size64 == self.spec_size(),
                forall|i: int|
                    0 <= i < self.spec_size() ==> self.tiles@[i] == (if lo <= i - y * self.width
                        && i - y * self.width < x {
                        TileType::Floor
                    } else {
                        old(self).tiles@[i]
                    }),
                self.explored_tiles@ == old(self).explored_tiles@,
                self.visible_tiles@ == old(self).visible_tiles@,
                self.blocked_tiles@ == old(self).blocked_tiles@,
                self.rooms@ == old(self).rooms@,
                self.width == old(self).width,
                self.height == old(self).height,
            decreases hi + 1 - x,
        {
            proof {
                assert(-0x1000_0000 <= (y as int) * (self.width as int) <= 0x1000_0000)
                    by (nonlinear_arith)
                    requires
                        -0x4000 <= y as int <= 0x4000,
                        1 <= self.width as int <= 0x4000,
                ;
            }
            let idx = (y as i64) * w64 + (x as i64);
            if 0 <= idx && idx < size64 {
                self.tiles.set(idx as usize, TileType::Floor);
            }
            x = x + 1;
        }
    }

    /// Carves a straight vertical run at column `x` between rows `y1` and
    /// `y2` (either order), dropping any write outside the index range.
    fn apply_vertical_tunnel(&mut self, y1: i32, y2: i32, x: i32)
        requires
            old(self).wf(),
            -0x4000 <= y1 <= 0x4000,
            -0x4000 <= y2 <= 0x4000,
            -0x4000 <= x <= 0x4000,
        ensures
            final(self).wf(),
            forall|i: int|
                0 <= i < final(self).spec_size() ==> final(self).tiles@[i] == (if v_covers(
                    *old(self),
                    y1 as int,
                    y2 as int,
                    x as int,
                    i,
                ) {
                    TileType::Floor
                } else {
                    old(self).tiles@[i]
                }),
            final(self).explored_tiles@ == old(self).explored_tiles@,
            final(self).visible_tiles@ == old(self).visible_tiles@,
            final(self).blocked_tiles@ == old(self).blocked_tiles@,
            final(self).rooms@ == old(self).rooms@,
            final(self).width == old(self).width,
            final(self).height == old(self).height,
    {
        proof {
            self.lemma_size_bound();
        }
        let lo = if y1 <= y2 { y1 } else { y2 };
        let hi = if y1 <= y2 { y2 } else { y1 };
        let w64 = self.width as i64;
        let size64 = (self.width as i64) * (self.height as i64);
        let mut y: i32 = lo;
        while y <= hi
            invariant
                self.wf(),
                lo <= y,
                y <= hi + 1,
                -0x4000 <= lo <= 0x4000,
                -0x4000 <= hi <= 0x4000,
                -0x4000 <= x <= 0x4000,
                w64 == self.width as int,
                size64 == self.spec_size(),
                forall|i: int|
                    0 <= i < self.spec_size() ==> self.tiles@[i] == (if (i - x) % (
                    self.width as int) == 0 && lo <= (i - x) / (self.width as int) && (i - x) / (
                    self.width as int) < y {
                        TileType::Floor
                    } else {
                        old(self).tiles@[i]
                    }),
                self.explored_tiles@ == old(self).explored_tiles@,
                self.visible_tiles@ == old(self).visible_tiles@,
                self.blocked_tiles@ == old(self).blocked_tiles@,
                self.rooms@ == old(self).rooms@,
                self.width == old(self).width,
                self.height == old(self).height,
            decreases hi + 1 - y,
        {
            proof {
                assert(-0x1000_8000 <= (y as int) * (self.width as int) <= 0x1000_8000)
                    by (nonlinear_arith)
                    requires
                        -0x4000 <= y as int <= 0x4001,
                        1 <= self.width as int <= 0x4000,
                ;
            }
            let idx = (y as i64) * w64 + (x as i64);
            proof {
                vstd::arithmetic::div_mod::lemma_fundamental_div_mod_converse(
                    (y as int) * (self.width as int),
                    self.width as int,
                    y as int,
                    0,
                );
                assert forall|i: int|
                    #![trigger (i - x as int) % (self.width as int)]
                    (i - x as int) % (self.width as int) == 0 && (i - x as int) / (
                    self.width as int) == y as int implies i == (y as int) * (self.width as int)
                    + x as int by {
                    vstd::arithmetic::div_mod::lemma_fundamental_div_mod(
                        i - x as int,
                        self.width as int,
                    );
                };
            }
            if 0 <= idx && idx < size64 {
                self.tiles.set(idx as usize, TileType::Floor);
            }
            y = y + 1;
        }
    }

    /// Carves the interior of `room` (one tile inset from each edge) to
    /// `Floor`.  The room must fit inside the grid.
    fn apply_room_to_map(&mut self, room: &Rect)
        requires
            old(self).wf(),
            room.wf(),
            0 <= room.x1,
            room.x2 <= old(self).width - 1,
            0 <= room.y1,
            room.y2 <= old(self).height - 1,
        ensures
            final(self).wf(),
            forall|i: int|
                0 <= i < final(self).spec_size() ==> final(self).tiles@[i] == (if room_covers(
                    *old(self),
                    *room,
                    i,
                ) {
                    TileType::Floor
                } else {
                    old(self).tiles@[i]
                }),
            final(self).explored_tiles@ == old(self).explored_tiles@,
            final(self).visible_tiles@ == old(self).visible_tiles@,
            final(self).blocked_tiles@ == old(self).blocked_tiles@,
            final(self).rooms@ == old(self).rooms@,
            final(self).width == old(self).width,
            final(self).height == old(self).height,
    {
        let mut y: i32 = room.y1 + 1;
        while y <= room.y2
            invariant
                self.wf(),
                room.wf(),
                0 <= room.x1,
                room.x2 <= self.width - 1,
                0 <= room.y1,
                room.y2 <= self.height - 1,
                room.y1 + 1 <= y <= room.y2 + 1,
                forall|i: int|
                    0 <= i < self.spec_size() ==> self.tiles@[i] == (if room.x1 + 1 <= i % (
                    old(self).width as int) <= room.x2 && room.y1 + 1 <= i / (
                    old(self).width as int) && i / (old(self).width as int) < y {
                        TileType::Floor
                    } else {
                        old(self).tiles@[i]
                    }),
                self.explored_tiles@ == old(self).explored_tiles@,
                self.visible_tiles@ == old(self).visible_tiles@,
                self.blocked_tiles@ == old(self).blocked_tiles@,
                self.rooms@ == old(self).rooms@,
                self.width == old(self).width,
                self.height == old(self).height,
            decreases room.y2 + 1 - y,
        {
            let mut x: i32 = room.x1 + 1;
            while x <= room.x2
                invariant
                    self.wf(),
                    room.wf(),
                    0 <= room.x1,
                    room.x2 <= self.width - 1,
                    0 <= room.y1,
                    room.y2 <= self.height - 1,
                    room.y1 + 1 <= y <= room.y2,
                    room.x1 + 1 <= x <= room.x2 + 1,
                    forall|i: int|
                        0 <= i < self.spec_size() ==> self.tiles@[i] == (if (room.x1 + 1 <= i % (
                        old(self).width as int) <= room.x2 && room.y1 + 1 <= i / (
                        old(self).width as int) && i / (old(self).width as int) < y) || (room.x1
                            + 1 <= i % (old(self).width as int) && i % (old(self).width as int)
                            < x && i / (old(self).width as int) == y) {
                            TileType::Floor
                        } else {
                            old(self).tiles@[i]
                        }),
                    self.explored_tiles@ == old(self).explored_tiles@,
                    self.visible_tiles@ == old(self).visible_tiles@,
                    self.blocked_tiles@ == old(self).blocked_tiles@,
                    self.rooms@ == old(self).rooms@,
                    self.width == old(self).width,
                    self.height == old(self).height,
                decreases room.x2 + 1 - x,
            {
                let idx = self.xy_idx(x, y);
                proof {
                    lemma_idx_round_trip(self.width as int, x as int, y as int);
                    assert forall|i: int|
                        #![trigger i % (old(self).width as int)]
                        0 <= i implies i == (old(self).width as int) * (i / (
                    old(self).width as int)) + i % (old(self).width as int) by {
                        vstd::arithmetic::div_mod::lemma_fundamental_div_mod(
                            i,
                            old(self).width as int,
                        );
                    };
                }
                self.tiles.set(idx, TileType::Floor);
                x = x + 1;
            }
            y = y + 1;
        }
    }

    /// Makes an 80 x 50 map with random rooms and connecting corridors,
    /// drawing all randomness from the given generator.  Whatever values the
    /// generator yields: no two accepted rooms intersect, every room interior
    /// is floor, the border ring stays wall, consecutive room centres are
    /// floor-connected, and at least one room is placed.
    #[verifier::rlimit(100)]
    pub fn new_map_rooms_and_corridors_from(
        rng: &mut bracket_random::prelude::RandomNumberGenerator,
    ) -> (m: GameMap)
        ensures
            m.wf(),
            m.width == 80,
            m.height == 50,
            1 <= m.rooms@.len(),
            rooms_in_grid(m),
            rooms_disjoint(m.rooms@),
            rooms_floored(m),
            border_is_wall(m),
            rooms_linked(m),
            floors_carved(m),
            forall|i: int| 0 <= i < m.spec_size() ==> !m.explored_tiles@[i],
            forall|i: int| 0 <= i < m.spec_size() ==> !m.visible_tiles@[i],
            forall|i: int| 0 <= i < m.spec_size() ==> !m.blocked_tiles@[i],
    {
        let mut map = GameMap::new(80, 50);
        proof {
            assert forall|i: int|
                0 <= i < map.spec_size() && (map.spec_x_of(i) == 0 || map.spec_x_of(i)
                    == map.width - 1 || map.spec_y_of(i) == 0 || map.spec_y_of(i) == map.height
                    - 1) implies map.tiles@[i] == TileType::Wall by {};
        }

        let mut attempt: i32 = 0;
        while attempt < 30
            invariant
                map.wf(),
                map.width == 80,
                map.height == 50,
                rooms_in_grid(map),
                rooms_disjoint(map.rooms@),
                rooms_floored(map),
                border_is_wall(map),
                rooms_linked(map),
                floors_carved(map),
                attempt >= 1 ==> map.rooms@.len() >= 1,
                map.rooms@.len() <= attempt as int,
                0 <= attempt <= 30,
                forall|i: int| 0 <= i < map.spec_size() ==> !map.explored_tiles@[i],
                forall|i: int| 0 <= i < map.spec_size() ==> !map.visible_tiles@[i],
                forall|i: int| 0 <= i < map.spec_size() ==> !map.blocked_tiles@[i],
            decreases 30 - attempt,
        {
            let w = rng_range(rng, 5, 10);
            let h = rng_range(rng, 5, 10);
            let x = rng_roll_dice(rng, 1, 80 - w - 1) - 1;
            let y = rng_roll_dice(rng, 1, 50 - h - 1) - 1;
            let new_room = Rect::new(x, y, w, h);

            let mut ok = true;
            let mut k: usize = 0;
            while k < map.rooms.len()
                invariant
                    0 <= k <= map.rooms@.len(),
                    map.rooms@.len() < 0x1000_0000,
                    ok <==> (forall|j: int|
                        0 <= j < k ==> !new_room.spec_intersect(#[trigger] map.rooms@[j])),
                decreases map.rooms@.len() - k,
            {
                if new_room.intersect(&map.rooms[k]) {
                    ok = false;
                }
                k = k + 1;
            }

            if ok {
                let ghost m0 = map;
                map.apply_room_to_map(&new_room);
                let ghost m1 = map;
                proof {
                    lemma_room_carve_step(m0, m1, new_room);
                    lemma_carve_step_preserves(m0, m1);
                }

                let ghost mut prev_pt = Point { x: 0, y: 0 };
                let ghost mut new_pt = Point { x: 0, y: 0 };
                if map.rooms.len() > 0 {
                    proof {
                        assert(room_in_grid(map, map.rooms@[map.rooms@.len() - 1]));
                        lemma_centre_bounds(map, map.rooms@[map.rooms@.len() - 1]);
                        lemma_centre_bounds(map, new_room);
                    }
                    let prev_room_centre = map.rooms[map.rooms.len() - 1].centre();
                    let new_room_centre = new_room.centre();
                    let (prev_x, prev_y) = prev_room_centre;
                    let (new_x, new_y) = new_room_centre;
                    proof {
                        prev_pt = Point { x: prev_x, y: prev_y };
                        new_pt = Point { x: new_x, y: new_y };
                    }
                    if rng_range(rng, 0, 2) == 1 {
                        map.apply_horizontal_tunnel(prev_x, new_x, prev_y);
                        let ghost m2 = map;
                        map.apply_vertical_tunnel(prev_y, new_y, new_x);
                        let ghost m3 = map;
                        proof {
                            lemma_htunnel_carve_step(
                                m1,
                                m2,
                                prev_x as int,
                                new_x as int,
                                prev_y as int,
                            );
                            lemma_carve_step_preserves(m1, m2);
                            lemma_vtunnel_carve_step(
                                m2,
                                m3,
                                prev_y as int,
                                new_y as int,
                                new_x as int,
                            );
                            lemma_carve_step_preserves(m2, m3);
                            let wd = m3.width as int;
                            assert forall|xx: int|
                                (if prev_x <= new_x {
                                    prev_x as int
                                } else {
                                    new_x as int
                                }) <= xx <= (if prev_x <= new_x {
                                    new_x as int
                                } else {
                                    prev_x as int
                                }) implies #[trigger] m3.tiles@[(prev_y as int) * wd + xx]
                                == TileType::Floor by {
                                lemma_idx_in_range(wd, m3.height as int, xx, prev_y as int);
                                assert(m2.tiles@[(prev_y as int) * wd + xx] == TileType::Floor);
                            };
                            let mid = Point { x: new_x, y: prev_y };
                            lemma_row_connected(m3, prev_pt, mid);
                            lemma_col_connected(m3, mid, new_pt);
                            lemma_connected_trans(m3, prev_pt, mid, new_pt);
                            assert forall|i: int|
                                0 <= i < map.spec_size() && #[trigger] map.tiles@[i]
                                == TileType::Floor implies (m1.tiles@[i] == TileType::Floor
                                || h_covers(map, prev_pt.x as int, new_pt.x as int, prev_pt.y as int, i)
                                || h_covers(map, prev_pt.x as int, new_pt.x as int, new_pt.y as int, i)
                                || v_covers(map, prev_pt.y as int, new_pt.y as int, prev_pt.x as int, i)
                                || v_covers(
                                map,
                                prev_pt.y as int,
                                new_pt.y as int,
                                new_pt.x as int,
                                i,
                            )) by {
                                if !v_covers(m2, prev_y as int, new_y as int, new_x as int, i) {
                                    assert(m2.tiles@[i] == TileType::Floor);
                                }
                            };
                        }
                    } else {
                        map.apply_vertical_tunnel(prev_y, new_y, prev_x);
                        let ghost m2 = map;
                        map.apply_horizontal_tunnel(prev_x, new_x, new_y);
                        let ghost m3 = map;
                        proof {
                            lemma_vtunnel_carve_step(
                                m1,
                                m2,
                                prev_y as int,
                                new_y as int,
                                prev_x as int,
                            );
                            lemma_carve_step_preserves(m1, m2);
                            lemma_htunnel_carve_step(
                                m2,
                                m3,
                                prev_x as int,
                                new_x as int,
                                new_y as int,
                            );
                            lemma_carve_step_preserves(m2, m3);
                            let wd = m3.width as int;
                            assert forall|yy: int|
                                (if prev_y <= new_y {
                                    prev_y as int
                                } else {
                                    new_y as int
                                }) <= yy <= (if prev_y <= new_y {
                                    new_y as int
                                } else {
                                    prev_y as int
                                }) implies #[trigger] m3.tiles@[yy * wd + prev_x as int]
                                == TileType::Floor by {
                                lemma_idx_in_range(wd, m3.height as int, prev_x as int, yy);
                                assert(m2.tiles@[yy * wd + prev_x as int] == TileType::Floor);
                            };
                            let mid = Point { x: prev_x, y: new_y };
                            lemma_col_connected(m3, prev_pt, mid);
                            lemma_row_connected(m3, mid, new_pt);
                            lemma_connected_trans(m3, prev_pt, mid, new_pt);
                            assert forall|i: int|
                                0 <= i < map.spec_size() && #[trigger] map.tiles@[i]
                                == TileType::Floor implies (m1.tiles@[i] == TileType::Floor
                                || h_covers(map, prev_pt.x as int, new_pt.x as int, prev_pt.y as int, i)
                                || h_covers(map, prev_pt.x as int, new_pt.x as int, new_pt.y as int, i)
                                || v_covers(map, prev_pt.y as int, new_pt.y as int, prev_pt.x as int, i)
                                || v_covers(
                                map,
                                prev_pt.y as int,
                                new_pt.y as int,
                                new_pt.x as int,
                                i,
                            )) by {
                                if !h_covers(m2, prev_x as int, new_x as int, new_y as int, i) {
                                    assert(m2.tiles@[i] == TileType::Floor);
                                }
                            };
                        }
                    }
                    proof {
                        assert(floor_connected(map, prev_pt, new_pt));
                        assert(floors_preserved(m1, map)) by {
                            assert forall|i: int|
                                0 <= i < map.spec_size() && m1.tiles@[i] == TileType::Floor
                                implies #[trigger] map.tiles@[i] == TileType::Floor by {};
                        };
                        lemma_room_floor_monotone(m1, map, new_room);
                    }
                }

                let ghost m_before_push = map;
                let ghost had_prev = map.rooms@.len() > 0;
                map.rooms.push(new_room);
                proof {
                    let m4 = map;
                    assert(m4.tiles@ == m_before_push.tiles@);
                    assert(floors_preserved(m_before_push, m4));
                    let n = m4.rooms@.len() as int;
                    assert(m4.rooms@[n - 1] == new_room);
                    assert forall|kk: int| 0 <= kk < n implies room_in_grid(
                        m4,
                        #[trigger] m4.rooms@[kk],
                    ) by {
                        if kk < n - 1 {
                            assert(m4.rooms@[kk] == m_before_push.rooms@[kk]);
                            assert(room_in_grid(m_before_push, m_before_push.rooms@[kk]));
                        }
                    };
                    assert forall|i2: int, j2: int|
                        #![trigger m4.rooms@[i2], m4.rooms@[j2]]
                        0 <= i2 < j2 < n implies !m4.rooms@[i2].spec_intersect(m4.rooms@[j2]) by {
                        if j2 < n - 1 {
                            assert(m4.rooms@[i2] == m_before_push.rooms@[i2]);
                            assert(m4.rooms@[j2] == m_before_push.rooms@[j2]);
                        } else {
                            assert(m4.rooms@[i2] == m_before_push.rooms@[i2]);
                            assert(!new_room.spec_intersect(m_before_push.rooms@[i2]));
                        }
                    };
                    assert forall|kk: int| 0 <= kk < n implies room_interior_floor(
                        m4,
                        #[trigger] m4.rooms@[kk],
                    ) by {
                        if kk < n - 1 {
                            assert(room_interior_floor(m_before_push, m_before_push.rooms@[kk]));
                            lemma_room_floor_monotone(
                                m_before_push,
                                m4,
                                m_before_push.rooms@[kk],
                            );
                        } else {
                            assert(room_interior_floor(m_before_push, new_room));
                            lemma_room_floor_monotone(m_before_push, m4, new_room);
                        }
                    };
                    assert forall|i: int|
                        0 <= i < m4.spec_size() && (m4.spec_x_of(i) == 0 || m4.spec_x_of(i)
                            == m4.width - 1 || m4.spec_y_of(i) == 0 || m4.spec_y_of(i) == m4.height
                            - 1) implies m4.tiles@[i] == TileType::Wall by {
                        assert(m_before_push.tiles@[i] == TileType::Wall);
                    };
                    assert forall|kk: int| 1 <= kk < n implies floor_connected(
                        m4,
                        centre_of(m4.rooms@[kk - 1]),
                        centre_of(#[trigger] m4.rooms@[kk]),
                    ) by {
                        if kk < n - 1 {
                            assert(m4.rooms@[kk - 1] == m_before_push.rooms@[kk - 1]);
                            assert(m4.rooms@[kk] == m_before_push.rooms@[kk]);
                            assert(floor_connected(
                                m_before_push,
                                centre_of(m_before_push.rooms@[kk - 1]),
                                centre_of(m_before_push.rooms@[kk]),
                            ));
                            lemma_connected_monotone(
                                m_before_push,
                                m4,
                                centre_of(m_before_push.rooms@[kk - 1]),
                                centre_of(m_before_push.rooms@[kk]),
                            );
                        } else {
                            assert(had_prev);
                            assert(m4.rooms@[kk - 1] == m_before_push.rooms@[kk - 1]);
                            assert(centre_of(m4.rooms@[kk - 1]) == prev_pt);
                            assert(centre_of(m4.rooms@[kk]) == new_pt);
                            lemma_connected_monotone(m_before_push, m4, prev_pt, new_pt);
                        }
                    };
                    assert forall|i: int|
                        0 <= i < m4.spec_size() && #[trigger] m4.tiles@[i] == TileType::Floor
                        implies (exists|k: int|
                        0 <= k < n && #[trigger] room_covers(m4, m4.rooms@[k], i)) || (exists|
                    k: int|
                        1 <= k < n && #[trigger] corridor_covers(m4, k, i)) by {
                        assert(m4.tiles@[i] == m_before_push.tiles@[i]);
                        if m1.tiles@[i] == TileType::Floor {
                            if room_covers(m0, new_room, i) {
                                assert(room_covers(m4, m4.rooms@[n - 1], i));
                            } else {
                                assert(m0.tiles@[i] == TileType::Floor);
                                if exists|k: int|
                                    0 <= k < m0.rooms@.len() && #[trigger] room_covers(
                                        m0,
                                        m0.rooms@[k],
                                        i,
                                    ) {
                                    let k = choose|k: int|
                                        0 <= k < m0.rooms@.len() && #[trigger] room_covers(
                                            m0,
                                            m0.rooms@[k],
                                            i,
                                        );
                                    assert(m4.rooms@[k] == m0.rooms@[k]);
                                    assert(room_covers(m4, m4.rooms@[k], i));
                                } else {
                                    let k = choose|k: int|
                                        1 <= k < m0.rooms@.len() && #[trigger] corridor_covers(
                                            m0,
                                            k,
                                            i,
                                        );
                                    assert(m4.rooms@[k] == m0.rooms@[k]);
                                    assert(m4.rooms@[k - 1] == m0.rooms@[k - 1]);
                                    assert(corridor_covers(m4, k, i));
                                }
                            }
                        } else {
                            assert(had_prev);
                            assert(m4.rooms@[n - 2] == m_before_push.rooms@[n - 2]);
                            assert(centre_of(m4.rooms@[n - 2]) == prev_pt);
                            assert(centre_of(m4.rooms@[n - 1]) == new_pt);
                            assert(corridor_covers(m4, n - 1, i));
                        }
                    };
                }
            }
            attempt = attempt + 1;
        }
        map
    }

    /// Makes an 80 x 50 map with random rooms and connecting corridors,
    /// seeding the generator from entropy.
    pub fn new_map_rooms_and_corridors() -> (m: GameMap)
        ensures
            m.wf(),
            m.width == 80,
            m.height == 50,
            1 <= m.rooms@.len(),
            rooms_in_grid(m),
            rooms_disjoint(m.rooms@),
            rooms_floored(m),
            border_is_wall(m),
            rooms_linked(m),
            floors_carved(m),
            forall|i: int| 0 <= i < m.spec_size() ==> !m.explored_tiles@[i],
            forall|i: int| 0 <= i < m.spec_size() ==> !m.visible_tiles@[i],
            forall|i: int| 0 <= i < m.spec_size() ==> !m.blocked_tiles@[i],
    {
        let mut rng = rng_new();
        GameMap::new_map_rooms_and_corridors_from(&mut rng)
    }
}

} // verus!
