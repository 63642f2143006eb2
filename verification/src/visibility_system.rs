//! The visibility step: recomputes every stale viewshed via field of view,
//! and — for the player only — fully rewrites the global visible grid and
//! extends the explored grid.  A viewshed is never recomputed while its
//! staleness flag is false.

use vstd::prelude::*;
use vstd::pervasive::VecAdditionalExecFns;

use crate::components::{Point, Viewshed};
use crate::fov::{field_of_view, lemma_visible_from_same_terrain, visible_from};
use crate::world::World;

verus! {

/// The entity owns both a position and a viewshed.
pub open spec fn vs_active(w: World, e: int) -> bool {
    w.has_pos(e) && w.has_vs(e)
}

/// The entity's viewshed is due for recomputation.
pub open spec fn vs_stale(w: World, e: int) -> bool {
    vs_active(w, e) && w.vs_of(e).out_of_date
}

/// The entity's position, as a grid point.
pub open spec fn pos_pt(w: World, e: int) -> Point {
    Point { x: w.pos_of(e).x, y: w.pos_of(e).y }
}

/// A stale player viewshed: the one case that rewrites the global grids.
pub open spec fn player_stale(w: World, e: int) -> bool {
    vs_stale(w, e) && w.is_player(e)
}

/// The viewshed of `e` in `w2` holds exactly the points seen from its
/// position in `w1`, with the staleness flag cleared.
pub open spec fn vs_recomputed(w1: World, w2: World, e: int) -> bool {
    &&& w2.viewsheds@[e] is Some
    &&& w2.viewsheds@[e]->0.range == w1.vs_of(e).range
    &&& !w2.viewsheds@[e]->0.out_of_date
    &&& forall|p: Point|
        #[trigger] w2.viewsheds@[e]->0.visible_tiles@.contains(p) <==> visible_from(
            w1.map,
            pos_pt(w1, e),
            w1.vs_of(e).range,
            p,
        )
}

/// The global grids after a player recompute: the visible grid holds
/// exactly what the player now sees, and the explored grid has grown by it.
pub open spec fn grids_updated(w1: World, w2: World, e: int) -> bool {
    &&& w2.map.visible_tiles@.len() == w1.map.visible_tiles@.len()
    &&& w2.map.explored_tiles@.len() == w1.map.explored_tiles@.len()
    &&& forall|i: int|
        0 <= i < w1.map.spec_size() ==> #[trigger] w2.map.visible_tiles@[i] == visible_from(
            w1.map,
            pos_pt(w1, e),
            w1.vs_of(e).range,
            Point { x: w1.map.spec_x_of(i) as i32, y: w1.map.spec_y_of(i) as i32 },
        )
    &&& forall|i: int|
        0 <= i < w1.map.spec_size() ==> #[trigger] w2.map.explored_tiles@[i] == (
        w1.map.explored_tiles@[i] || w2.map.visible_tiles@[i])
}

/// What the visibility step does to the world: every stale viewshed is
/// recomputed and cleared, every other viewshed is untouched, the global
/// grids are rewritten exactly when some stale viewshed belongs to the
/// player, and everything else is unchanged.
pub open spec fn vis_post(w1: World, w2: World) -> bool {
    &&& w2.positions@ == w1.positions@
    &&& w2.players@ == w1.players@
    &&& w2.enemies@ == w1.enemies@
    &&& w2.blockers@ == w1.blockers@
    &&& w2.names@ == w1.names@
    &&& w2.contacts@ == w1.contacts@
    &&& w2.player_pos == w1.player_pos
    &&& w2.map.tiles@ == w1.map.tiles@
    &&& w2.map.blocked_tiles@ == w1.map.blocked_tiles@
    &&& w2.map.rooms@ == w1.map.rooms@
    &&& w2.map.width == w1.map.width
    &&& w2.map.height == w1.map.height
    &&& w2.viewsheds@.len() == w1.viewsheds@.len()
    &&& forall|e: int|
        0 <= e < w1.n() && !vs_stale(w1, e) ==> #[trigger] w2.viewsheds@[e] == w1.viewsheds@[e]
    &&& forall|e: int| #[trigger] vs_stale(w1, e) ==> vs_recomputed(w1, w2, e)
    &&& (forall|e: int| !#[trigger] player_stale(w1, e)) ==> (w2.map.visible_tiles@
        == w1.map.visible_tiles@ && w2.map.explored_tiles@ == w1.map.explored_tiles@)
    &&& forall|e: int| #[trigger] player_stale(w1, e) ==> grids_updated(w1, w2, e)
}

/// Recomputing twice in succession is a no-op: after one visibility pass no
/// viewshed is stale, so a second pass leaves the world exactly as it was.
pub proof fn lemma_visibility_idempotent(a: World, b: World, c: World)
    requires
        a.wf(),
        vis_post(a, b),
        vis_post(b, c),
    ensures
        c.viewsheds@ == b.viewsheds@,
        c.map.visible_tiles@ == b.map.visible_tiles@,
        c.map.explored_tiles@ == b.map.explored_tiles@,
        c.map.tiles@ == b.map.tiles@,
        c.map.blocked_tiles@ == b.map.blocked_tiles@,
        c.positions@ == b.positions@,
        c.player_pos == b.player_pos,
        c.contacts@ == b.contacts@,
{
    assert forall|e: int| !#[trigger] vs_stale(b, e) by {
        if 0 <= e < b.n() {
            if vs_stale(a, e) {
                assert(vs_recomputed(a, b, e));
            } else {
                if 0 <= e < a.n() {
                    assert(b.viewsheds@[e] == a.viewsheds@[e]);
                }
            }
        }
    };
    assert forall|e: int| 0 <= e < b.n() implies #[trigger] c.viewsheds@[e] == b.viewsheds@[e] by {
        assert(!vs_stale(b, e));
    };
    assert(c.viewsheds@ =~= b.viewsheds@);
    assert forall|e: int| !#[trigger] player_stale(b, e) by {
        assert(!vs_stale(b, e));
    };
    assert(c.map.visible_tiles@ == b.map.visible_tiles@);
    assert(c.map.explored_tiles@ == b.map.explored_tiles@);
}

/// Exploration memory is persistent: the visibility step only ever sets
/// explored cells, it never clears one.
pub proof fn lemma_explored_monotone(w1: World, w2: World)
    requires
        w1.wf(),
        vis_post(w1, w2),
    ensures
        forall|i: int|
            0 <= i < w1.map.spec_size() && #[trigger] w1.map.explored_tiles@[i]
                ==> w2.map.explored_tiles@[i],
{
    assert forall|i: int|
        0 <= i < w1.map.spec_size() && #[trigger] w1.map.explored_tiles@[i] implies
        w2.map.explored_tiles@[i] by {
        if exists|e: int| #[trigger] player_stale(w1, e) {
            let e = choose|e: int| #[trigger] player_stale(w1, e);
            assert(grids_updated(w1, w2, e));
        }
    };
}

/// Recomputes stale viewsheds and refreshes the global grids.
pub struct VisibilitySystem {}

impl VisibilitySystem {
    #[verifier::rlimit(100)]
    pub fn run(&mut self, world: &mut World)
        requires
            old(world).wf(),
        ensures
            final(world).wf(),
            vis_post(*old(world), *final(world)),
    {
        let ghost w0 = *world;
        let n = world.positions.len();
        let mut e: usize = 0;
        while e < n
            invariant
                w0 == w0,
                w0.wf(),
                world.wf(),
                n == w0.n(),
                world.n() == n,
                0 <= e <= n,
                world.positions@ == w0.positions@,
                world.players@ == w0.players@,
                world.enemies@ == w0.enemies@,
                world.blockers@ == w0.blockers@,
                world.names@ == w0.names@,
                world.contacts@ == w0.contacts@,
                world.player_pos == w0.player_pos,
                world.map.tiles@ == w0.map.tiles@,
                world.map.blocked_tiles@ == w0.map.blocked_tiles@,
                world.map.rooms@ == w0.map.rooms@,
                world.map.width == w0.map.width,
                world.map.height == w0.map.height,
                world.viewsheds@.len() == n,
                forall|e2: int|
                    e <= e2 < n ==> #[trigger] world.viewsheds@[e2] == w0.viewsheds@[e2],
                forall|e2: int|
                    0 <= e2 < e && !vs_stale(w0, e2) ==> #[trigger] world.viewsheds@[e2]
                        == w0.viewsheds@[e2],
                forall|e2: int|
                    0 <= e2 < e && #[trigger] vs_stale(w0, e2) ==> vs_recomputed(
                        w0,
                        *world,
                        e2,
                    ),
                (forall|e2: int| 0 <= e2 < e ==> !#[trigger] player_stale(w0, e2)) ==> (
                world.map.visible_tiles@ == w0.map.visible_tiles@
                    && world.map.explored_tiles@ == w0.map.explored_tiles@),
                forall|e2: int|
                    0 <= e2 < e && #[trigger] player_stale(w0, e2) ==> grids_updated(
                        w0,
                        *world,
                        e2,
                    ),
            decreases n - e,
        {
            let has_position = match &world.positions[e] {
                Some(_) => true,
                None => false,
            };
            let (stale, range) = match &world.viewsheds[e] {
                Some(vs) => (vs.out_of_date, vs.range),
                None => (false, 0),
            };
            if has_position && stale {
                proof {
                    assert(vs_stale(w0, e as int));
                    assert(w0.has_vs(e as int));
                    assert(w0.vs_of(e as int).wf());
                    assert(w0.has_pos(e as int));
                }
                let (px, py) = match &world.positions[e] {
                    Some(p) => (p.x, p.y),
                    None => (0, 0),
                };
                let origin = Point { x: px, y: py };
                let pts = field_of_view(&world.map, origin, range);
                proof {
                    lemma_visible_from_same_terrain(
                        world.map,
                        w0.map,
                        origin,
                        range,
                    );
                }
                let is_player = match &world.players[e] {
                    Some(_) => true,
                    None => false,
                };
                if is_player {
                    proof {
                        assert(player_stale(w0, e as int));
                    }
                    proof {
                        world.map.lemma_size_bound();
                    }
                    let size = (world.map.width as usize) * (world.map.height as usize);
                    let ghost w_mid = *world;
                    let mut i: usize = 0;
                    while i < size
                        invariant
                            w_mid.wf(),
                            size == w_mid.map.spec_size(),
                            0 <= i <= size,
                            world.map.tiles@ == w_mid.map.tiles@,
                            world.map.explored_tiles@ == w_mid.map.explored_tiles@,
                            world.map.blocked_tiles@ == w_mid.map.blocked_tiles@,
                            world.map.rooms@ == w_mid.map.rooms@,
                            world.map.width == w_mid.map.width,
                            world.map.height == w_mid.map.height,
                            world.positions@ == w_mid.positions@,
                            world.viewsheds@ == w_mid.viewsheds@,
                            world.players@ == w_mid.players@,
                            world.enemies@ == w_mid.enemies@,
                            world.blockers@ == w_mid.blockers@,
                            world.names@ == w_mid.names@,
                            world.contacts@ == w_mid.contacts@,
                            world.player_pos == w_mid.player_pos,
                            world.map.visible_tiles@.len() == size,
                            forall|i2: int| 0 <= i2 < i ==> !(#[trigger] world.map.visible_tiles@[i2]),
                            forall|i2: int|
                                i <= i2 < size ==> #[trigger] world.map.visible_tiles@[i2]
                                    == w_mid.map.visible_tiles@[i2],
                        decreases size - i,
                    {
                        world.map.visible_tiles.set(i, false);
                        i = i + 1;
                    }
                    proof {
                        assert(world.map.wf());
                        World::lemma_wf_same_entities(w_mid, *world);
                    }
                    let ghost w_reset = *world;
                    let mut k: usize = 0;
                    while k < pts.len()
                        invariant
                            w_reset.wf(),
                            w0.wf(),
                            size == w_reset.map.spec_size(),
                            w0.map.wf(),
                            w_reset.map.tiles@ == w0.map.tiles@,
                            w_reset.map.width == w0.map.width,
                            w_reset.map.height == w0.map.height,
                            w_reset.map.explored_tiles@ == w0.map.explored_tiles@,
                            0 <= k <= pts@.len(),
                            forall|p: Point|
                                pts@.contains(p) <==> visible_from(
                                    w0.map,
                                    origin,
                                    range,
                                    p,
                                ),
                            forall|i2: int, j2: int|
                                0 <= i2 < j2 < pts@.len() ==> pts@[i2] != pts@[j2],
                            world.map.tiles@ == w_reset.map.tiles@,
                            world.map.blocked_tiles@ == w_reset.map.blocked_tiles@,
                            world.map.rooms@ == w_reset.map.rooms@,
                            world.map.width == w_reset.map.width,
                            world.map.height == w_reset.map.height,
                            world.positions@ == w_reset.positions@,
                            world.viewsheds@ == w_reset.viewsheds@,
                            world.players@ == w_reset.players@,
                            world.enemies@ == w_reset.enemies@,
                            world.blockers@ == w_reset.blockers@,
                            world.names@ == w_reset.names@,
                            world.contacts@ == w_reset.contacts@,
                            world.player_pos == w_reset.player_pos,
                            world.map.visible_tiles@.len() == size,
                            world.map.explored_tiles@.len() == size,
                            forall|i2: int|
                                0 <= i2 < size ==> #[trigger] world.map.visible_tiles@[i2] == (
                                exists|k2: int|
                                    0 <= k2 < k && w0.map.spec_idx(
                                        pts@[k2].x as int,
                                        pts@[k2].y as int,
                                    ) == i2),
                            forall|i2: int|
                                0 <= i2 < size ==> #[trigger] world.map.explored_tiles@[i2] == (
                                w0.map.explored_tiles@[i2]
                                    || world.map.visible_tiles@[i2]),
                        decreases pts@.len() - k,
                    {
                        let p = pts[k];
                        proof {
                            assert(pts@.contains(pts@[k as int]));
                            assert(visible_from(w0.map, origin, range, p));
                        }
                        let idx = world.map.xy_idx(p.x, p.y);
                        world.map.explored_tiles.set(idx, true);
                        world.map.visible_tiles.set(idx, true);
                        proof {
                            assert forall|i2: int|
                                0 <= i2 < size implies #[trigger] world.map.visible_tiles@[i2]
                                == (exists|k2: int|
                                0 <= k2 < k + 1 && w0.map.spec_idx(
                                    pts@[k2].x as int,
                                    pts@[k2].y as int,
                                ) == i2) by {
                                if i2 == idx as int {
                                    assert(w0.map.spec_idx(
                                        pts@[k as int].x as int,
                                        pts@[k as int].y as int,
                                    ) == i2);
                                } else {
                                    if exists|k2: int|
                                        0 <= k2 < k + 1 && w0.map.spec_idx(
                                            pts@[k2].x as int,
                                            pts@[k2].y as int,
                                        ) == i2 {
                                        let k2 = choose|k2: int|
                                            0 <= k2 < k + 1 && w0.map.spec_idx(
                                                pts@[k2].x as int,
                                                pts@[k2].y as int,
                                            ) == i2;
                                        assert(k2 != k as int);
                                        assert(exists|k3: int|
                                            0 <= k3 < k && w0.map.spec_idx(
                                                pts@[k3].x as int,
                                                pts@[k3].y as int,
                                            ) == i2);
                                    }
                                }
                            };
                        }
                        k = k + 1;
                    }
                    proof {
                        assert forall|i2: int|
                            0 <= i2 < size implies #[trigger] world.map.visible_tiles@[i2]
                            == visible_from(
                            w0.map,
                            pos_pt(w0, e as int),
                            w0.vs_of(e as int).range,
                            Point {
                                x: w0.map.spec_x_of(i2) as i32,
                                y: w0.map.spec_y_of(i2) as i32,
                            },
                        ) by {
                            let q = Point {
                                x: w0.map.spec_x_of(i2) as i32,
                                y: w0.map.spec_y_of(i2) as i32,
                            };
                            w0.map.lemma_decode(i2);
                            if world.map.visible_tiles@[i2] {
                                let k2 = choose|k2: int|
                                    0 <= k2 < pts@.len() && w0.map.spec_idx(
                                        pts@[k2].x as int,
                                        pts@[k2].y as int,
                                    ) == i2;
                                assert(pts@.contains(pts@[k2]));
                                assert(visible_from(w0.map, origin, range, pts@[k2]));
                                crate::map::lemma_idx_round_trip(
                                    w0.map.width as int,
                                    pts@[k2].x as int,
                                    pts@[k2].y as int,
                                );
                                assert(pts@[k2] == q);
                            } else {
                                if visible_from(w0.map, origin, range, q) {
                                    assert(pts@.contains(q));
                                    let k2 = choose|k2: int|
                                        0 <= k2 < pts@.len() && pts@[k2] == q;
                                    assert(w0.map.spec_idx(
                                        pts@[k2].x as int,
                                        pts@[k2].y as int,
                                    ) == i2);
                                    assert(false);
                                }
                            }
                        };
                    }
                }
                let ghost w_grids = *world;
                world.viewsheds.set(
                    e,
                    Some(Viewshed { visible_tiles: pts, range, out_of_date: false }),
                );
                proof {
                    assert forall|e2: int| #[trigger] world.has_pos(e2) implies world.map.in_bounds(
                        world.pos_of(e2).x as int,
                        world.pos_of(e2).y as int,
                    ) by {
                        assert(w0.has_pos(e2));
                    };
                    assert forall|e1: int, e2: int|
                        world.is_player(e1) && world.is_player(e2) implies e1 == e2 by {
                        assert(w0.is_player(e1) && w0.is_player(e2));
                    };
                    assert forall|e2: int| #[trigger] world.has_vs(e2) implies world.vs_of(
                        e2,
                    ).wf() by {
                        if e2 != e as int {
                            assert(w0.has_vs(e2));
                        }
                    };
                    assert(vs_recomputed(w0, *world, e as int));
                    assert forall|e2: int|
                        0 <= e2 < e + 1 && #[trigger] player_stale(w0, e2) implies
                        grids_updated(w0, *world, e2) by {
                        if e2 == e as int {
                            assert(player_stale(w0, e2) == (is_player
                                && vs_stale(w0, e2)));
                        } else {
                            assert(!player_stale(w0, e2) || grids_updated(
                                w0,
                                w_grids,
                                e2,
                            ));
                        }
                    };
                }
            }
            e = e + 1;
        }
    }
}

} // verus!
