//! Movement validation, shared by player input and hostile-agent movement.
//!
//! The requested delta is clamped to the grid first; the move is then
//! rejected, with no state change at all, exactly when the clamped
//! destination's blocked-grid entry is set.  An accepted move writes the
//! new position, marks the mover's viewshed stale, and — for the player —
//! synchronously republishes the player-position resource.

use vstd::prelude::*;
use vstd::pervasive::VecAdditionalExecFns;

use crate::components::{Point, Position, Viewshed};
use crate::world::World;

verus! {

pub open spec fn spec_clamp(v: int, lo: int, hi: int) -> int {
    if v < lo {
        lo
    } else if v > hi {
        hi
    } else {
        v
    }
}

/// The destination of a move: the delta applied to the entity's position,
/// clamped to the grid on both axes.
pub open spec fn move_dest_x(w: World, e: int, dx: int) -> int {
    spec_clamp(w.pos_of(e).x + dx, 0, w.map.width - 1)
}

pub open spec fn move_dest_y(w: World, e: int, dy: int) -> int {
    spec_clamp(w.pos_of(e).y + dy, 0, w.map.height - 1)
}

/// The clamped destination's blocked-grid entry decides the move.
pub open spec fn move_blocked(w: World, e: int, dx: int, dy: int) -> bool {
    w.map.blocked_tiles@[w.map.spec_idx(move_dest_x(w, e, dx), move_dest_y(w, e, dy))]
}

/// What one validated move does to the world: nothing when the clamped
/// destination is blocked; otherwise the position becomes the clamped
/// destination, the viewshed goes stale, and a player move republishes the
/// player position.  Everything else is untouched.
pub open spec fn move_post(w1: World, w2: World, e: int, dx: int, dy: int) -> bool {
    if move_blocked(w1, e, dx, dy) {
        w2 == w1
    } else {
        &&& w2.positions@ == w1.positions@.update(
            e,
            Some(
                Position {
                    x: move_dest_x(w1, e, dx) as i32,
                    y: move_dest_y(w1, e, dy) as i32,
                },
            ),
        )
        &&& w2.viewsheds@ == w1.viewsheds@.update(
            e,
            Some(
                Viewshed {
                    visible_tiles: w1.vs_of(e).visible_tiles,
                    range: w1.vs_of(e).range,
                    out_of_date: true,
                },
            ),
        )
        &&& w2.player_pos == (if w1.is_player(e) {
            Point { x: move_dest_x(w1, e, dx) as i32, y: move_dest_y(w1, e, dy) as i32 }
        } else {
            w1.player_pos
        })
        &&& w2.map == w1.map
        &&& w2.players@ == w1.players@
        &&& w2.enemies@ == w1.enemies@
        &&& w2.blockers@ == w1.blockers@
        &&& w2.names@ == w1.names@
        &&& w2.contacts@ == w1.contacts@
    }
}

/// After the indexing step has rebuilt the blocked grid, a move is
/// rejected exactly when its clamped destination is a wall or is occupied
/// by an entity carrying the blocking marker.
pub proof fn lemma_move_blocked_after_indexing(w0: World, w: World, e: int, dx: int, dy: int)
    requires
        w0.wf(),
        w.wf(),
        crate::map_indexing_system::index_post(w0, w),
        w.has_pos(e),
    ensures
        move_blocked(w, e, dx, dy) <==> (w0.map.tiles@[w.map.spec_idx(
            move_dest_x(w, e, dx),
            move_dest_y(w, e, dy),
        )] == crate::map::TileType::Wall || exists|b: int|
            crate::map_indexing_system::blocker_at(
                w0,
                b,
                w.map.spec_idx(move_dest_x(w, e, dx), move_dest_y(w, e, dy)),
            )),
{
    let tx = move_dest_x(w, e, dx);
    let ty = move_dest_y(w, e, dy);
    crate::map::lemma_idx_in_range(w.map.width as int, w.map.height as int, tx, ty);
    assert(0 <= w.map.spec_idx(tx, ty) < w0.map.spec_size());
}

/// Validated movement for any entity with a position and a viewshed.
pub fn try_move_entity(world: &mut World, e: usize, delta_x: i32, delta_y: i32)
    requires
        old(world).wf(),
        old(world).has_pos(e as int),
        old(world).has_vs(e as int),
    ensures
        final(world).wf(),
        move_post(*old(world), *final(world), e as int, delta_x as int, delta_y as int),
{
    let w_minus_1 = world.map.width - 1;
    let h_minus_1 = world.map.height - 1;
    let (px, py) = match &world.positions[e] {
        Some(p) => (p.x, p.y),
        None => (0, 0),
    };
    let tx64 = px as i64 + delta_x as i64;
    let ty64 = py as i64 + delta_y as i64;
    let tx: i32 = if tx64 < 0 {
        0
    } else if tx64 > w_minus_1 as i64 {
        w_minus_1
    } else {
        tx64 as i32
    };
    let ty: i32 = if ty64 < 0 {
        0
    } else if ty64 > h_minus_1 as i64 {
        h_minus_1
    } else {
        ty64 as i32
    };
    proof {
        assert(tx as int == move_dest_x(*old(world), e as int, delta_x as int));
        assert(ty as int == move_dest_y(*old(world), e as int, delta_y as int));
    }
    let destination_idx = world.map.xy_idx(tx, ty);
    if world.map.blocked_tiles[destination_idx] {
        return ;
    }
    // actually cause movement
    world.positions.set(e, Some(Position { x: tx, y: ty }));
    let mut taken: Option<Viewshed> = None;
    world.viewsheds.set_and_swap(e, &mut taken);
    match taken {
        Some(vs) => {
            world.viewsheds.set(
                e,
                Some(
                    Viewshed {
                        visible_tiles: vs.visible_tiles,
                        range: vs.range,
                        out_of_date: true,
                    },
                ),
            );
        },
        None => {
            proof {
                assert(false);
            }
        },
    }
    let is_player = match &world.players[e] {
        Some(_) => true,
        None => false,
    };
    if is_player {
        world.player_pos = Point { x: tx, y: ty };
    }
    proof {
        assert(world.viewsheds@ =~= old(world).viewsheds@.update(
            e as int,
            Some(
                Viewshed {
                    visible_tiles: old(world).vs_of(e as int).visible_tiles,
                    range: old(world).vs_of(e as int).range,
                    out_of_date: true,
                },
            ),
        ));
        assert forall|e2: int| #[trigger] world.has_pos(e2) implies world.map.in_bounds(
            world.pos_of(e2).x as int,
            world.pos_of(e2).y as int,
        ) by {
            if e2 != e as int {
                assert(old(world).has_pos(e2));
            }
        };
        assert forall|e2: int| #[trigger] world.has_vs(e2) implies world.vs_of(e2).wf() by {
            if e2 != e as int {
                assert(old(world).has_vs(e2));
            } else {
                assert(old(world).has_vs(e2));
            }
        };
        assert forall|e1: int, e2: int|
            world.is_player(e1) && world.is_player(e2) implies e1 == e2 by {
            assert(old(world).is_player(e1) && old(world).is_player(e2));
        };
    }
}

/// Player movement: applies the delta to every entity carrying the player
/// marker, a position and a viewshed — at most one exists.
pub fn try_move_player(delta_x: i32, delta_y: i32, world: &mut World)
    requires
        old(world).wf(),
    ensures
        final(world).wf(),
        forall|e: int|
            old(world).is_player(e) && old(world).has_pos(e) && old(world).has_vs(e)
                ==> move_post(*old(world), *final(world), e, delta_x as int, delta_y as int),
        (forall|e: int|
            !(old(world).is_player(e) && old(world).has_pos(e) && old(world).has_vs(e)))
            ==> *final(world) == *old(world),
{
    let n = world.positions.len();
    let mut e: usize = 0;
    while e < n
        invariant
            old(world).wf(),
            world.wf(),
            n == old(world).n(),
            world.n() == n,
            0 <= e <= n,
            forall|e2: int|
                0 <= e2 < e && old(world).is_player(e2) && old(world).has_pos(e2) && old(
                    world,
                ).has_vs(e2) ==> move_post(*old(world), *world, e2, delta_x as int, delta_y as int),
            (forall|e2: int|
                0 <= e2 < e ==> !(old(world).is_player(e2) && old(world).has_pos(e2) && old(
                    world,
                ).has_vs(e2))) ==> *world == *old(world),
            *world == *old(world) || (exists|e2: int|
                0 <= e2 < e && old(world).is_player(e2) && old(world).has_pos(e2) && old(
                    world,
                ).has_vs(e2)),
        decreases n - e,
    {
        let has_player = match &world.players[e] {
            Some(_) => true,
            None => false,
        };
        let has_position = match &world.positions[e] {
            Some(_) => true,
            None => false,
        };
        let has_viewshed = match &world.viewsheds[e] {
            Some(_) => true,
            None => false,
        };
        if has_player && has_position && has_viewshed {
            proof {
                assert(*world == *old(world)) by {
                    if exists|e2: int|
                        0 <= e2 < e && old(world).is_player(e2) && old(world).has_pos(e2) && old(
                            world,
                        ).has_vs(e2) {
                        let e2 = choose|e2: int|
                            0 <= e2 < e && old(world).is_player(e2) && old(world).has_pos(e2)
                                && old(world).has_vs(e2);
                        assert(move_post(
                            *old(world),
                            *world,
                            e2,
                            delta_x as int,
                            delta_y as int,
                        ));
                        assert(world.players@ == old(world).players@);
                        assert(old(world).is_player(e as int));
                        assert(old(world).is_player(e2));
                        assert(false);
                    }
                };
            }
            try_move_entity(world, e, delta_x, delta_y);
        }
        e = e + 1;
    }
}

} // verus!
