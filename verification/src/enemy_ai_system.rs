//! The hostile-agent step: every enemy that currently sees the published
//! player position either emits a contact signal (when adjacent, including
//! diagonals) and stops the whole step, or takes one path-search step
//! toward the player through the shared movement validation.

use vstd::prelude::*;

use crate::components::{dist_sq, spec_dist_sq, Point, Position};
use crate::path::{find_path, reachable};
use crate::player::try_move_entity;
use crate::visibility_system::pos_pt;
use crate::world::World;

verus! {

/// The agent acts this turn: it carries the hostile marker, a name, a
/// position and a viewshed, and the published player position is among its
/// currently recorded visible tiles.
pub open spec fn acts(w: World, e: int) -> bool {
    &&& w.is_enemy(e)
    &&& w.has_name(e)
    &&& w.has_pos(e)
    &&& w.has_vs(e)
    &&& w.vs_of(e).tiles_set().contains(w.player_pos)
}

/// Adjacent to the player, diagonals included: squared distance at most 2.
pub open spec fn adjacent_to_player(w: World, e: int) -> bool {
    spec_dist_sq(pos_pt(w, e), w.player_pos) <= 2
}

/// The agent both acts and stands adjacent: it emits the contact signal.
pub open spec fn contact_at(w: World, e: int) -> bool {
    acts(w, e) && adjacent_to_player(w, e)
}

/// No agent with a smaller id emits a contact this turn, so processing
/// reaches entity `e`.
pub open spec fn reached(w: World, e: int) -> bool {
    forall|c: int| 0 <= c < e ==> !#[trigger] contact_at(w, c)
}

pub open spec fn is_first_contact(w: World, c: int) -> bool {
    contact_at(w, c) && reached(w, c)
}

/// The agent takes a movement step this turn.
pub open spec fn mover(w: World, e: int) -> bool {
    reached(w, e) && acts(w, e) && !adjacent_to_player(w, e)
}

pub open spec fn agent_idx(w: World, e: int) -> int {
    w.map.spec_idx(w.pos_of(e).x as int, w.pos_of(e).y as int)
}

pub open spec fn player_idx(w: World) -> int {
    w.map.spec_idx(w.player_pos.x as int, w.player_pos.y as int)
}

/// The agent moved one step: to some valid exit of its cell, with its
/// viewshed marked stale.
pub open spec fn moved_enemy(w1: World, w2: World, e: int) -> bool {
    exists|step: int|
        {
            &&& #[trigger] w1.map.spec_valid_exit(agent_idx(w1, e), step)
            &&& w2.positions@[e] == Some(
                Position {
                    x: w1.map.spec_x_of(step) as i32,
                    y: w1.map.spec_y_of(step) as i32,
                },
            )
            &&& w2.viewsheds@[e] is Some
            &&& w2.viewsheds@[e]->0.visible_tiles@ == w1.vs_of(e).visible_tiles@
            &&& w2.viewsheds@[e]->0.range == w1.vs_of(e).range
            &&& w2.viewsheds@[e]->0.out_of_date
        }
}

/// What the hostile-agent step does to the world, provided the player is
/// not itself hostile: agents act in id order; the first adjacent seeing
/// agent appends a contact signal and ends the step; every earlier seeing
/// agent takes one step toward the player when a route exists; everything
/// else is untouched.
pub open spec fn enemy_post(w1: World, w2: World) -> bool {
    &&& w2.map.tiles@ == w1.map.tiles@
    &&& w2.map.explored_tiles@ == w1.map.explored_tiles@
    &&& w2.map.visible_tiles@ == w1.map.visible_tiles@
    &&& w2.map.blocked_tiles@ == w1.map.blocked_tiles@
    &&& w2.map.rooms@ == w1.map.rooms@
    &&& w2.map.width == w1.map.width
    &&& w2.map.height == w1.map.height
    &&& w2.players@ == w1.players@
    &&& w2.enemies@ == w1.enemies@
    &&& w2.blockers@ == w1.blockers@
    &&& w2.names@ == w1.names@
    &&& w2.player_pos == w1.player_pos
    &&& w2.positions@.len() == w1.positions@.len()
    &&& w2.viewsheds@.len() == w1.viewsheds@.len()
    &&& (exists|c: int| is_first_contact(w1, c)) ==> (exists|c: usize|
        #[trigger] is_first_contact(w1, c as int) && w2.contacts@ == w1.contacts@.push(c))
    &&& (forall|c: int| !#[trigger] is_first_contact(w1, c)) ==> w2.contacts@ == w1.contacts@
    &&& forall|e: int|
        0 <= e < w1.n() && !(#[trigger] mover(w1, e)) ==> w2.positions@[e] == w1.positions@[e]
            && w2.viewsheds@[e] == w1.viewsheds@[e]
    &&& forall|e: int|
        0 <= e < w1.n() && #[trigger] mover(w1, e) ==> (if reachable(
            w1.map,
            agent_idx(w1, e),
            player_idx(w1),
        ) {
            moved_enemy(w1, w2, e)
        } else {
            w2.positions@[e] == w1.positions@[e] && w2.viewsheds@[e] == w1.viewsheds@[e]
        })
}

/// Runs the hostile agents, in entity order.
pub struct EnemyAI {}

impl EnemyAI {
    #[verifier::rlimit(100)]
    pub fn run(&mut self, world: &mut World)
        requires
            old(world).wf(),
            forall|e: int| !(old(world).is_player(e) && old(world).is_enemy(e)),
        ensures
            final(world).wf(),
            enemy_post(*old(world), *final(world)),
    {
        let ghost w0 = *world;
        let n = world.positions.len();
        let mut e: usize = 0;
        while e < n
            invariant
                w0 == *old(world),
                w0.wf(),
                world.wf(),
                forall|e2: int| !(w0.is_player(e2) && w0.is_enemy(e2)),
                n == w0.n(),
                world.n() == n,
                0 <= e <= n,
                world.map == w0.map,
                world.players@ == w0.players@,
                world.enemies@ == w0.enemies@,
                world.blockers@ == w0.blockers@,
                world.names@ == w0.names@,
                world.contacts@ == w0.contacts@,
                world.player_pos == w0.player_pos,
                world.positions@.len() == n,
                world.viewsheds@.len() == n,
                forall|e2: int|
                    e <= e2 < n ==> #[trigger] world.positions@[e2] == w0.positions@[e2],
                forall|e2: int|
                    e <= e2 < n ==> #[trigger] world.viewsheds@[e2] == w0.viewsheds@[e2],
                reached(w0, e as int),
                forall|e2: int|
                    0 <= e2 < e && !(#[trigger] mover(w0, e2)) ==> world.positions@[e2]
                        == w0.positions@[e2] && world.viewsheds@[e2] == w0.viewsheds@[e2],
                forall|e2: int|
                    0 <= e2 < e && #[trigger] mover(w0, e2) ==> (if reachable(
                        w0.map,
                        agent_idx(w0, e2),
                        player_idx(w0),
                    ) {
                        moved_enemy(w0, *world, e2)
                    } else {
                        world.positions@[e2] == w0.positions@[e2] && world.viewsheds@[e2]
                            == w0.viewsheds@[e2]
                    }),
            decreases n - e,
        {
            let is_enemy = match &world.enemies[e] {
                Some(_) => true,
                None => false,
            };
            let has_name = match &world.names[e] {
                Some(_) => true,
                None => false,
            };
            let has_position = match &world.positions[e] {
                Some(_) => true,
                None => false,
            };
            let sees_player = match &world.viewsheds[e] {
                Some(vs) => vs.contains(world.player_pos),
                None => false,
            };
            proof {
                assert(world.positions@[e as int] == w0.positions@[e as int]);
                assert(world.viewsheds@[e as int] == w0.viewsheds@[e as int]);
            }
            if is_enemy && has_name && has_position && sees_player {
                proof {
                    assert(acts(w0, e as int));
                }
                let (px, py) = match &world.positions[e] {
                    Some(p) => (p.x, p.y),
                    None => (0, 0),
                };
                proof {
                    assert(world.has_pos(e as int));
                }
                let distance_sq = dist_sq(Point { x: px, y: py }, world.player_pos);
                if distance_sq <= 2 {
                    // attack goes here later: emit the contact signal and
                    // stop processing further agents this turn
                    let ghost w_pc = *world;
                    world.contacts.push(e);
                    proof {
                        World::lemma_wf_same_entities(w_pc, *world);
                        assert(contact_at(w0, e as int));
                        assert(is_first_contact(w0, e as int));
                        assert(world.contacts@ == w0.contacts@.push(e));
                        assert forall|e2: int|
                            0 <= e2 < n && !(#[trigger] mover(w0, e2)) implies
                            world.positions@[e2] == w0.positions@[e2] && world.viewsheds@[e2]
                            == w0.viewsheds@[e2] by {
                            if e2 >= e {
                                assert(world.positions@[e2] == w0.positions@[e2]);
                            }
                        };
                        assert forall|e2: int|
                            0 <= e2 < n && #[trigger] mover(w0, e2) implies (if reachable(
                            w0.map,
                            agent_idx(w0, e2),
                            player_idx(w0),
                        ) {
                            moved_enemy(w0, *world, e2)
                        } else {
                            world.positions@[e2] == w0.positions@[e2] && world.viewsheds@[e2]
                                == w0.viewsheds@[e2]
                        }) by {
                            if e2 >= e {
                                assert(contact_at(w0, e as int));
                                assert(!reached(w0, e2) || e2 == e as int);
                            }
                        };
                    }
                    return ;
                }
                proof {
                    assert(mover(w0, e as int));
                    assert(spec_dist_sq(pos_pt(w0, e as int), w0.player_pos) > 2);
                }
                let start_idx = world.map.xy_idx(px, py);
                let goal_idx = world.map.xy_idx(world.player_pos.x, world.player_pos.y);
                proof {
                    assert(w0.has_pos(e as int));
                    assert(pos_pt(w0, e as int) == Point { x: px, y: py });
                    if agent_idx(w0, e as int) == player_idx(w0) {
                        crate::map::lemma_idx_round_trip(
                            w0.map.width as int,
                            px as int,
                            py as int,
                        );
                        crate::map::lemma_idx_round_trip(
                            w0.map.width as int,
                            w0.player_pos.x as int,
                            w0.player_pos.y as int,
                        );
                        assert(agent_idx(w0, e as int) == (py as int) * (w0.map.width as int)
                            + px as int);
                        assert(player_idx(w0) == (w0.player_pos.y as int) * (
                        w0.map.width as int) + w0.player_pos.x as int);
                        assert(((py as int) * (w0.map.width as int) + px as int) % (
                        w0.map.width as int) == px as int);
                        assert(((w0.player_pos.y as int) * (w0.map.width as int)
                            + w0.player_pos.x as int) % (w0.map.width as int)
                            == w0.player_pos.x as int);
                        assert(px == w0.player_pos.x && py == w0.player_pos.y);
                        let dxc = px as int - w0.player_pos.x as int;
                        let dyc = py as int - w0.player_pos.y as int;
                        assert(dxc * dxc + dyc * dyc == 0) by (nonlinear_arith)
                            requires
                                dxc == 0,
                                dyc == 0,
                        ;
                        assert(spec_dist_sq(pos_pt(w0, e as int), w0.player_pos) == dxc * dxc
                            + dyc * dyc);
                        assert(false);
                    }
                }
                let path = find_path(&world.map, start_idx, goal_idx);
                match path {
                    Some(steps) => {
                        if steps.len() > 1 {
                            let step = steps[1];
                            proof {
                                assert(world.map.spec_valid_exit(start_idx as int, step as int));
                                world.map.lemma_valid_exit_bounds(start_idx as int, step as int);
                            }
                            let sp = world.map.idx_xy(step);
                            let ghost w_pre = *world;
                            try_move_entity(world, e, sp.x - px, sp.y - py);
                            proof {
                                assert(!crate::player::move_blocked(
                                    w_pre,
                                    e as int,
                                    sp.x - px,
                                    sp.y - py,
                                )) by {
                                    assert(crate::player::move_dest_x(
                                        w_pre,
                                        e as int,
                                        sp.x - px,
                                    ) == sp.x as int);
                                    assert(crate::player::move_dest_y(
                                        w_pre,
                                        e as int,
                                        sp.y - py,
                                    ) == sp.y as int);
                                };
                                assert(moved_enemy(w0, *world, e as int)) by {
                                    assert(w0.map.spec_valid_exit(
                                        agent_idx(w0, e as int),
                                        step as int,
                                    ));
                                    assert(world.positions@[e as int] == Some(
                                        Position {
                                            x: w0.map.spec_x_of(step as int) as i32,
                                            y: w0.map.spec_y_of(step as int) as i32,
                                        },
                                    ));
                                };
                                assert(!w0.is_player(e as int));
                                assert(world.player_pos == w0.player_pos);
                            }
                        } else {
                            proof {
                                assert(steps@.len() >= 2);
                                assert(false);
                            }
                        }
                    },
                    None => {
                        proof {
                            assert(!reachable(w0.map, agent_idx(w0, e as int), player_idx(w0)));
                        }
                    },
                }
            } else {
                proof {
                    assert(!acts(w0, e as int));
                }
            }
            e = e + 1;
        }
        proof {
            assert forall|c: int| !#[trigger] is_first_contact(w0, c) by {
                if 0 <= c < n {
                    assert(reached(w0, n as int));
                    assert(!contact_at(w0, c));
                } else {
                    assert(!contact_at(w0, c));
                }
            };
        }
    }
}

} // verus!
