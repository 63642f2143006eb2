//! The turn scheduler: a two-state machine that runs the full step
//! pipeline — indexing, then visibility, then hostile agents — exactly once
//! per accepted input intent, and never on a tick without one.

use vstd::prelude::*;

use crate::enemy_ai_system::{enemy_post, EnemyAI};
use crate::map_indexing_system::{index_post, MapIndexingSystem};
use crate::player::{move_post, try_move_player};
use crate::visibility_system::{vis_post, VisibilitySystem};
use crate::world::World;

verus! {

/// The scheduler's two states.  `Paused` awaits input; `Running` lasts for
/// the one pipeline pass of an accepted intent and reverts before the tick
/// ends.
#[derive(Clone, Copy, PartialEq, Eq, Structural, Debug)]
pub enum RunState {
    Paused,
    Running,
}

/// A decoded movement intent: the direction vector of one accepted key.
#[derive(Clone, Copy, PartialEq, Eq, Structural, Debug)]
pub struct MoveIntent {
    pub dx: i32,
    pub dy: i32,
}

/// No entity carries both the player and the hostile marker.
pub open spec fn markers_disjoint(w: World) -> bool {
    forall|e: int| !(#[trigger] w.is_player(e) && w.is_enemy(e))
}

/// What validated player movement does to the world: the move relation for
/// the (single) player-marked entity, or no change when none exists.
pub open spec fn player_move_post(w1: World, w2: World, dx: int, dy: int) -> bool {
    &&& forall|e: int|
        w1.is_player(e) && w1.has_pos(e) && w1.has_vs(e) ==> #[trigger] move_post(
            w1,
            w2,
            e,
            dx,
            dy,
        )
    &&& (forall|e: int| !(w1.is_player(e) && w1.has_pos(e) && w1.has_vs(e))) ==> w2 == w1
}

/// One full pass of the step pipeline, in the fixed order: indexing, then
/// visibility, then hostile agents.
pub open spec fn pipeline_post(w0: World, w3: World) -> bool {
    exists|w1: World, w2: World|
        #[trigger] index_post(w0, w1) && #[trigger] vis_post(w1, w2) && enemy_post(w2, w3)
}

/// The scheduler: the world plus the run state.
pub struct State {
    pub world: World,
    pub run_state: RunState,
}

impl State {
    /// A fresh scheduler, awaiting input.
    pub fn new(world: World) -> (s: State)
        requires
            world.wf(),
        ensures
            s.world == world,
            s.run_state == RunState::Paused,
    {
        State { world, run_state: RunState::Paused }
    }

    /// Runs the step pipeline exactly once, in the fixed order.
    pub fn update_systems(&mut self)
        requires
            old(self).world.wf(),
            markers_disjoint(old(self).world),
        ensures
            final(self).world.wf(),
            pipeline_post(old(self).world, final(self).world),
            final(self).run_state == old(self).run_state,
            markers_disjoint(final(self).world),
    {
        let ghost v0 = self.world;
        let mut indexing = MapIndexingSystem {};
        indexing.run(&mut self.world);
        let ghost v1 = self.world;
        let mut vis = VisibilitySystem {};
        vis.run(&mut self.world);
        let ghost v2 = self.world;
        proof {
            assert forall|e: int| !(#[trigger] v2.is_player(e) && v2.is_enemy(e)) by {
                assert(!(v0.is_player(e) && v0.is_enemy(e)));
            };
        }
        let mut ai = EnemyAI {};
        ai.run(&mut self.world);
        proof {
            assert(index_post(v0, v1) && vis_post(v1, v2) && enemy_post(v2, self.world));
            assert(pipeline_post(v0, self.world));
            assert forall|e: int|
                !(#[trigger] self.world.is_player(e) && self.world.is_enemy(e)) by {
                assert(!(v0.is_player(e) && v0.is_enemy(e)));
            };
        }
    }

    /// Processes one tick.  A tick with no intent changes nothing and
    /// consumes no turn.  A tick with an intent validates the player's
    /// move, flips to `Running`, runs the pipeline exactly once, reverts to
    /// awaiting input, and reports that a turn was consumed.
    pub fn tick(&mut self, intent: Option<MoveIntent>) -> (turn: bool)
        requires
            old(self).world.wf(),
            markers_disjoint(old(self).world),
        ensures
            final(self).world.wf(),
            markers_disjoint(final(self).world),
            intent is None ==> *final(self) == *old(self) && !turn,
            intent is Some ==> {
                &&& turn
                &&& final(self).run_state == RunState::Paused
                &&& exists|wm: World|
                    #[trigger] player_move_post(
                        old(self).world,
                        wm,
                        intent->0.dx as int,
                        intent->0.dy as int,
                    ) && pipeline_post(wm, final(self).world)
            },
    {
        match intent {
            None => false,
            Some(mi) => {
                try_move_player(mi.dx, mi.dy, &mut self.world);
                let ghost wm = self.world;
                proof {
                    assert(player_move_post(
                        old(self).world,
                        wm,
                        mi.dx as int,
                        mi.dy as int,
                    ));
                    assert forall|e: int|
                        !(#[trigger] self.world.is_player(e) && self.world.is_enemy(e)) by {
                        if exists|e2: int|
                            old(self).world.is_player(e2) && old(self).world.has_pos(e2) && old(
                                self,
                            ).world.has_vs(e2) {
                            let e2 = choose|e2: int|
                                old(self).world.is_player(e2) && old(self).world.has_pos(e2)
                                    && old(self).world.has_vs(e2);
                            assert(move_post(
                                old(self).world,
                                self.world,
                                e2,
                                mi.dx as int,
                                mi.dy as int,
                            ));
                            assert(self.world.players@ == old(self).world.players@);
                            assert(self.world.enemies@ == old(self).world.enemies@);
                            assert(!(old(self).world.is_player(e) && old(
                                self,
                            ).world.is_enemy(e)));
                        } else {
                            assert(self.world == old(self).world);
                            assert(!(old(self).world.is_player(e) && old(
                                self,
                            ).world.is_enemy(e)));
                        }
                    };
                }
                self.run_state = RunState::Running;
                self.update_systems();
                self.run_state = RunState::Paused;
                proof {
                    assert(player_move_post(
                        old(self).world,
                        wm,
                        mi.dx as int,
                        mi.dy as int,
                    ) && pipeline_post(wm, self.world));
                }
                true
            },
        }
    }
}

} // verus!
