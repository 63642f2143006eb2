//! The entity-attribute store: parallel typed arenas indexed by entity id,
//! plus the two process-scoped resources every step reads — the map and the
//! published player position — and the log of contact signals.

use vstd::prelude::*;
use vstd::pervasive::VecAdditionalExecFns;

use crate::components::{BlocksTile, Enemy, Name, Player, Point, Position, Viewshed};
use crate::map::GameMap;

verus! {

/// All simulation state: one map, one published player position, and one
/// attribute column per component kind, all indexed by entity id.
pub struct World {
    pub map: GameMap,
    pub player_pos: Point,
    pub positions: Vec<Option<Position>>,
    pub viewsheds: Vec<Option<Viewshed>>,
    pub players: Vec<Option<Player>>,
    pub enemies: Vec<Option<Enemy>>,
    pub blockers: Vec<Option<BlocksTile>>,
    pub names: Vec<Option<Name>>,
    pub contacts: Vec<usize>,
}

impl World {
    /// Number of entities ever spawned.
    pub open spec fn n(self) -> int {
        self.positions@.len() as int
    }

    pub open spec fn has_pos(self, e: int) -> bool {
        0 <= e < self.n() && self.positions@[e] is Some
    }

    pub open spec fn pos_of(self, e: int) -> Position {
        self.positions@[e]->0
    }

    pub open spec fn has_vs(self, e: int) -> bool {
        0 <= e < self.n() && self.viewsheds@[e] is Some
    }

    pub open spec fn vs_of(self, e: int) -> Viewshed {
        self.viewsheds@[e]->0
    }

    pub open spec fn is_player(self, e: int) -> bool {
        0 <= e < self.n() && self.players@[e] is Some
    }

    pub open spec fn is_enemy(self, e: int) -> bool {
        0 <= e < self.n() && self.enemies@[e] is Some
    }

    pub open spec fn is_blocker(self, e: int) -> bool {
        0 <= e < self.n() && self.blockers@[e] is Some
    }

    pub open spec fn has_name(self, e: int) -> bool {
        0 <= e < self.n() && self.names@[e] is Some
    }

    /// Shape invariant: the columns are parallel, every stored position is
    /// inside the map, every viewshed radius is within machine limits, the
    /// published player position is inside the map, and at most one entity
    /// carries the player marker.
    pub open spec fn wf(self) -> bool {
        &&& self.map.wf()
        &&& self.viewsheds@.len() == self.n()
        &&& self.players@.len() == self.n()
        &&& self.enemies@.len() == self.n()
        &&& self.blockers@.len() == self.n()
        &&& self.names@.len() == self.n()
        &&& self.map.in_bounds(self.player_pos.x as int, self.player_pos.y as int)
        &&& forall|e: int|
            #[trigger] self.has_pos(e) ==> self.map.in_bounds(
                self.pos_of(e).x as int,
                self.pos_of(e).y as int,
            )
        &&& forall|e: int| #[trigger] self.has_vs(e) ==> self.vs_of(e).wf()
        &&& forall|e1: int, e2: int|
            self.is_player(e1) && self.is_player(e2) ==> e1 == e2
    }

    /// Well-formedness carries over to a world with the same entity
    /// columns and a well-formed map of the same extents.
    pub proof fn lemma_wf_same_entities(w1: World, w2: World)
        requires
            w1.wf(),
            w2.positions@ == w1.positions@,
            w2.viewsheds@ == w1.viewsheds@,
            w2.players@ == w1.players@,
            w2.enemies@ == w1.enemies@,
            w2.blockers@ == w1.blockers@,
            w2.names@ == w1.names@,
            w2.map.wf(),
            w2.map.width == w1.map.width,
            w2.map.height == w1.map.height,
            w2.map.in_bounds(w2.player_pos.x as int, w2.player_pos.y as int),
        ensures
            w2.wf(),
    {
        assert forall|e: int| #[trigger] w2.has_pos(e) implies w2.map.in_bounds(
            w2.pos_of(e).x as int,
            w2.pos_of(e).y as int,
        ) by {
            assert(w1.has_pos(e));
        };
        assert forall|e: int| #[trigger] w2.has_vs(e) implies w2.vs_of(e).wf() by {
            assert(w1.has_vs(e));
        };
        assert forall|e1: int, e2: int|
            w2.is_player(e1) && w2.is_player(e2) implies e1 == e2 by {
            assert(w1.is_player(e1) && w1.is_player(e2));
        };
    }

    /// A fresh world around a map, with no entities.
    pub fn new(map: GameMap, player_start: Point) -> (w: World)
        requires
            map.wf(),
            map.in_bounds(player_start.x as int, player_start.y as int),
        ensures
            w.wf(),
            w.map == map,
            w.player_pos == player_start,
            w.n() == 0,
            w.contacts@.len() == 0,
    {
        World {
            map,
            player_pos: player_start,
            positions: Vec::new(),
            viewsheds: Vec::new(),
            players: Vec::new(),
            enemies: Vec::new(),
            blockers: Vec::new(),
            names: Vec::new(),
            contacts: Vec::new(),
        }
    }

    /// Spawns the player-controlled entity, and publishes its position.
    pub fn spawn_player(&mut self, p: Point, range: i32) -> (id: usize)
        requires
            old(self).wf(),
            old(self).map.in_bounds(p.x as int, p.y as int),
            0 <= range <= 0x4000,
            forall|e: int| !old(self).is_player(e),
        ensures
            final(self).wf(),
            id == old(self).n(),
            final(self).n() == old(self).n() + 1,
            final(self).positions@ == old(self).positions@.push(
                Some(Position { x: p.x, y: p.y }),
            ),
            final(self).viewsheds@.len() == old(self).n() + 1,
            final(self).has_vs(id as int),
            final(self).vs_of(id as int).visible_tiles@ == Seq::<Point>::empty(),
            final(self).vs_of(id as int).range == range,
            final(self).vs_of(id as int).out_of_date,
            forall|e: int|
                0 <= e < old(self).n() ==> final(self).viewsheds@[e] == old(self).viewsheds@[e],
            final(self).players@.len() == old(self).n() + 1,
            final(self).is_player(id as int),
            forall|e: int|
                0 <= e < old(self).n() ==> final(self).players@[e] == old(self).players@[e],
            final(self).enemies@ == old(self).enemies@.push(None::<Enemy>),
            final(self).blockers@ == old(self).blockers@.push(None::<BlocksTile>),
            final(self).names@.len() == old(self).n() + 1,
            final(self).map == old(self).map,
            final(self).player_pos == p,
            final(self).contacts@ == old(self).contacts@,
    {
        let id = self.positions.len();
        self.positions.push(Some(Position { x: p.x, y: p.y }));
        self.viewsheds.push(Some(Viewshed { visible_tiles: Vec::new(), range, out_of_date: true }));
        self.players.push(Some(Player {}));
        self.enemies.push(None);
        self.blockers.push(None);
        self.names.push(Some(Name { name: String::new() }));
        self.player_pos = p;
        proof {
            assert forall|e: int| #[trigger] self.has_pos(e) implies self.map.in_bounds(
                self.pos_of(e).x as int,
                self.pos_of(e).y as int,
            ) by {
                if e < old(self).n() {
                    assert(old(self).has_pos(e));
                }
            };
            assert forall|e: int| #[trigger] self.has_vs(e) implies self.vs_of(e).wf() by {
                if e < old(self).n() {
                    assert(old(self).has_vs(e));
                }
            };
            assert forall|e1: int, e2: int|
                self.is_player(e1) && self.is_player(e2) implies e1 == e2 by {
                if e1 < old(self).n() {
                    assert(old(self).is_player(e1));
                }
                if e2 < old(self).n() {
                    assert(old(self).is_player(e2));
                }
            };
        }
        id
    }

    /// Spawns a hostile agent with a name and a viewshed.
    pub fn spawn_enemy(&mut self, p: Point, range: i32, name: String) -> (id: usize)
        requires
            old(self).wf(),
            old(self).map.in_bounds(p.x as int, p.y as int),
            0 <= range <= 0x4000,
        ensures
            final(self).wf(),
            id == old(self).n(),
            final(self).n() == old(self).n() + 1,
            final(self).positions@ == old(self).positions@.push(
                Some(Position { x: p.x, y: p.y }),
            ),
            final(self).viewsheds@.len() == old(self).n() + 1,
            final(self).has_vs(id as int),
            final(self).vs_of(id as int).visible_tiles@ == Seq::<Point>::empty(),
            final(self).vs_of(id as int).range == range,
            final(self).vs_of(id as int).out_of_date,
            forall|e: int|
                0 <= e < old(self).n() ==> final(self).viewsheds@[e] == old(self).viewsheds@[e],
            final(self).players@ == old(self).players@.push(None::<Player>),
            final(self).enemies@.len() == old(self).n() + 1,
            final(self).is_enemy(id as int),
            final(self).has_name(id as int),
            forall|e: int|
                0 <= e < old(self).n() ==> final(self).enemies@[e] == old(self).enemies@[e],
            forall|e: int|
                0 <= e < old(self).n() ==> final(self).names@[e] == old(self).names@[e],
            final(self).blockers@ == old(self).blockers@.push(None::<BlocksTile>),
            final(self).map == old(self).map,
            final(self).player_pos == old(self).player_pos,
            final(self).contacts@ == old(self).contacts@,
    {
        let id = self.positions.len();
        self.positions.push(Some(Position { x: p.x, y: p.y }));
        self.viewsheds.push(Some(Viewshed { visible_tiles: Vec::new(), range, out_of_date: true }));
        self.players.push(None);
        self.enemies.push(Some(Enemy {}));
        self.blockers.push(None);
        self.names.push(Some(Name { name }));
        proof {
            assert forall|e: int| #[trigger] self.has_pos(e) implies self.map.in_bounds(
                self.pos_of(e).x as int,
                self.pos_of(e).y as int,
            ) by {
                if e < old(self).n() {
                    assert(old(self).has_pos(e));
                }
            };
            assert forall|e: int| #[trigger] self.has_vs(e) implies self.vs_of(e).wf() by {
                if e < old(self).n() {
                    assert(old(self).has_vs(e));
                }
            };
            assert forall|e1: int, e2: int|
                self.is_player(e1) && self.is_player(e2) implies e1 == e2 by {
                assert(old(self).is_player(e1));
                assert(old(self).is_player(e2));
            };
        }
        id
    }

    /// Spawns a piece of blocking scenery: a position and the blocking
    /// marker, nothing else.
    pub fn spawn_blocker(&mut self, p: Point) -> (id: usize)
        requires
            old(self).wf(),
            old(self).map.in_bounds(p.x as int, p.y as int),
        ensures
            final(self).wf(),
            id == old(self).n(),
            final(self).n() == old(self).n() + 1,
            final(self).positions@ == old(self).positions@.push(
                Some(Position { x: p.x, y: p.y }),
            ),
            final(self).viewsheds@ == old(self).viewsheds@.push(None::<Viewshed>),
            final(self).players@ == old(self).players@.push(None::<Player>),
            final(self).enemies@ == old(self).enemies@.push(None::<Enemy>),
            final(self).blockers@.len() == old(self).n() + 1,
            final(self).is_blocker(id as int),
            forall|e: int|
                0 <= e < old(self).n() ==> final(self).blockers@[e] == old(self).blockers@[e],
            final(self).map == old(self).map,
            final(self).player_pos == old(self).player_pos,
            final(self).contacts@ == old(self).contacts@,
    {
        let id = self.positions.len();
        self.positions.push(Some(Position { x: p.x, y: p.y }));
        self.viewsheds.push(None);
        self.players.push(None);
        self.enemies.push(None);
        self.blockers.push(Some(BlocksTile {}));
        self.names.push(None);
        proof {
            assert forall|e: int| #[trigger] self.has_pos(e) implies self.map.in_bounds(
                self.pos_of(e).x as int,
                self.pos_of(e).y as int,
            ) by {
                if e < old(self).n() {
                    assert(old(self).has_pos(e));
                }
            };
            assert forall|e: int| #[trigger] self.has_vs(e) implies self.vs_of(e).wf() by {
                if e < old(self).n() {
                    assert(old(self).has_vs(e));
                }
            };
            assert forall|e1: int, e2: int|
                self.is_player(e1) && self.is_player(e2) implies e1 == e2 by {
                assert(old(self).is_player(e1));
                assert(old(self).is_player(e2));
            };
        }
        id
    }
}

} // verus!
