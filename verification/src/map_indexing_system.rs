//! The map-indexing step: rebuilds the blocked grid each turn from the
//! static wall tiles plus every entity carrying both a position and the
//! blocking marker.

use vstd::prelude::*;
use vstd::pervasive::VecAdditionalExecFns;

use crate::map::TileType;
use crate::world::World;

verus! {

/// Entity `e` blocks grid index `i`.
pub open spec fn blocker_at(w: World, e: int, i: int) -> bool {
    &&& w.has_pos(e)
    &&& w.is_blocker(e)
    &&& w.map.spec_idx(w.pos_of(e).x as int, w.pos_of(e).y as int) == i
}

/// What the indexing step does to the world: the blocked grid is fully
/// rebuilt — a cell is blocked iff it is a wall or some blocking entity
/// stands on it — and nothing else changes.
pub open spec fn index_post(w1: World, w2: World) -> bool {
    &&& w2.map.blocked_tiles@.len() == w1.map.blocked_tiles@.len()
    &&& forall|i: int|
        0 <= i < w1.map.spec_size() ==> #[trigger] w2.map.blocked_tiles@[i] == (w1.map.tiles@[i]
            == TileType::Wall || exists|e: int| blocker_at(w1, e, i))
    &&& w2.map.tiles@ == w1.map.tiles@
    &&& w2.map.explored_tiles@ == w1.map.explored_tiles@
    &&& w2.map.visible_tiles@ == w1.map.visible_tiles@
    &&& w2.map.rooms@ == w1.map.rooms@
    &&& w2.map.width == w1.map.width
    &&& w2.map.height == w1.map.height
    &&& w2.player_pos == w1.player_pos
    &&& w2.positions@ == w1.positions@
    &&& w2.viewsheds@ == w1.viewsheds@
    &&& w2.players@ == w1.players@
    &&& w2.enemies@ == w1.enemies@
    &&& w2.blockers@ == w1.blockers@
    &&& w2.names@ == w1.names@
    &&& w2.contacts@ == w1.contacts@
}

/// Rebuilds the blocked grid: walls first, then blocking entities.
pub struct MapIndexingSystem {}

impl MapIndexingSystem {
    pub fn run(&mut self, world: &mut World)
        requires
            old(world).wf(),
        ensures
            final(world).wf(),
            index_post(*old(world), *final(world)),
    {
        // block out wall tiles
        world.map.populate_blocked();
        proof {
            World::lemma_wf_same_entities(*old(world), *world);
            assert forall|i: int|
                0 <= i < world.map.spec_size() implies #[trigger] world.map.blocked_tiles@[i] == (
            old(world).map.tiles@[i] == TileType::Wall || exists|e: int|
                0 <= e < 0 && blocker_at(*old(world), e, i)) by {};
        }

        // for each entity that blocks movement, mark its cell blocked
        let n = world.positions.len();
        let mut e: usize = 0;
        while e < n
            invariant
                old(world).wf(),
                world.wf(),
                n == old(world).n(),
                world.n() == n,
                0 <= e <= n,
                world.positions@ == old(world).positions@,
                world.viewsheds@ == old(world).viewsheds@,
                world.players@ == old(world).players@,
                world.enemies@ == old(world).enemies@,
                world.blockers@ == old(world).blockers@,
                world.names@ == old(world).names@,
                world.contacts@ == old(world).contacts@,
                world.player_pos == old(world).player_pos,
                world.map.tiles@ == old(world).map.tiles@,
                world.map.explored_tiles@ == old(world).map.explored_tiles@,
                world.map.visible_tiles@ == old(world).map.visible_tiles@,
                world.map.rooms@ == old(world).map.rooms@,
                world.map.width == old(world).map.width,
                world.map.height == old(world).map.height,
                forall|i: int|
                    0 <= i < world.map.spec_size() ==> #[trigger] world.map.blocked_tiles@[i] == (
                old(world).map.tiles@[i] == TileType::Wall || exists|e2: int|
                    0 <= e2 < e && blocker_at(*old(world), e2, i)),
            decreases n - e,
        {
            let has_position = match &world.positions[e] {
                Some(_) => true,
                None => false,
            };
            let has_blocker = match &world.blockers[e] {
                Some(_) => true,
                None => false,
            };
            if has_position && has_blocker {
                let (px, py) = match &world.positions[e] {
                    Some(p) => (p.x, p.y),
                    None => (0, 0),
                };
                proof {
                    assert(world.has_pos(e as int));
                }
                let idx = world.map.xy_idx(px, py);
                let ghost w_pre = *world;
                world.map.blocked_tiles.set(idx, true);
                proof {
                    World::lemma_wf_same_entities(w_pre, *world);
                    assert(blocker_at(*old(world), e as int, idx as int));
                    assert forall|i: int|
                        0 <= i < world.map.spec_size() implies
                        #[trigger] world.map.blocked_tiles@[i] == (old(world).map.tiles@[i]
                        == TileType::Wall || exists|e2: int|
                        0 <= e2 < e + 1 && blocker_at(*old(world), e2, i)) by {
                        if i == idx as int {
                            assert(exists|e2: int|
                                0 <= e2 < e + 1 && blocker_at(*old(world), e2, i));
                        } else {
                            if exists|e2: int| 0 <= e2 < e + 1 && blocker_at(*old(world), e2, i) {
                                let e2 = choose|e2: int|
                                    0 <= e2 < e + 1 && blocker_at(*old(world), e2, i);
                                assert(e2 < e || e2 == e as int);
                                if e2 == e as int {
                                    assert(false);
                                }
                                assert(exists|e3: int|
                                    0 <= e3 < e && blocker_at(*old(world), e3, i));
                            }
                        }
                    };
                }
            } else {
                proof {
                    assert forall|i: int|
                        0 <= i < world.map.spec_size() implies
                        #[trigger] world.map.blocked_tiles@[i] == (old(world).map.tiles@[i]
                        == TileType::Wall || exists|e2: int|
                        0 <= e2 < e + 1 && blocker_at(*old(world), e2, i)) by {
                        if exists|e2: int| 0 <= e2 < e + 1 && blocker_at(*old(world), e2, i) {
                            let e2 = choose|e2: int|
                                0 <= e2 < e + 1 && blocker_at(*old(world), e2, i);
                            if e2 == e as int {
                                assert(false);
                            }
                            assert(exists|e3: int| 0 <= e3 < e && blocker_at(*old(world), e3, i));
                        }
                    };
                }
            }
            e = e + 1;
        }
        proof {
            assert forall|i: int|
                0 <= i < old(world).map.spec_size() implies
                #[trigger] world.map.blocked_tiles@[i] == (old(world).map.tiles@[i]
                == TileType::Wall || exists|e2: int| blocker_at(*old(world), e2, i)) by {
                if exists|e2: int| blocker_at(*old(world), e2, i) {
                    let e2 = choose|e2: int| blocker_at(*old(world), e2, i);
                    assert(0 <= e2 < n && blocker_at(*old(world), e2, i));
                }
            };
        }
    }
}

} // verus!
