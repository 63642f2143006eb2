//! Simulation tests: movement validation, the indexing step, hostile-agent
//! behaviour, and the turn scheduler's one-pipeline-per-intent guarantee.

use rogue_core::components::Point;
use rogue_core::enemy_ai_system::EnemyAI;
use rogue_core::map::{GameMap, TileType};
use rogue_core::map_indexing_system::MapIndexingSystem;
use rogue_core::player::{try_move_entity, try_move_player};
use rogue_core::state::{MoveIntent, RunState, State};
use rogue_core::visibility_system::VisibilitySystem;
use rogue_core::world::World;

fn open_map(width: i32, height: i32) -> GameMap {
    let n = (width * height) as usize;
    GameMap {
        tiles: vec![TileType::Floor; n],
        explored_tiles: vec![false; n],
        visible_tiles: vec![false; n],
        blocked_tiles: vec![false; n],
        rooms: Vec::new(),
        width,
        height,
    }
}

fn pos_of(w: &World, e: usize) -> (i32, i32) {
    let p = w.positions[e].as_ref().unwrap();
    (p.x, p.y)
}

#[test]
fn move_into_free_cell_updates_position_and_staleness() {
    let m = open_map(20, 20);
    let mut w = World::new(m, Point { x: 10, y: 10 });
    let id = w.spawn_player(Point { x: 10, y: 10 }, 8);
    // clear the flag first so the move's re-staling is observable
    let mut vis = VisibilitySystem {};
    vis.run(&mut w);
    assert!(!w.viewsheds[id].as_ref().unwrap().out_of_date);
    try_move_player(1, 0, &mut w);
    assert_eq!(pos_of(&w, id), (11, 10));
    assert!(w.viewsheds[id].as_ref().unwrap().out_of_date);
    assert_eq!((w.player_pos.x, w.player_pos.y), (11, 10));
}

#[test]
fn move_into_wall_is_rejected_without_change() {
    let mut m = open_map(20, 20);
    let wall = m.xy_idx(11, 10);
    m.tiles[wall] = TileType::Wall;
    let mut w = World::new(m, Point { x: 10, y: 10 });
    let id = w.spawn_player(Point { x: 10, y: 10 }, 8);
    let mut indexing = MapIndexingSystem {};
    indexing.run(&mut w);
    try_move_player(1, 0, &mut w);
    assert_eq!(pos_of(&w, id), (10, 10));
    assert_eq!((w.player_pos.x, w.player_pos.y), (10, 10));
}

#[test]
fn move_into_blocking_entity_is_rejected() {
    let m = open_map(20, 20);
    let mut w = World::new(m, Point { x: 10, y: 10 });
    let id = w.spawn_player(Point { x: 10, y: 10 }, 8);
    w.spawn_blocker(Point { x: 10, y: 11 });
    let mut indexing = MapIndexingSystem {};
    indexing.run(&mut w);
    try_move_player(0, 1, &mut w);
    assert_eq!(pos_of(&w, id), (10, 10));
}

#[test]
fn move_is_clamped_to_the_grid_before_the_block_check() {
    let m = open_map(20, 20);
    let mut w = World::new(m, Point { x: 1, y: 1 });
    let id = w.spawn_player(Point { x: 1, y: 1 }, 8);
    try_move_player(-5, 0, &mut w);
    assert_eq!(pos_of(&w, id), (0, 1));
    try_move_player(0, 100, &mut w);
    assert_eq!(pos_of(&w, id), (0, 19));
}

#[test]
fn indexing_rebuilds_blocked_from_walls_and_entities() {
    let mut m = open_map(20, 20);
    let wall = m.xy_idx(3, 3);
    m.tiles[wall] = TileType::Wall;
    let mut w = World::new(m, Point { x: 10, y: 10 });
    w.spawn_blocker(Point { x: 5, y: 5 });
    let mut indexing = MapIndexingSystem {};
    indexing.run(&mut w);
    let scenery = w.map.xy_idx(5, 5);
    let free = w.map.xy_idx(7, 7);
    assert!(w.map.blocked_tiles[wall]);
    assert!(w.map.blocked_tiles[scenery]);
    assert!(!w.map.blocked_tiles[free]);
}

fn run_pipeline(w: &mut World) {
    let mut indexing = MapIndexingSystem {};
    indexing.run(w);
    let mut vis = VisibilitySystem {};
    vis.run(w);
    let mut ai = EnemyAI {};
    ai.run(w);
}

#[test]
fn adjacent_enemy_emits_contact_and_stays_put() {
    let m = open_map(30, 30);
    let mut w = World::new(m, Point { x: 10, y: 10 });
    w.spawn_player(Point { x: 10, y: 10 }, 8);
    let enemy = w.spawn_enemy(Point { x: 11, y: 10 }, 8, String::from("Goblin"));
    run_pipeline(&mut w);
    assert_eq!(w.contacts, vec![enemy]);
    assert_eq!(pos_of(&w, enemy), (11, 10));
}

#[test]
fn first_contact_stops_further_agents() {
    let m = open_map(30, 30);
    let mut w = World::new(m, Point { x: 10, y: 10 });
    w.spawn_player(Point { x: 10, y: 10 }, 8);
    let first = w.spawn_enemy(Point { x: 11, y: 10 }, 8, String::from("Goblin"));
    let second = w.spawn_enemy(Point { x: 10, y: 11 }, 8, String::from("Orc"));
    run_pipeline(&mut w);
    // only the first adjacent agent signals; the second is not processed
    assert_eq!(w.contacts, vec![first]);
    assert_eq!(pos_of(&w, second), (10, 11));
}

#[test]
fn distant_enemy_approaches_one_step_along_the_row() {
    let m = open_map(30, 30);
    let mut w = World::new(m, Point { x: 10, y: 10 });
    w.spawn_player(Point { x: 10, y: 10 }, 8);
    let enemy = w.spawn_enemy(Point { x: 5, y: 10 }, 8, String::from("Goblin"));
    run_pipeline(&mut w);
    // the unique shortest path runs straight along the row
    assert_eq!(pos_of(&w, enemy), (6, 10));
    assert!(w.viewsheds[enemy].as_ref().unwrap().out_of_date);
    assert!(w.contacts.is_empty());
}

#[test]
fn enemy_without_sight_of_player_holds_position() {
    let mut m = open_map(30, 30);
    // a wall column between enemy and player blocks the line of sight
    for y in 0..30 {
        let idx = m.xy_idx(8, y);
        m.tiles[idx] = TileType::Wall;
    }
    let mut w = World::new(m, Point { x: 10, y: 10 });
    w.spawn_player(Point { x: 10, y: 10 }, 8);
    let enemy = w.spawn_enemy(Point { x: 5, y: 10 }, 8, String::from("Goblin"));
    run_pipeline(&mut w);
    assert_eq!(pos_of(&w, enemy), (5, 10));
    assert!(w.contacts.is_empty());
}

#[test]
fn tick_without_intent_changes_nothing() {
    let m = open_map(30, 30);
    let mut w = World::new(m, Point { x: 10, y: 10 });
    w.spawn_player(Point { x: 10, y: 10 }, 8);
    let enemy = w.spawn_enemy(Point { x: 5, y: 10 }, 8, String::from("Goblin"));
    let mut s = State::new(w);
    assert_eq!(s.run_state, RunState::Paused);
    for _ in 0..10 {
        let turn = s.tick(None);
        assert!(!turn);
    }
    assert_eq!(pos_of(&s.world, enemy), (5, 10));
    assert!(s.world.map.explored_tiles.iter().all(|&b| !b));
}

#[test]
fn pipeline_runs_exactly_once_per_accepted_intent() {
    let m = open_map(30, 30);
    let mut w = World::new(m, Point { x: 10, y: 10 });
    w.spawn_player(Point { x: 10, y: 10 }, 8);
    let enemy = w.spawn_enemy(Point { x: 4, y: 10 }, 8, String::from("Goblin"));
    let mut s = State::new(w);
    // ten empty ticks, then one accepted intent
    for _ in 0..10 {
        assert!(!s.tick(None));
    }
    assert_eq!(pos_of(&s.world, enemy), (4, 10));
    let turn = s.tick(Some(MoveIntent { dx: 0, dy: 0 }));
    assert!(turn);
    assert_eq!(s.run_state, RunState::Paused);
    // the hostile agent advanced exactly one step: one pipeline pass in
    // eleven ticks
    assert_eq!(pos_of(&s.world, enemy), (5, 10));
}

#[test]
fn accepted_intent_moves_player_before_the_pipeline() {
    let m = open_map(30, 30);
    let mut w = World::new(m, Point { x: 10, y: 10 });
    let player = w.spawn_player(Point { x: 10, y: 10 }, 8);
    let mut s = State::new(w);
    let turn = s.tick(Some(MoveIntent { dx: 1, dy: 0 }));
    assert!(turn);
    assert_eq!(pos_of(&s.world, player), (11, 10));
    // visibility ran after the move: the new cell is explored
    let at = s.world.map.xy_idx(11, 10);
    assert!(s.world.map.explored_tiles[at]);
    assert!(!s.world.viewsheds[player].as_ref().unwrap().out_of_date);
}

#[test]
fn rejected_move_still_consumes_the_turn() {
    let mut m = open_map(30, 30);
    let wall = m.xy_idx(11, 10);
    m.tiles[wall] = TileType::Wall;
    let mut w = World::new(m, Point { x: 10, y: 10 });
    let player = w.spawn_player(Point { x: 10, y: 10 }, 8);
    w.map.populate_blocked();
    let mut s = State::new(w);
    let turn = s.tick(Some(MoveIntent { dx: 1, dy: 0 }));
    assert!(turn);
    assert_eq!(pos_of(&s.world, player), (10, 10));
}

#[test]
fn entity_move_helper_respects_blocked_grid() {
    let m = open_map(20, 20);
    let mut w = World::new(m, Point { x: 3, y: 3 });
    let id = w.spawn_enemy(Point { x: 3, y: 3 }, 8, String::from("Goblin"));
    try_move_entity(&mut w, id, 1, 1);
    assert_eq!(pos_of(&w, id), (4, 4));
    // enemy moves never republish the player position
    assert_eq!((w.player_pos.x, w.player_pos.y), (3, 3));
}
