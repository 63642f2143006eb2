//! Field-of-view and visibility-step tests: range limits, wall occlusion,
//! idempotent recomputation, and exploration memory.

use rogue_core::components::Point;
use rogue_core::fov::field_of_view;
use rogue_core::map::{GameMap, TileType};
use rogue_core::visibility_system::VisibilitySystem;
use rogue_core::world::World;

fn open_map(width: i32, height: i32) -> GameMap {
    let n = (width * height) as usize;
    GameMap {
        tiles: vec![TileType::Floor; n],
        explored_tiles: vec![false; n],
        visible_tiles: vec![false; n],
        blocked_tiles: vec![false; n],
        rooms: Vec::new(),
        width,
        height,
    }
}

fn contains(v: &[Point], x: i32, y: i32) -> bool {
    v.iter().any(|p| p.x == x && p.y == y)
}

#[test]
fn fov_includes_origin_and_respects_range() {
    let m = open_map(40, 40);
    let v = field_of_view(&m, Point { x: 20, y: 20 }, 8);
    assert!(contains(&v, 20, 20));
    assert!(contains(&v, 28, 20));
    assert!(contains(&v, 20, 12));
    // 9 cells away: outside the radius
    assert!(!contains(&v, 29, 20));
    // corner of the bounding square: distance sqrt(128) > 8
    assert!(!contains(&v, 28, 28));
}

#[test]
fn fov_points_are_in_bounds_and_unique() {
    let m = open_map(12, 12);
    let v = field_of_view(&m, Point { x: 1, y: 1 }, 8);
    for p in &v {
        assert!(p.x >= 0 && p.x < 12 && p.y >= 0 && p.y < 12);
    }
    for i in 0..v.len() {
        for j in (i + 1)..v.len() {
            assert!(v[i] != v[j]);
        }
    }
}

#[test]
fn fov_wall_occludes_cells_behind_it() {
    let mut m = open_map(40, 40);
    let wall = m.xy_idx(22, 20);
    m.tiles[wall] = TileType::Wall;
    let v = field_of_view(&m, Point { x: 20, y: 20 }, 8);
    // the wall itself is seen, cells straight behind it are not
    assert!(contains(&v, 21, 20));
    assert!(contains(&v, 22, 20));
    assert!(!contains(&v, 23, 20));
    assert!(!contains(&v, 25, 20));
}

#[test]
fn fov_range_zero_sees_only_origin() {
    let m = open_map(10, 10);
    let v = field_of_view(&m, Point { x: 5, y: 5 }, 0);
    assert_eq!(v.len(), 1);
    assert!(contains(&v, 5, 5));
}

fn world_with_player(width: i32, height: i32, px: i32, py: i32, range: i32) -> World {
    let m = open_map(width, height);
    let start = Point { x: px, y: py };
    let mut w = World::new(m, start);
    w.spawn_player(start, range);
    w
}

#[test]
fn visibility_step_clears_staleness_and_fills_grids() {
    let mut w = world_with_player(30, 30, 10, 10, 8);
    let mut vis = VisibilitySystem {};
    vis.run(&mut w);
    let vs = w.viewsheds[0].as_ref().unwrap();
    assert!(!vs.out_of_date);
    assert!(!vs.visible_tiles.is_empty());
    let at = w.map.xy_idx(10, 10);
    assert!(w.map.visible_tiles[at]);
    assert!(w.map.explored_tiles[at]);
    let far = w.map.xy_idx(25, 25);
    assert!(!w.map.visible_tiles[far]);
    assert!(!w.map.explored_tiles[far]);
}

#[test]
fn visibility_step_twice_is_a_no_op() {
    let mut w = world_with_player(30, 30, 10, 10, 8);
    let mut vis = VisibilitySystem {};
    vis.run(&mut w);
    let tiles_once = w.viewsheds[0].as_ref().unwrap().visible_tiles.clone();
    let visible_once = w.map.visible_tiles.clone();
    let explored_once = w.map.explored_tiles.clone();
    vis.run(&mut w);
    let vs = w.viewsheds[0].as_ref().unwrap();
    assert!(!vs.out_of_date);
    assert_eq!(vs.visible_tiles, tiles_once);
    assert_eq!(w.map.visible_tiles, visible_once);
    assert_eq!(w.map.explored_tiles, explored_once);
}

#[test]
fn visibility_skips_fresh_viewsheds() {
    let mut w = world_with_player(30, 30, 10, 10, 8);
    let mut vis = VisibilitySystem {};
    vis.run(&mut w);
    // hand-craft a stale marker being absent: mutate the map, run again,
    // and the viewshed must not pick the change up
    let wall = w.map.xy_idx(12, 10);
    w.map.tiles[wall] = TileType::Wall;
    let before = w.viewsheds[0].as_ref().unwrap().visible_tiles.clone();
    vis.run(&mut w);
    let after = w.viewsheds[0].as_ref().unwrap().visible_tiles.clone();
    assert_eq!(before, after);
}

#[test]
fn explored_memory_accumulates_and_visible_resets() {
    let mut w = world_with_player(60, 20, 5, 10, 4);
    let mut vis = VisibilitySystem {};
    vis.run(&mut w);
    let near_start = w.map.xy_idx(5, 10);
    assert!(w.map.explored_tiles[near_start]);
    // teleport the player far away and re-stale its viewshed
    rogue_core::player::try_move_entity(&mut w, 0, 40, 0);
    vis.run(&mut w);
    let near_end = w.map.xy_idx(45, 10);
    // old cell: explored but no longer visible; new cell: both
    assert!(w.map.explored_tiles[near_start]);
    assert!(!w.map.visible_tiles[near_start]);
    assert!(w.map.explored_tiles[near_end]);
    assert!(w.map.visible_tiles[near_end]);
}
