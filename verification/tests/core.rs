//! Geometry and grid-contract tests: rectangles, index arithmetic, opacity,
//! exits, distances and the blocked-grid rebuild.

use rogue_core::components::Point;
use rogue_core::map::{GameMap, TileType};
use rogue_core::rect::Rect;

fn open_map(width: i32, height: i32) -> GameMap {
    let n = (width * height) as usize;
    GameMap {
        tiles: vec![TileType::Floor; n],
        explored_tiles: vec![false; n],
        visible_tiles: vec![false; n],
        blocked_tiles: vec![false; n],
        rooms: Vec::new(),
        width,
        height,
    }
}

#[test]
fn rect_new_sets_corners() {
    let r = Rect::new(10, 20, 6, 4);
    assert_eq!(r.x1, 10);
    assert_eq!(r.y1, 20);
    assert_eq!(r.x2, 16);
    assert_eq!(r.y2, 24);
}

#[test]
fn rect_centre_is_midpoint() {
    let r = Rect::new(10, 20, 6, 4);
    assert_eq!(r.centre(), (13, 22));
    let odd = Rect::new(0, 0, 5, 5);
    assert_eq!(odd.centre(), (2, 2));
}

#[test]
fn rect_intersect_overlapping() {
    let a = Rect::new(0, 0, 10, 10);
    let b = Rect::new(5, 5, 10, 10);
    assert!(a.intersect(&b));
    assert!(b.intersect(&a));
}

#[test]
fn rect_intersect_touching_edges_counts() {
    let a = Rect::new(0, 0, 5, 5);
    let b = Rect::new(5, 0, 5, 5);
    assert!(a.intersect(&b));
}

#[test]
fn rect_intersect_disjoint() {
    let a = Rect::new(0, 0, 5, 5);
    let b = Rect::new(7, 7, 5, 5);
    assert!(!a.intersect(&b));
}

#[test]
fn xy_idx_is_row_major() {
    let m = open_map(80, 50);
    assert_eq!(m.xy_idx(0, 0), 0);
    assert_eq!(m.xy_idx(13, 7), 7 * 80 + 13);
    assert_eq!(m.xy_idx(79, 49), 80 * 50 - 1);
}

#[test]
fn idx_xy_round_trips() {
    let m = open_map(80, 50);
    for &(x, y) in &[(0, 0), (13, 7), (79, 49), (1, 48), (40, 25)] {
        let idx = m.xy_idx(x, y);
        let p = m.idx_xy(idx);
        assert_eq!((p.x, p.y), (x, y));
    }
}

#[test]
fn is_opaque_tracks_walls() {
    let mut m = open_map(10, 10);
    let idx = m.xy_idx(3, 3);
    assert!(!m.is_opaque(idx));
    m.tiles[idx] = TileType::Wall;
    assert!(m.is_opaque(idx));
}

#[test]
fn exits_in_open_interior_are_four() {
    let m = open_map(10, 10);
    let idx = m.xy_idx(5, 5);
    let exits = m.get_available_exits(idx);
    assert_eq!(exits.len(), 4);
    assert!(exits.contains(&m.xy_idx(4, 5)));
    assert!(exits.contains(&m.xy_idx(6, 5)));
    assert!(exits.contains(&m.xy_idx(5, 4)));
    assert!(exits.contains(&m.xy_idx(5, 6)));
}

#[test]
fn exits_exclude_border_ring() {
    let m = open_map(10, 10);
    // a cell next to the border: the border neighbour is not an exit
    let idx = m.xy_idx(1, 1);
    let exits = m.get_available_exits(idx);
    assert_eq!(exits.len(), 2);
    assert!(exits.contains(&m.xy_idx(2, 1)));
    assert!(exits.contains(&m.xy_idx(1, 2)));
}

#[test]
fn exits_exclude_blocked_cells() {
    let mut m = open_map(10, 10);
    let blocked = m.xy_idx(4, 5);
    m.blocked_tiles[blocked] = true;
    let exits = m.get_available_exits(m.xy_idx(5, 5));
    assert_eq!(exits.len(), 3);
    assert!(!exits.contains(&blocked));
}

#[test]
fn pathing_distance_sq_is_squared_euclidean() {
    let m = open_map(20, 20);
    let a = m.xy_idx(2, 3);
    let b = m.xy_idx(5, 7);
    assert_eq!(m.get_pathing_distance_sq(a, b), 3 * 3 + 4 * 4);
    assert_eq!(m.get_pathing_distance_sq(a, a), 0);
}

#[test]
fn dimensions_reports_extents() {
    let m = open_map(80, 50);
    let d: Point = m.dimensions();
    assert_eq!((d.x, d.y), (80, 50));
}

#[test]
fn populate_blocked_mirrors_walls() {
    let mut m = open_map(10, 10);
    let wall = m.xy_idx(2, 2);
    m.tiles[wall] = TileType::Wall;
    // a stale entry that the rebuild must clear
    let stale = m.xy_idx(7, 7);
    m.blocked_tiles[stale] = true;
    m.populate_blocked();
    assert!(m.blocked_tiles[wall]);
    assert!(!m.blocked_tiles[stale]);
}

#[test]
fn to_point_copies_coordinates() {
    let pos = rogue_core::components::Position { x: 4, y: 9 };
    let p = pos.to_point();
    assert_eq!((p.x, p.y), (4, 9));
}
