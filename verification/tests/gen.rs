//! Dungeon-generation tests: validity of the generated map, determinism
//! under a fixed seed, and corridor connectivity, cross-checked against an
//! independent path-search implementation.

use bracket_pathfinding::prelude::{a_star_search, Algorithm2D, BaseMap, Point, SmallVec};
use bracket_random::prelude::RandomNumberGenerator;
use rogue_core::map::{GameMap, TileType};
use rogue_core::path::find_path;

fn generated(seed: u64) -> GameMap {
    let mut rng = RandomNumberGenerator::seeded(seed);
    GameMap::new_map_rooms_and_corridors_from(&mut rng)
}

#[test]
fn generation_fills_an_80_by_50_grid() {
    let m = generated(1);
    assert_eq!(m.width, 80);
    assert_eq!(m.height, 50);
    assert_eq!(m.tiles.len(), 80 * 50);
    assert_eq!(m.explored_tiles.len(), 80 * 50);
    assert_eq!(m.visible_tiles.len(), 80 * 50);
    assert_eq!(m.blocked_tiles.len(), 80 * 50);
}

#[test]
fn generation_places_at_least_one_room() {
    for seed in 0..20u64 {
        assert!(!generated(seed).rooms.is_empty());
    }
}

#[test]
fn generation_is_deterministic_under_fixed_seed() {
    let a = generated(0xDEAD_BEEF);
    let b = generated(0xDEAD_BEEF);
    assert_eq!(a.tiles.len(), b.tiles.len());
    for i in 0..a.tiles.len() {
        assert_eq!(a.tiles[i], b.tiles[i]);
    }
    assert_eq!(a.rooms.len(), b.rooms.len());
    for i in 0..a.rooms.len() {
        assert_eq!(a.rooms[i], b.rooms[i]);
    }
}

#[test]
fn generation_different_seeds_differ() {
    let a = generated(1);
    let b = generated(2);
    let same = a.tiles == b.tiles && a.rooms == b.rooms;
    assert!(!same);
}

#[test]
fn no_two_accepted_rooms_intersect() {
    for seed in 0..10u64 {
        let m = generated(seed);
        for i in 0..m.rooms.len() {
            for j in (i + 1)..m.rooms.len() {
                assert!(!m.rooms[i].intersect(&m.rooms[j]));
            }
        }
    }
}

#[test]
fn room_interiors_are_floor() {
    for seed in 0..10u64 {
        let m = generated(seed);
        for r in &m.rooms {
            for y in (r.y1 + 1)..=r.y2 {
                for x in (r.x1 + 1)..=r.x2 {
                    let idx = m.xy_idx(x, y);
                    assert_eq!(m.tiles[idx], TileType::Floor);
                }
            }
        }
    }
}

#[test]
fn room_sizes_stay_in_sample_range() {
    let m = generated(7);
    for r in &m.rooms {
        let w = r.x2 - r.x1;
        let h = r.y2 - r.y1;
        assert!((5..=9).contains(&w));
        assert!((5..=9).contains(&h));
        assert!(r.x1 >= 0 && r.x2 <= 78);
        assert!(r.y1 >= 0 && r.y2 <= 48);
    }
}

#[test]
fn border_ring_stays_wall() {
    for seed in 0..10u64 {
        let m = generated(seed);
        for x in 0..80 {
            assert_eq!(m.tiles[m.xy_idx(x, 0)], TileType::Wall);
            assert_eq!(m.tiles[m.xy_idx(x, 49)], TileType::Wall);
        }
        for y in 0..50 {
            assert_eq!(m.tiles[m.xy_idx(0, y)], TileType::Wall);
            assert_eq!(m.tiles[m.xy_idx(79, y)], TileType::Wall);
        }
    }
}

#[test]
fn rooms_are_mutually_connected_by_search() {
    for seed in 0..5u64 {
        let mut m = generated(seed);
        m.populate_blocked();
        let centres: Vec<(i32, i32)> = m.rooms.iter().map(|r| r.centre()).collect();
        for i in 0..centres.len() {
            for j in 0..centres.len() {
                let start = m.xy_idx(centres[i].0, centres[i].1);
                let goal = m.xy_idx(centres[j].0, centres[j].1);
                let path = find_path(&m, start, goal);
                assert!(path.is_some());
                let p = path.unwrap();
                assert_eq!(p[0], start);
                assert_eq!(*p.last().unwrap(), goal);
            }
        }
    }
}

/// Adapter exposing the verified map's exit and opacity queries to the
/// outside path-search crate, for cross-checking.
struct GridAdapter {
    map: GameMap,
}

impl BaseMap for GridAdapter {
    fn is_opaque(&self, idx: usize) -> bool {
        self.map.is_opaque(idx)
    }

    fn get_available_exits(&self, idx: usize) -> SmallVec<[(usize, f32); 10]> {
        let mut exits = SmallVec::new();
        for e in self.map.get_available_exits(idx) {
            exits.push((e, 1.0));
        }
        exits
    }

    fn get_pathing_distance(&self, idx1: usize, idx2: usize) -> f32 {
        (self.map.get_pathing_distance_sq(idx1, idx2) as f32).sqrt()
    }
}

impl Algorithm2D for GridAdapter {
    fn dimensions(&self) -> Point {
        let d = self.map.dimensions();
        Point::new(d.x, d.y)
    }
}

#[test]
fn search_agrees_with_outside_a_star() {
    let mut m = generated(11);
    m.populate_blocked();
    let centres: Vec<(i32, i32)> = m.rooms.iter().map(|r| r.centre()).collect();
    let adapter = GridAdapter { map: m };
    for i in 0..centres.len() {
        for j in 0..centres.len() {
            let start = adapter.map.xy_idx(centres[i].0, centres[i].1);
            let goal = adapter.map.xy_idx(centres[j].0, centres[j].1);
            let mine = find_path(&adapter.map, start, goal);
            let theirs = a_star_search(start, goal, &adapter);
            assert!(mine.is_some());
            assert!(theirs.success);
            let mine = mine.unwrap();
            assert_eq!(mine[0], start);
            assert_eq!(*mine.last().unwrap(), goal);
            assert_eq!(theirs.steps[0], start);
            assert_eq!(*theirs.steps.last().unwrap(), goal);
            // breadth-first search never yields a longer walk than the
            // outside search over the same unit-cost exits
            assert!(mine.len() <= theirs.steps.len());
        }
    }
}

#[test]
fn find_path_start_equals_goal() {
    let m = generated(3);
    let idx = m.xy_idx(10, 10);
    let p = find_path(&m, idx, idx).unwrap();
    assert_eq!(p, vec![idx]);
}

#[test]
fn find_path_fails_through_solid_wall() {
    let n = 100usize;
    let mut m = GameMap {
        tiles: vec![TileType::Floor; n],
        explored_tiles: vec![false; n],
        visible_tiles: vec![false; n],
        blocked_tiles: vec![false; n],
        rooms: Vec::new(),
        width: 10,
        height: 10,
    };
    // a solid vertical blocked band splits the grid
    for y in 0..10 {
        let idx = m.xy_idx(5, y);
        m.blocked_tiles[idx] = true;
    }
    let start = m.xy_idx(2, 2);
    let goal = m.xy_idx(8, 2);
    assert!(find_path(&m, start, goal).is_none());
    // same side still reachable
    assert!(find_path(&m, start, m.xy_idx(3, 8)).is_some());
}

#[test]
fn find_path_follows_a_corridor() {
    let n = 100usize;
    let mut m = GameMap {
        tiles: vec![TileType::Floor; n],
        explored_tiles: vec![false; n],
        visible_tiles: vec![false; n],
        blocked_tiles: vec![true; n],
        rooms: Vec::new(),
        width: 10,
        height: 10,
    };
    // open a single row corridor
    for x in 1..=8 {
        let idx = m.xy_idx(x, 4);
        m.blocked_tiles[idx] = false;
    }
    let start = m.xy_idx(1, 4);
    let goal = m.xy_idx(8, 4);
    let p = find_path(&m, start, goal).unwrap();
    assert_eq!(p.len(), 8);
    for (k, idx) in p.iter().enumerate() {
        assert_eq!(*idx, m.xy_idx(1 + k as i32, 4));
    }
}
