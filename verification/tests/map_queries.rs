//! The spatial query surface, grid editing helpers, carver gating, and the
//! random source.

use svarogue::carver::carve;
use svarogue::common::{
    apply_horizontal_tunnel, apply_point, apply_room_to_map, apply_vertical_tunnel,
};
use svarogue::map::{
    find_empty_adjacent, SpatialMap, Position, TileType, MAPCOUNT, MAPHEIGHT, MAPWIDTH,
};
use svarogue::post::{post_process, sweep_room};
use svarogue::rng::RandomSource;
use svarogue::rooms::Room;

#[test]
fn new_map_is_solid_wall_of_default_size() {
    let map = SpatialMap::new(3);
    assert_eq!(map.width as usize, MAPWIDTH);
    assert_eq!(map.height as usize, MAPHEIGHT);
    assert_eq!(map.depth, 3);
    assert_eq!(map.tiles.len(), MAPCOUNT);
    assert!(map.tiles.iter().all(|&t| t == TileType::DirtWall));
    assert!(map.revealed_tiles.iter().all(|&b| !b));
    assert!(map.visible_tiles.iter().all(|&b| !b));
    assert!(map.blocked.iter().all(|&b| !b));
    assert!(map.tile_content.iter().all(|c| c.is_empty()));
}

#[test]
fn xy_idx_is_row_major() {
    let map = SpatialMap::new(1);
    assert_eq!(map.xy_idx(0, 0), 0);
    assert_eq!(map.xy_idx(3, 0), 3);
    assert_eq!(map.xy_idx(0, 1), MAPWIDTH);
    assert_eq!(map.xy_idx(7, 5), 5 * MAPWIDTH + 7);
}

#[test]
fn wall_variants_follow_the_pattern() {
    let mut map = SpatialMap::sized(4, 2, 1);
    let pattern = vec![true, false, true, false, false, true, false, false];
    map.apply_wall_variants(&pattern);
    let expect = [
        TileType::DirtWall2,
        TileType::DirtWall,
        TileType::DirtWall2,
        TileType::DirtWall,
        TileType::DirtWall,
        TileType::DirtWall2,
        TileType::DirtWall,
        TileType::DirtWall,
    ];
    for i in 0..8 {
        assert_eq!(map.tiles[i], expect[i]);
    }
}

#[test]
fn blocking_follows_tiles() {
    let mut map = SpatialMap::sized(3, 3, 1);
    let idx = map.xy_idx(1, 1);
    map.tiles[idx] = TileType::Floor;
    let idx2 = map.xy_idx(2, 2);
    map.tiles[idx2] = TileType::DownStairs;
    map.populate_blocked();
    assert!(!map.blocked[idx]);
    assert!(!map.blocked[idx2]);
    assert!(map.blocked[map.xy_idx(0, 0)]);
    assert!(map.is_opaque(map.xy_idx(0, 0)));
    assert!(!map.is_opaque(idx));
}

#[test]
fn content_index_clears() {
    let mut map = SpatialMap::sized(2, 2, 1);
    map.tile_content[1].push(17);
    map.tile_content[3].push(4);
    map.clear_content_index();
    for c in &map.tile_content {
        assert!(c.is_empty());
    }
}

#[test]
fn pathing_distance_is_squared_euclidean() {
    let map = SpatialMap::new(1);
    let a = map.xy_idx(1, 1);
    let b = map.xy_idx(4, 5);
    assert_eq!(map.get_pathing_distance(a, b), 9 + 16);
    assert_eq!(map.get_pathing_distance(a, a), 0);
}

#[test]
fn available_exits_costs_and_membership() {
    let mut map = SpatialMap::sized(5, 5, 1);
    for y in 1..4 {
        for x in 1..4 {
            let i = map.xy_idx(x, y);
            map.tiles[i] = TileType::Floor;
        }
    }
    map.populate_blocked();
    let center = map.xy_idx(2, 2);
    let exits = map.get_available_exits(center);
    // all eight neighbors of the center are open floor
    assert_eq!(exits.len(), 8);
    assert_eq!(exits[0], (map.xy_idx(1, 2), 100));
    assert_eq!(exits[1], (map.xy_idx(3, 2), 100));
    assert_eq!(exits[2], (map.xy_idx(2, 1), 100));
    assert_eq!(exits[3], (map.xy_idx(2, 3), 100));
    assert_eq!(exits[4], (map.xy_idx(1, 1), 145));
    assert_eq!(exits[5], (map.xy_idx(3, 1), 145));
    assert_eq!(exits[6], (map.xy_idx(1, 3), 145));
    assert_eq!(exits[7], (map.xy_idx(3, 3), 145));
    // a corner of the open area only has the in-bounds, unblocked neighbors
    let corner = map.xy_idx(1, 1);
    let corner_exits = map.get_available_exits(corner);
    assert_eq!(corner_exits.len(), 3);
    assert_eq!(corner_exits[0], (map.xy_idx(2, 1), 100));
    assert_eq!(corner_exits[1], (map.xy_idx(1, 2), 100));
    assert_eq!(corner_exits[2], (map.xy_idx(2, 2), 145));
}

#[test]
fn empty_adjacent_prefers_west_then_east() {
    let mut map = SpatialMap::sized(5, 5, 1);
    for i in 0..25 {
        map.tiles[i] = TileType::Floor;
    }
    map.populate_blocked();
    assert_eq!(find_empty_adjacent(&map, 2, 2), (1, 2));
    let west = map.xy_idx(1, 2);
    map.tile_content[west].push(9);
    assert_eq!(find_empty_adjacent(&map, 2, 2), (3, 2));
}

#[test]
fn empty_adjacent_falls_back_to_self() {
    let map = SpatialMap::sized(3, 3, 1);
    let mut blocked_map = map;
    blocked_map.populate_blocked();
    assert_eq!(find_empty_adjacent(&blocked_map, 1, 1), (1, 1));
}

#[test]
fn tunnels_carve_inclusive_ranges() {
    let mut map = SpatialMap::sized(8, 8, 1);
    apply_horizontal_tunnel(&mut map, 5, 2, 3);
    for x in 2..=5 {
        assert_eq!(map.tiles[map.xy_idx(x, 3)], TileType::Floor);
    }
    assert_eq!(map.tiles[map.xy_idx(1, 3)], TileType::DirtWall);
    assert_eq!(map.tiles[map.xy_idx(6, 3)], TileType::DirtWall);
    apply_vertical_tunnel(&mut map, 6, 4, 1);
    for y in 4..=6 {
        assert_eq!(map.tiles[map.xy_idx(1, y)], TileType::Floor);
    }
    assert_eq!(map.tiles[map.xy_idx(1, 3)], TileType::DirtWall);
}

#[test]
fn point_application_writes_one_tile() {
    let mut map = SpatialMap::sized(4, 4, 1);
    apply_point(&mut map, 2, 1, TileType::Door);
    assert_eq!(map.tiles[map.xy_idx(2, 1)], TileType::Door);
    let others = (0..16).filter(|&i| map.tiles[i] == TileType::DirtWall).count();
    assert_eq!(others, 15);
}

#[test]
fn room_application_floors_inside_and_walls_border() {
    let mut map = SpatialMap::sized(8, 8, 1);
    let pre = map.xy_idx(2, 1);
    map.tiles[pre] = TileType::Floor; // an existing opening on the border row
    let room = Room { x1: 1, y1: 1, x2: 3, y2: 3 };
    apply_room_to_map(&mut map, &room);
    for y in 2..=3 {
        for x in 2..=3 {
            assert_eq!(map.tiles[map.xy_idx(x, y)], TileType::Floor);
        }
    }
    assert_eq!(map.tiles[pre], TileType::Floor);
    assert_eq!(map.tiles[map.xy_idx(1, 1)], TileType::StoneWall);
    assert_eq!(map.tiles[map.xy_idx(4, 4)], TileType::StoneWall);
    assert_eq!(map.tiles[map.xy_idx(1, 4)], TileType::StoneWall);
    assert_eq!(map.tiles[map.xy_idx(5, 5)], TileType::DirtWall);
}

#[test]
fn carver_respects_corners_and_breaches_once() {
    // one room centered in a 9 by 9 grid; uniform roughness
    let mut map = SpatialMap::sized(9, 9, 1);
    let rooms = vec![Room { x1: 3, y1: 3, x2: 4, y2: 4 }];
    let tags = svarogue::classifier::room_map(&rooms, 9, 9);
    let roughness = vec![0i64; 81];
    let outcome = carve(&mut map, &tags, &roughness, 1, 1, 40, 4);
    assert!(outcome.carved >= 1);
    assert_eq!(map.tiles[map.xy_idx(1, 1)], TileType::Floor);
    // corner cells of the room band are never carved
    for (x, y) in [(3i32, 3i32), (3, 5), (5, 3), (5, 5)] {
        assert_ne!(map.tiles[map.xy_idx(x, y)], TileType::Floor);
    }
    // at most one carved cell per wall segment id
    for id in 1..=4i32 {
        let mut hits = 0;
        for i in 0..81 {
            if tags[i] == id && map.tiles[i] == TileType::Floor {
                hits += 1;
            }
        }
        assert!(hits <= 1, "segment {} breached {} times", id, hits);
    }
}

#[test]
fn degenerate_carve_floors_the_start() {
    // 5 by 5 grid, budget 12, no rooms: carving must not fail and must
    // floor at least the start cell
    let mut map = SpatialMap::sized(5, 5, 1);
    let tags = vec![0i32; 25];
    let roughness = vec![0i64; 25];
    let outcome = carve(&mut map, &tags, &roughness, 2, 2, 12, 0);
    assert!(outcome.carved >= 1);
    assert_eq!(map.tiles[map.xy_idx(2, 2)], TileType::Floor);
    assert!(outcome.candidates.is_empty());
}

#[test]
fn post_processing_encloses_a_breached_room() {
    let mut map = SpatialMap::sized(9, 9, 1);
    let room = Room { x1: 3, y1: 3, x2: 5, y2: 5 };
    let rooms = vec![room];
    // segment 1 is the left wall: mark it dug and pre-carve its breach
    let breach = map.xy_idx(3, 4);
    map.tiles[breach] = TileType::Floor;
    let dug = vec![false, true, false, false, false];
    post_process(&mut map, &rooms, &dug);
    // the breach stays open
    assert_eq!(map.tiles[breach], TileType::Floor);
    // every other perimeter cell of the band is solid wall
    for y in 3..=6 {
        for x in 3..=6 {
            let on_ring = x == 3 || x == 6 || y == 3 || y == 6;
            let i = map.xy_idx(x, y);
            if (x, y) == (3, 4) {
                continue;
            }
            if on_ring {
                assert_eq!(map.tiles[i], TileType::StoneWall, "ring at {},{}", x, y);
            } else {
                assert_eq!(map.tiles[i], TileType::Floor, "interior at {},{}", x, y);
            }
        }
    }
    // cells outside the band are untouched
    assert_eq!(map.tiles[map.xy_idx(0, 0)], TileType::DirtWall);
}

#[test]
fn sweeping_preserves_doors() {
    let mut map = SpatialMap::sized(9, 9, 1);
    let room = Room { x1: 2, y1: 2, x2: 4, y2: 4 };
    let door = map.xy_idx(2, 3);
    map.tiles[door] = TileType::Door;
    sweep_room(&mut map, room);
    assert_eq!(map.tiles[door], TileType::Door);
    assert_eq!(map.tiles[map.xy_idx(2, 2)], TileType::StoneWall);
    assert_eq!(map.tiles[map.xy_idx(3, 3)], TileType::Floor);
}

#[test]
fn room_overlap_and_bounds() {
    let a = Room { x1: 1, y1: 1, x2: 3, y2: 3 };
    let b = Room { x1: 3, y1: 3, x2: 5, y2: 5 };
    let c = Room { x1: 4, y1: 1, x2: 6, y2: 2 };
    assert!(a.overlap(&b));
    assert!(b.overlap(&a));
    assert!(!a.overlap(&c));
    assert!(a.in_bounds(4, 4));
    assert!(!a.in_bounds(3, 4));
}

#[test]
fn squared_distance_matches_coordinates() {
    let a = Position { x: 2, y: 3 };
    let b = Position { x: 5, y: 7 };
    assert_eq!(a.square_distance(&b), 25);
    assert_eq!(b.square_distance(&a), 25);
    assert_eq!(a.square_distance(&a), 0);
}

#[test]
fn random_source_draws_stay_in_range() {
    let mut rng = RandomSource::seeded(42);
    for _ in 0..1000 {
        let v = rng.range(3, 9);
        assert!((3..9).contains(&v));
    }
    let mut one = RandomSource::seeded(7);
    assert_eq!(one.range(5, 6), 5);
}

#[test]
fn seeded_random_sources_repeat_their_stream() {
    let mut a = RandomSource::seeded(123);
    let mut b = RandomSource::seeded(123);
    for _ in 0..100 {
        assert_eq!(a.range(0, 1000), b.range(0, 1000));
    }
}

#[test]
fn dimensions_report_the_grid() {
    let map = SpatialMap::sized(17, 12, 2);
    assert_eq!(map.dimensions(), (17, 12));
}
