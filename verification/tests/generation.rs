//! End-to-end generation scenarios.

use noise::{Fbm, NoiseFn, Seedable};
use svarogue::builder::{BuildError, DigMapTurbBuilder};
use svarogue::classifier::room_map;
use svarogue::map::{SpatialMap, Position, TileType, MAPCOUNT, MAPHEIGHT, MAPWIDTH};
use svarogue::rng::RandomSource;
use svarogue::rooms::{grow_rooms, grow_rooms_from_rolls, Room};
use svarogue::sampler::{farthest_point_selection, poisson_sample_points};

/// The turbulence field: a base field sampled at eight times the frequency
/// warps the coordinates fed to a second, independently seeded field.
fn turbulence_roughness(seed1: u32, seed2: u32, w: usize, h: usize) -> Vec<i64> {
    let base = Fbm::new().set_seed(seed1);
    let secondary = Fbm::new().set_seed(seed2);
    let dx = 8.0 / w as f64;
    let dy = 8.0 / h as f64;
    let mut out = Vec::with_capacity(w * h);
    for y in 0..h {
        for x in 0..w {
            let fx = x as f64 * dx;
            let fy = y as f64 * dy;
            let value = base.get([8.0 * fx, 8.0 * fy]);
            let warped = secondary.get([fx + 4.0 * value.sin(), fy + 4.0 * value.cos()]);
            out.push((warped * 1048576.0) as i64);
        }
    }
    out
}

fn build_level(seed: u64) -> (DigMapTurbBuilder, Result<(), BuildError>) {
    let mut rng = RandomSource::seeded(seed);
    let roughness = turbulence_roughness(
        (seed & 0xffff_ffff) as u32,
        (seed >> 32) as u32 ^ 0x9e37,
        MAPWIDTH,
        MAPHEIGHT,
    );
    let mut builder = DigMapTurbBuilder::new(1);
    let r = builder.build_map(&mut rng, &roughness);
    (builder, r)
}

fn flood_fill_floor(map: &SpatialMap, sx: i32, sy: i32) -> Vec<bool> {
    let w = map.width as usize;
    let h = map.height as usize;
    let mut seen = vec![false; w * h];
    let mut stack = vec![(sx as usize, sy as usize)];
    seen[sy as usize * w + sx as usize] = true;
    while let Some((x, y)) = stack.pop() {
        let neighbors = [
            (x.wrapping_sub(1), y),
            (x + 1, y),
            (x, y.wrapping_sub(1)),
            (x, y + 1),
        ];
        for (nx, ny) in neighbors {
            if nx < w && ny < h && !seen[ny * w + nx] {
                let t = map.tiles[ny * w + nx];
                if t == TileType::Floor || t == TileType::DownStairs {
                    seen[ny * w + nx] = true;
                    stack.push((nx, ny));
                }
            }
        }
    }
    seen
}

#[test]
fn full_build_places_exactly_one_exit() {
    let (builder, r) = build_level(1234);
    assert!(r.is_ok());
    let map = builder.get_map();
    let stairs: Vec<usize> = (0..MAPCOUNT)
        .filter(|&i| map.tiles[i] == TileType::DownStairs)
        .collect();
    assert_eq!(stairs.len(), 1);
    let floors = (0..MAPCOUNT)
        .filter(|&i| map.tiles[i] == TileType::Floor)
        .count();
    assert!(floors > 500, "only {} floor cells", floors);
}

#[test]
fn no_door_adjacent_to_a_corner_cell() {
    let (builder, r) = build_level(1234);
    assert!(r.is_ok());
    let map = builder.get_map();
    let tags = room_map(builder.rooms(), map.width, map.height);
    let w = map.width as i64;
    let h = map.height as i64;
    for y in 0..h {
        for x in 0..w {
            if tags[(y * w + x) as usize] == -1 {
                // the corner itself is never floor or door
                let t = map.tiles[(y * w + x) as usize];
                assert!(t != TileType::Door && t != TileType::Floor);
                for (dx, dy) in [(-1i64, 0i64), (1, 0), (0, -1), (0, 1)] {
                    let (nx, ny) = (x + dx, y + dy);
                    if nx >= 0 && nx < w && ny >= 0 && ny < h {
                        assert!(map.tiles[(ny * w + nx) as usize] != TileType::Door);
                    }
                }
            }
        }
    }
}

#[test]
fn exit_is_reachable_from_start_on_floor() {
    let (builder, r) = build_level(1234);
    assert!(r.is_ok());
    let map = builder.get_map();
    let start = builder.get_starting_position();
    assert_eq!(
        map.tiles[start.y as usize * map.width as usize + start.x as usize],
        TileType::Floor
    );
    let seen = flood_fill_floor(&map, start.x, start.y);
    let stairs = (0..MAPCOUNT)
        .find(|&i| map.tiles[i] == TileType::DownStairs)
        .unwrap();
    assert!(seen[stairs], "exit not connected to the start");
}

#[test]
fn fresh_builder_starts_at_the_origin() {
    let builder = DigMapTurbBuilder::new(1);
    assert_eq!(builder.get_starting_position(), Position { x: 0, y: 0 });
    assert!(builder.rooms().is_empty());
    assert!(builder.walls_dug().is_empty());
    assert!(builder.spawn_locations().0.is_empty());
}

#[test]
fn start_lies_in_the_central_half() {
    let (builder, r) = build_level(1234);
    assert!(r.is_ok());
    let start = builder.get_starting_position();
    let (w, h) = (MAPWIDTH as i32, MAPHEIGHT as i32);
    assert!(w / 4 <= start.x && start.x < w / 4 + w / 2);
    assert!(h / 4 <= start.y && start.y < h / 4 + h / 2);
}

#[test]
fn no_door_tile_is_ever_written() {
    let (builder, r) = build_level(1234);
    assert!(r.is_ok());
    let map = builder.get_map();
    assert!(map.tiles.iter().all(|&t| t != TileType::Door));
}

#[test]
fn start_differs_from_exit() {
    let (builder, r) = build_level(77);
    assert!(r.is_ok());
    let map = builder.get_map();
    let start = builder.get_starting_position();
    let w = map.width as usize;
    let stairs = (0..MAPCOUNT)
        .find(|&i| map.tiles[i] == TileType::DownStairs)
        .unwrap();
    assert_ne!(stairs, start.y as usize * w + start.x as usize);
}

#[test]
fn identical_seeds_build_identical_grids() {
    let (b1, r1) = build_level(99);
    let (b2, r2) = build_level(99);
    assert_eq!(r1.is_ok(), r2.is_ok());
    let m1 = b1.get_map();
    let m2 = b2.get_map();
    for i in 0..MAPCOUNT {
        assert_eq!(m1.tiles[i], m2.tiles[i], "tiles differ at {}", i);
    }
    assert_eq!(b1.get_starting_position(), b2.get_starting_position());
}

#[test]
fn grown_rooms_do_not_overlap() {
    let mut rng = RandomSource::seeded(5);
    let seeds = poisson_sample_points(&mut rng, 80, 43, 10);
    let rooms = grow_rooms(&mut rng, 80, 43, &seeds, 80, 10);
    assert_eq!(rooms.len(), seeds.len());
    let distinct = |i: usize, j: usize| seeds[i] != seeds[j];
    for i in 0..rooms.len() {
        assert!(rooms[i].in_bounds(80, 43));
        assert!(rooms[i].x1 <= seeds[i].x && seeds[i].x <= rooms[i].x2);
        assert!(rooms[i].y1 <= seeds[i].y && seeds[i].y <= rooms[i].y2);
        for j in 0..rooms.len() {
            if i != j && distinct(i, j) {
                assert!(!rooms[i].overlap(&rooms[j]));
            }
        }
    }
}

#[test]
fn zero_growth_iterations_keep_rooms_degenerate() {
    let mut rng = RandomSource::seeded(5);
    let seeds = vec![Position { x: 2, y: 2 }];
    let rooms = grow_rooms(&mut rng, 5, 5, &seeds, 80, 0);
    assert_eq!(rooms.len(), 1);
    assert_eq!((rooms[0].x1, rooms[0].y1, rooms[0].x2, rooms[0].y2), (2, 2, 2, 2));
}

#[test]
fn tiny_grid_build_fails_without_candidates() {
    // a 5 by 5 grid has a carve budget of 12 pops, too few for the fortieth
    // commit that records a spawn candidate
    let mut rng = RandomSource::seeded(3);
    let roughness = turbulence_roughness(1, 2, 5, 5);
    let mut builder = DigMapTurbBuilder::sized(5, 5, 1);
    let r = builder.build_map(&mut rng, &roughness);
    assert_eq!(r, Err(BuildError::NoSpawnCandidates));
    let map = builder.get_map();
    for i in 0..25 {
        assert_ne!(map.tiles[i], TileType::DownStairs);
    }
}

#[test]
fn farthest_point_selection_exact_picks() {
    let candidates = vec![
        Position { x: 0, y: 0 },
        Position { x: 10, y: 0 },
        Position { x: 5, y: 5 },
        Position { x: 0, y: 9 },
    ];
    let picked = farthest_point_selection(&candidates, 2);
    // the last candidate is taken first; then (10,0) with squared distance
    // 181 beats 81 and 41; then (0,0) with min distance 81 beats 41
    assert_eq!(picked.len(), 3);
    assert_eq!(picked[0], Position { x: 0, y: 9 });
    assert_eq!(picked[1], Position { x: 10, y: 0 });
    assert_eq!(picked[2], Position { x: 0, y: 0 });
}

#[test]
fn poisson_points_are_in_bounds() {
    let mut rng = RandomSource::seeded(8);
    let pts = poisson_sample_points(&mut rng, 80, 43, 10);
    assert_eq!(pts.len(), 11);
    for p in &pts {
        assert!(p.x >= 0 && p.x < 80 && p.y >= 0 && p.y < 43);
    }
}

#[test]
fn classification_tags_one_room() {
    let rooms = vec![Room { x1: 2, y1: 2, x2: 4, y2: 3 }];
    let tags = room_map(&rooms, 8, 8);
    let at = |x: i64, y: i64| tags[(y * 8 + x) as usize];
    // band corners: one cell past the rectangle on the right and below
    assert_eq!(at(2, 2), -1);
    assert_eq!(at(2, 4), -1);
    assert_eq!(at(5, 2), -1);
    assert_eq!(at(5, 4), -1);
    // wall segments: left 1, right 2, top 3, bottom 4 for room index 0
    assert_eq!(at(2, 3), 1);
    assert_eq!(at(5, 3), 2);
    assert_eq!(at(3, 2), 3);
    assert_eq!(at(4, 2), 3);
    assert_eq!(at(3, 4), 4);
    assert_eq!(at(4, 4), 4);
    // interior
    assert_eq!(at(3, 3), -2);
    assert_eq!(at(4, 3), -2);
    // unclassified exterior
    assert_eq!(at(0, 0), 0);
    assert_eq!(at(7, 7), 0);
}

#[test]
fn classification_never_opens_to_the_map_edge() {
    // a room flush with the top-left corner: its outer edge cells are
    // corner-tagged, never wall segments
    let rooms = vec![Room { x1: 0, y1: 0, x2: 2, y2: 2 }];
    let tags = room_map(&rooms, 8, 8);
    let at = |x: i64, y: i64| tags[(y * 8 + x) as usize];
    for y in 0..4 {
        assert_eq!(at(0, y), -1, "column 0 row {}", y);
    }
    for x in 0..4 {
        assert_eq!(at(x, 0), -1, "row 0 column {}", x);
    }
}

#[test]
fn later_rooms_overwrite_earlier_tags() {
    let rooms = vec![
        Room { x1: 2, y1: 2, x2: 4, y2: 4 },
        Room { x1: 5, y1: 2, x2: 7, y2: 4 },
    ];
    let tags = room_map(&rooms, 12, 12);
    let at = |x: i64, y: i64| tags[(y * 12 + x) as usize];
    // the bands share column 5: the second room's tags win there, turning
    // the first room's right-wall cells into the second room's left wall
    assert_eq!(at(5, 2), -1); // second room's corner over first's wall id 2
    assert_eq!(at(5, 3), 1 * 4 + 1); // second room, left side
    assert_eq!(at(3, 3), -2);
    assert_eq!(at(6, 3), -2);
}

#[test]
fn growth_follows_the_rolls_exactly() {
    // two seeds, one round; the rolls try every edge of the first room and
    // only the right edge of the second
    let seeds = vec![Position { x: 3, y: 3 }, Position { x: 5, y: 3 }];
    let rolls = vec![true, true, true, true, false, false, true, false];
    let rooms = grow_rooms_from_rolls(10, 10, &seeds, &rolls, 1);
    // the first room grows left and top freely; its right edge move to
    // column 4 is committed because the second room still sits at column 5,
    // and its bottom edge grows too
    assert_eq!(rooms[0], Room { x1: 2, y1: 2, x2: 4, y2: 4 });
    // the second room's right edge grows; its other edges were not rolled
    assert_eq!(rooms[1], Room { x1: 5, y1: 3, x2: 6, y2: 3 });
}

#[test]
fn growth_rolls_back_an_overlapping_move() {
    // rooms seeded side by side: the first may not grow right into the
    // second, and the move is rolled back in place
    let seeds = vec![Position { x: 3, y: 3 }, Position { x: 4, y: 3 }];
    let rolls = vec![false, false, true, false, false, false, false, false];
    let rooms = grow_rooms_from_rolls(10, 10, &seeds, &rolls, 1);
    assert_eq!(rooms[0], Room { x1: 3, y1: 3, x2: 3, y2: 3 });
    assert_eq!(rooms[1], Room { x1: 4, y1: 3, x2: 4, y2: 3 });
}

#[test]
fn growth_rolls_back_an_out_of_bounds_move() {
    let seeds = vec![Position { x: 0, y: 0 }];
    let rolls = vec![true, true, false, false];
    let rooms = grow_rooms_from_rolls(10, 10, &seeds, &rolls, 1);
    assert_eq!(rooms[0], Room { x1: 0, y1: 0, x2: 0, y2: 0 });
}

#[test]
fn every_room_perimeter_is_wall_or_breach() {
    let (builder, r) = build_level(1234);
    assert!(r.is_ok());
    let map = builder.get_map();
    let tags = room_map(builder.rooms(), map.width, map.height);
    let w = map.width as i64;
    for room in builder.rooms().iter() {
        let (x1, y1, x2, y2) = (
            room.x1 as i64,
            room.y1 as i64,
            room.x2 as i64,
            room.y2 as i64,
        );
        for y in y1..=(y2 + 1).min(map.height as i64 - 1) {
            for x in x1..=(x2 + 1).min(w - 1) {
                let on_ring = x == x1 || x == x2 + 1 || y == y1 || y == y2 + 1;
                if !on_ring {
                    continue;
                }
                let t = map.tiles[(y * w + x) as usize];
                let wall = t == TileType::DirtWall || t == TileType::DirtWall2
                    || t == TileType::StoneWall;
                // a perimeter cell that is not solid wall must sit on a
                // wall segment: a breach point or the exit placed on one
                assert!(
                    wall || tags[(y * w + x) as usize] > 0,
                    "open perimeter cell at {},{} with tag {}",
                    x,
                    y,
                    tags[(y * w + x) as usize]
                );
            }
        }
    }
}
