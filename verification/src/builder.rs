//! The level builder: runs seed sampling, room growth, classification,
//! carving and post-processing, then places the exit and publishes the
//! finished grid and starting position.

use vstd::prelude::*;
use crate::carver::CarveOutcome;
use crate::carver::carve;
use crate::classifier::cell_tag;
use crate::classifier::grid_at;
use crate::classifier::in_band;
use crate::classifier::in_interior;
use crate::classifier::on_perimeter;
use crate::classifier::lemma_cell_tag_range;
use crate::classifier::lemma_covered_tag_nonzero;
use crate::classifier::lemma_idx_injective;
use crate::classifier::lemma_interior_cell_tag;
use crate::classifier::lemma_interior_tag_inverse;
use crate::classifier::room_map;
use crate::map::Position;
use crate::map::SpatialMap;
use crate::map::TileType;
use crate::map::is_floorish;
use crate::map::is_wall;
use crate::map::lemma_idx_bounds;
use crate::map::tile_at;
use crate::post::floor_written;
use crate::post::post_process;
use crate::post::wall_written;
use crate::rng::RandomSource;
use crate::rooms::Room;
use crate::rooms::rooms_disjoint;
use crate::rooms::rooms_wf;
use crate::rooms::grow_rooms;
use crate::sampler::poisson_sample_points;

verus! {

/// How many rooms are seeded per level.
pub const ROOM_COUNT: usize = 10;

/// Per-edge growth probability, in percent.
pub const GROWTH_PERCENT: i32 = 80;

/// Number of growth rounds.
pub const GROWTH_ITERATIONS: u32 = 10;

/// Generation failed in a way the caller must treat as fatal.
#[derive(Copy, Clone, Debug, PartialEq, Eq, Structural)]
pub enum BuildError {
    /// No spawn candidate was recorded: the carve budget or the grid is too
    /// small to produce enough floor for an exit.
    NoSpawnCandidates,
}

/// Builds one level with the turbulence-noise room carver. The builder
/// exclusively owns all generation state while `build_map` runs; on
/// completion the grid is handed off by `get_map`.
pub struct DigMapTurbBuilder {
    /// The grid under construction or just published.
    pub map: SpatialMap,
    /// The start coordinate recorded by the last successful build.
    pub starting_position: Position,
    /// Depth of the level being built.
    pub depth: i32,
    /// Spawn candidates left over after exit placement.
    pub spawn_candidates: Vec<Position>,
    /// The rooms grown by the last build.
    pub rooms: Vec<Room>,
    /// The wall segments breached by the last build, indexed by segment id.
    pub walls_dug: Vec<bool>,
}

/// Copies a vector of plain values.
fn clone_vec<T: Copy>(v: &Vec<T>) -> (r: Vec<T>)
    ensures
        r@ == v@,
{
    let mut r: Vec<T> = Vec::new();
    let mut i: usize = 0;
    while i < v.len()
        invariant
            i <= v@.len(),
            r@ =~= v@.subrange(0, i as int),
        decreases v@.len() - i,
    {
        r.push(v[i]);
        i = i + 1;
    }
    proof {
        assert(v@.subrange(0, v@.len() as int) =~= v@);
    }
    r
}

impl DigMapTurbBuilder {
    /// The builder's shape invariant.
    pub open spec fn wf(self) -> bool {
        self.map.wf()
    }

    /// A builder over a fresh all-wall grid of the given size.
    pub fn sized(width: i32, height: i32, new_depth: i32) -> (b: DigMapTurbBuilder)
        requires
            2 <= width <= 4096,
            2 <= height <= 4096,
        ensures
            b.wf(),
            b.map.width == width,
            b.map.height == height,
            b.map.depth == new_depth,
            b.depth == new_depth,
            forall|c: int| 0 <= c < b.map.spec_area() ==> b.map.tiles@[c] == TileType::DirtWall,
            b.starting_position == (Position { x: 0, y: 0 }),
            b.spawn_candidates@.len() == 0,
            b.rooms@.len() == 0,
            b.walls_dug@.len() == 0,
    {
        DigMapTurbBuilder {
            map: SpatialMap::sized(width, height, new_depth),
            starting_position: Position { x: 0, y: 0 },
            depth: new_depth,
            spawn_candidates: Vec::new(),
            rooms: Vec::new(),
            walls_dug: Vec::new(),
        }
    }

    /// A builder over the default-sized grid.
    pub fn new(new_depth: i32) -> (b: DigMapTurbBuilder)
        ensures
            b.wf(),
            b.map.width == crate::map::MAPWIDTH as i32,
            b.map.height == crate::map::MAPHEIGHT as i32,
            b.map.depth == new_depth,
            b.depth == new_depth,
            forall|c: int| 0 <= c < b.map.spec_area() ==> b.map.tiles@[c] == TileType::DirtWall,
            b.starting_position == (Position { x: 0, y: 0 }),
            b.spawn_candidates@.len() == 0,
            b.rooms@.len() == 0,
            b.walls_dug@.len() == 0,
    {
        DigMapTurbBuilder::sized(80, 43, new_depth)
    }


    /// Runs one full generation pass: seed sampling, room growth,
    /// classification, carving within a budget of half the cell count,
    /// post-processing, and exit placement on the last spawn candidate.
    ///
    /// On success the grid holds exactly one exit tile and the recorded
    /// starting position is a floor cell distinct from the exit. Whenever
    /// the grown rooms are pairwise disjoint (they are unless two seed
    /// points coincide), no corner-tagged cell is ever floor or door, each
    /// wall segment carries at most one floor or door cell, and every room
    /// perimeter cell is either solid wall or a wall-segment cell.
    ///
    /// The roughness field supplies the noise term of the carve score for
    /// each cell, as fixed-point values with `SCORE_SCALE` for one unit.
    /// It fails, leaving the grid without an exit, exactly when fewer than
    /// forty cells were carved, so that no spawn candidate was recorded.
    #[verifier::rlimit(100)]
    pub fn build_map(&mut self, rng: &mut RandomSource, roughness: &Vec<i64>) -> (r: Result<
        (),
        BuildError,
    >)
        requires
            old(self).wf(),
            2 <= old(self).map.width,
            2 <= old(self).map.height,
            roughness@.len() == old(self).map.spec_area(),
            forall|c: int|
                0 <= c < old(self).map.spec_area() ==> is_wall(#[trigger] old(self).map.tiles@[c]),
        ensures
            final(self).wf(),
            final(self).map == (SpatialMap { tiles: final(self).map.tiles, ..old(self).map }),
            final(self).depth == old(self).depth,
            rooms_wf(final(self).rooms@, old(self).map.width as int, old(self).map.height as int),
            final(self).walls_dug@.len() == 4 * final(self).rooms@.len() + 1,
            forall|x1: int, y1: int, x2: int, y2: int|
                0 <= x1 < old(self).map.width && 0 <= y1 < old(self).map.height
                && 0 <= x2 < old(self).map.width && 0 <= y2 < old(self).map.height && #[trigger] tile_at(
                    final(self).map.tiles@,
                    old(self).map.width as int,
                    x1,
                    y1,
                ) == TileType::DownStairs && #[trigger] tile_at(
                    final(self).map.tiles@,
                    old(self).map.width as int,
                    x2,
                    y2,
                ) == TileType::DownStairs ==> x1 == x2 && y1 == y2,
            r is Err ==> forall|x: int, y: int|
                0 <= x < old(self).map.width && 0 <= y < old(self).map.height ==> #[trigger] tile_at(
                    final(self).map.tiles@,
                    old(self).map.width as int,
                    x,
                    y,
                ) != TileType::DownStairs,
            r is Err ==> final(self).spawn_candidates@.len() == 0,
            r is Ok ==> exists|x: int, y: int|
                0 <= x < old(self).map.width && 0 <= y < old(self).map.height && #[trigger] tile_at(
                    final(self).map.tiles@,
                    old(self).map.width as int,
                    x,
                    y,
                ) == TileType::DownStairs,
            r is Ok ==> 0 <= final(self).starting_position.x < old(self).map.width
                && 0 <= final(self).starting_position.y < old(self).map.height && tile_at(
                final(self).map.tiles@,
                old(self).map.width as int,
                final(self).starting_position.x as int,
                final(self).starting_position.y as int,
            ) == TileType::Floor,
            r is Ok ==> old(self).map.width / 4 <= final(self).starting_position.x
                && final(self).starting_position.x < old(self).map.width / 4 + old(
                self,
            ).map.width / 2 && old(self).map.height / 4 <= final(self).starting_position.y
                && final(self).starting_position.y < old(self).map.height / 4 + old(
                self,
            ).map.height / 2,
            final(self).map.tiles@.len() == old(self).map.width * old(self).map.height,
            forall|x: int, y: int|
                0 <= x < old(self).map.width && 0 <= y < old(self).map.height ==> #[trigger] tile_at(
                    final(self).map.tiles@,
                    old(self).map.width as int,
                    x,
                    y,
                ) != TileType::Door,
            rooms_disjoint(final(self).rooms@) ==> forall|x: int, y: int|
                0 <= x < old(self).map.width && 0 <= y < old(self).map.height && #[trigger] cell_tag(
                    final(self).rooms@,
                    x,
                    y,
                    old(self).map.width as int,
                    old(self).map.height as int,
                ) == -1 ==> is_wall(
                    tile_at(final(self).map.tiles@, old(self).map.width as int, x, y),
                ),
            rooms_disjoint(final(self).rooms@) ==> forall|x1: int, y1: int, x2: int, y2: int|
                0 <= x1 < old(self).map.width && 0 <= y1 < old(self).map.height
                && 0 <= x2 < old(self).map.width && 0 <= y2 < old(self).map.height && #[trigger] cell_tag(
                    final(self).rooms@,
                    x1,
                    y1,
                    old(self).map.width as int,
                    old(self).map.height as int,
                ) == #[trigger] cell_tag(
                    final(self).rooms@,
                    x2,
                    y2,
                    old(self).map.width as int,
                    old(self).map.height as int,
                ) && cell_tag(
                    final(self).rooms@,
                    x1,
                    y1,
                    old(self).map.width as int,
                    old(self).map.height as int,
                ) > 0 && is_floorish(
                    tile_at(final(self).map.tiles@, old(self).map.width as int, x1, y1),
                ) && is_floorish(
                    tile_at(final(self).map.tiles@, old(self).map.width as int, x2, y2),
                ) ==> x1 == x2 && y1 == y2,
            rooms_disjoint(final(self).rooms@) ==> forall|x: int, y: int, ri: int|
                0 <= x < old(self).map.width && 0 <= y < old(self).map.height
                && 0 <= ri < final(self).rooms@.len() && in_band(
                    #[trigger] final(self).rooms@[ri],
                    x,
                    y,
                    old(self).map.width as int,
                    old(self).map.height as int,
                ) && on_perimeter(final(self).rooms@[ri], x, y) ==> is_wall(
                    #[trigger] tile_at(final(self).map.tiles@, old(self).map.width as int, x, y),
                ) || cell_tag(
                    final(self).rooms@,
                    x,
                    y,
                    old(self).map.width as int,
                    old(self).map.height as int,
                ) > 0,
    {
        let w: i32 = self.map.width;
        let h: i32 = self.map.height;
        let wi: Ghost<int> = Ghost(w as int);
        let hi: Ghost<int> = Ghost(h as int);
        let ghost t0 = self.map.tiles@;

        let seeds = poisson_sample_points(rng, w, h, ROOM_COUNT);
        let rooms = grow_rooms(rng, w, h, &seeds, GROWTH_PERCENT, GROWTH_ITERATIONS);
        let ghost rseq = rooms@;
        let tags = room_map(&rooms, w, h);
        let n_ids: u32 = (4 * rooms.len()) as u32;
        proof {
            assert(rseq.len() == ROOM_COUNT + 1);
            assert forall|x: int, y: int| 0 <= x < w && 0 <= y < h implies -2 <= #[trigger] grid_at(
                tags@,
                wi@,
                x,
                y,
            ) <= n_ids by {
                lemma_cell_tag_range(rseq, x, y, wi@, hi@);
            }
            assert(w / 2 >= 1 && h / 2 >= 1 && w / 2 + w / 4 <= w && h / 2 + h / 4 <= h)
                by (nonlinear_arith)
                requires
                    2 <= w,
                    2 <= h,
            ;
            lemma_idx_bounds(wi@, hi@, (w - 1) as int, (h - 1) as int);
        }
        let start_x: i32 = rng.range(0, w / 2) + w / 4;
        let start_y: i32 = rng.range(0, h / 2) + h / 4;
        let budget: u32 = ((w * h) / 2) as u32;

        let outcome = carve(&mut self.map, &tags, roughness, start_x, start_y, budget, n_ids);
        let ghost t1 = self.map.tiles@;
        let CarveOutcome { candidates, dug, carved } = outcome;
        let ghost cand0 = candidates@;

        post_process(&mut self.map, &rooms, &dug);
        let ghost t2 = self.map.tiles@;

        proof {
            // no exit tile exists before one is placed
            assert forall|x: int, y: int| 0 <= x < w && 0 <= y < h implies #[trigger] tile_at(
                t2,
                wi@,
                x,
                y,
            ) != TileType::DownStairs && (is_floorish(tile_at(t2, wi@, x, y)) ==> tile_at(
                t2,
                wi@,
                x,
                y,
            ) == TileType::Floor) by {
                lemma_idx_bounds(wi@, hi@, x, y);
                assert(is_wall(t0[y * wi@ + x]));
                assert(tile_at(t1, wi@, x, y) == t1[y * wi@ + x]);
                assert(t1[y * wi@ + x] == TileType::Floor || t1[y * wi@ + x] == t0[y * wi@ + x]);
                if tile_at(t2, wi@, x, y) != tile_at(t1, wi@, x, y) {
                }
            }
        }

        self.rooms = rooms;
        self.walls_dug = dug;
        self.spawn_candidates = candidates;

        let mut placed: bool = false;
        let ghost mut sx: int = -1;
        let ghost mut sy: int = -1;
        if self.spawn_candidates.len() > 0 {
            let stairs: Position = self.spawn_candidates.pop().unwrap();
            proof {
                assert(stairs == cand0.last());
                assert(cand0.contains(stairs)) by {
                    assert(cand0[cand0.len() - 1] == stairs);
                }
                lemma_idx_bounds(wi@, hi@, stairs.x as int, stairs.y as int);
            }
            let st_idx: usize = self.map.xy_idx(stairs.x, stairs.y);
            self.map.tiles.set(st_idx, TileType::DownStairs);
            self.starting_position = Position { x: start_x, y: start_y };
            placed = true;
            proof {
                sx = stairs.x as int;
                sy = stairs.y as int;
                assert(grid_at(tags@, wi@, sx, sy) != -1);
                assert(tile_at(t2, wi@, sx, sy) == TileType::Floor);
                assert(carved >= 1) by {
                    if carved == 0 {
                        assert(cand0.len() == 0);
                    }
                }
            }
        }
        let ghost t3 = self.map.tiles@;

        proof {
            // every cell but the exit keeps its post-processed tile
            assert forall|x: int, y: int| 0 <= x < w && 0 <= y < h && !(x == sx && y
                == sy) implies #[trigger] tile_at(t3, wi@, x, y) == tile_at(t2, wi@, x, y) by {
                lemma_idx_bounds(wi@, hi@, x, y);
                if placed && y * wi@ + x == sy * wi@ + sx {
                    lemma_idx_injective(wi@, hi@, x, y, sx, sy);
                }
            }
            if placed {
                assert(tile_at(t3, wi@, sx, sy) == TileType::DownStairs);
                lemma_idx_bounds(wi@, hi@, start_x as int, start_y as int);
                assert(tile_at(t1, wi@, start_x as int, start_y as int) == TileType::Floor);
                assert(tile_at(t2, wi@, start_x as int, start_y as int) == TileType::Floor);
                assert(!(sx == start_x && sy == start_y));
                assert(tile_at(t3, wi@, start_x as int, start_y as int) == TileType::Floor);
            }
            // at most one exit tile ever exists
            assert forall|x1: int, y1: int, x2: int, y2: int|
                0 <= x1 < w && 0 <= y1 < h && 0 <= x2 < w && 0 <= y2 < h && #[trigger] tile_at(
                    t3,
                    wi@,
                    x1,
                    y1,
                ) == TileType::DownStairs && #[trigger] tile_at(t3, wi@, x2, y2)
                == TileType::DownStairs implies x1 == x2 && y1 == y2 by {
                assert(x1 == sx && y1 == sy);
                assert(x2 == sx && y2 == sy);
            }
            if !placed {
                assert forall|x: int, y: int| 0 <= x < w && 0 <= y < h implies #[trigger] tile_at(
                    t3,
                    wi@,
                    x,
                    y,
                ) != TileType::DownStairs by {
                    assert(tile_at(t3, wi@, x, y) == tile_at(t2, wi@, x, y));
                }
            }
            // no door tile is ever written: the carver breaches with floor
            assert forall|x: int, y: int| 0 <= x < w && 0 <= y < h implies #[trigger] tile_at(
                t3,
                wi@,
                x,
                y,
            ) != TileType::Door by {
                if !(x == sx && y == sy) {
                    assert(tile_at(t3, wi@, x, y) == tile_at(t2, wi@, x, y));
                    assert(is_floorish(tile_at(t2, wi@, x, y)) ==> tile_at(t2, wi@, x, y)
                        == TileType::Floor);
                }
            }

            if rooms_disjoint(rseq) {
                // corner-tagged cells stay solid wall
                assert forall|x: int, y: int| 0 <= x < w && 0 <= y < h && #[trigger] cell_tag(
                    rseq,
                    x,
                    y,
                    wi@,
                    hi@,
                ) == -1 implies is_wall(tile_at(t3, wi@, x, y)) by {
                    lemma_idx_bounds(wi@, hi@, x, y);
                    assert(grid_at(tags@, wi@, x, y) == cell_tag(rseq, x, y, wi@, hi@));
                    assert(t1[y * wi@ + x] == t0[y * wi@ + x]);
                    assert(is_wall(tile_at(t1, wi@, x, y)));
                    if tile_at(t2, wi@, x, y) != tile_at(t1, wi@, x, y) {
                        if tile_at(t2, wi@, x, y) == TileType::Floor {
                            assert(floor_written(
                                rseq,
                                self.walls_dug@,
                                x,
                                y,
                                self.walls_dug@.len() as int,
                            ));
                            let rf = choose|rj: int|
                                0 <= rj < rseq.len() && #[trigger] crate::post::dug_before(
                                    self.walls_dug@,
                                    rj,
                                    self.walls_dug@.len() as int,
                                ) && in_interior(rseq[rj], x, y);
                            lemma_interior_cell_tag(rseq, rf, x, y, wi@, hi@);
                        }
                    }
                    assert(!(x == sx && y == sy));
                }
                // at most one floor or door cell per wall segment
                assert forall|x1: int, y1: int, x2: int, y2: int|
                    0 <= x1 < w && 0 <= y1 < h && 0 <= x2 < w && 0 <= y2 < h && #[trigger] cell_tag(
                        rseq,
                        x1,
                        y1,
                        wi@,
                        hi@,
                    ) == #[trigger] cell_tag(rseq, x2, y2, wi@, hi@) && cell_tag(
                        rseq,
                        x1,
                        y1,
                        wi@,
                        hi@,
                    ) > 0 && is_floorish(tile_at(t3, wi@, x1, y1)) && is_floorish(
                        tile_at(t3, wi@, x2, y2),
                    ) implies x1 == x2 && y1 == y2 by {
                    lemma_idx_bounds(wi@, hi@, x1, y1);
                    lemma_idx_bounds(wi@, hi@, x2, y2);
                    assert(grid_at(tags@, wi@, x1, y1) == cell_tag(rseq, x1, y1, wi@, hi@));
                    assert(grid_at(tags@, wi@, x2, y2) == cell_tag(rseq, x2, y2, wi@, hi@));
                    assert(tile_at(t3, wi@, x1, y1) == tile_at(t2, wi@, x1, y1));
                    assert(tile_at(t3, wi@, x2, y2) == tile_at(t2, wi@, x2, y2));
                    lemma_breach_floor_is_carved(
                        t0,
                        t1,
                        t2,
                        tags@,
                        rseq,
                        self.walls_dug@,
                        wi@,
                        hi@,
                        x1,
                        y1,
                    );
                    lemma_breach_floor_is_carved(
                        t0,
                        t1,
                        t2,
                        tags@,
                        rseq,
                        self.walls_dug@,
                        wi@,
                        hi@,
                        x2,
                        y2,
                    );
                }
                // perimeter cells are wall except at wall segments
                assert forall|x: int, y: int, ri: int|
                    0 <= x < w && 0 <= y < h && 0 <= ri < rseq.len() && in_band(
                        #[trigger] rseq[ri],
                        x,
                        y,
                        wi@,
                        hi@,
                    ) && on_perimeter(rseq[ri], x, y) implies is_wall(
                    #[trigger] tile_at(t3, wi@, x, y),
                ) || cell_tag(rseq, x, y, wi@, hi@) > 0 by {
                    lemma_covered_tag_nonzero(rseq, ri, x, y, wi@, hi@);
                    lemma_cell_tag_range(rseq, x, y, wi@, hi@);
                    let tg = cell_tag(rseq, x, y, wi@, hi@);
                    if tg == -2 {
                        let ti = lemma_interior_tag_inverse(rseq, x, y, wi@, hi@);
                        crate::post::lemma_interior_avoids_perimeter(
                            rseq[ri],
                            rseq[ti],
                            x,
                            y,
                            wi@,
                            hi@,
                        );
                    }
                }
            }
        }
        if placed {
            Ok(())
        } else {
            Err(BuildError::NoSpawnCandidates)
        }
    }

    /// A copy of the finished grid, safe for the caller to retain.
    pub fn get_map(&self) -> (m: SpatialMap)
        requires
            self.wf(),
        ensures
            m.wf(),
            m.tiles@ == self.map.tiles@,
            m.width == self.map.width,
            m.height == self.map.height,
            m.revealed_tiles@ == self.map.revealed_tiles@,
            m.visible_tiles@ == self.map.visible_tiles@,
            m.blocked@ == self.map.blocked@,
            m.depth == self.map.depth,
            m.tile_content@.len() == self.map.tile_content@.len(),
            forall|i: int|
                0 <= i < m.tile_content@.len() ==> #[trigger] m.tile_content@[i]@
                    == self.map.tile_content@[i]@,
    {
        SpatialMap {
            tiles: clone_vec(&self.map.tiles),
            width: self.map.width,
            height: self.map.height,
            revealed_tiles: clone_vec(&self.map.revealed_tiles),
            visible_tiles: clone_vec(&self.map.visible_tiles),
            blocked: clone_vec(&self.map.blocked),
            depth: self.map.depth,
            tile_content: clone_content(&self.map.tile_content),
        }
    }

    /// The recorded start coordinate.
    pub fn get_starting_position(&self) -> (p: Position)
        ensures
            p == self.starting_position,
    {
        self.starting_position
    }

    /// The spawn-candidate coordinates recorded during carving, for the
    /// external spawner collaborator, together with the depth to spawn for.
    pub fn spawn_locations(&self) -> (r: (Vec<Position>, i32))
        ensures
            r.0@ == self.spawn_candidates@,
            r.1 == self.depth,
    {
        (clone_vec(&self.spawn_candidates), self.depth)
    }

    /// The rooms grown by the last build.
    pub fn rooms(&self) -> (r: &Vec<Room>)
        ensures
            r@ == self.rooms@,
    {
        &self.rooms
    }

    /// The wall segments breached by the last build, indexed by segment id.
    pub fn walls_dug(&self) -> (r: &Vec<bool>)
        ensures
            r@ == self.walls_dug@,
    {
        &self.walls_dug
    }
}

/// A floor or door cell on a wall segment was carved there: the carver made
/// the only floor writes outside room interiors, and interiors are tagged
/// interior when the rooms are disjoint.
proof fn lemma_breach_floor_is_carved(
    t0: Seq<TileType>,
    t1: Seq<TileType>,
    t2: Seq<TileType>,
    tags: Seq<i32>,
    rooms: Seq<Room>,
    dug: Seq<bool>,
    w: int,
    h: int,
    x: int,
    y: int,
)
    requires
        rooms_disjoint(rooms),
        0 <= x < w,
        0 <= y < h,
        0 <= y * w + x < t0.len(),
        t0.len() == t1.len() == t2.len(),
        grid_at(tags, w, x, y) == cell_tag(rooms, x, y, w, h),
        cell_tag(rooms, x, y, w, h) > 0,
        is_floorish(tile_at(t2, w, x, y)),
        is_wall(t0[y * w + x]),
        tile_at(t2, w, x, y) != tile_at(t1, w, x, y) ==> (tile_at(t2, w, x, y)
            == TileType::StoneWall && wall_written(rooms, dug, x, y, w, h, dug.len() as int)) || (
        tile_at(t2, w, x, y) == TileType::Floor && floor_written(rooms, dug, x, y, dug.len() as int)),
    ensures
        tile_at(t1, w, x, y) != t0[y * w + x],
        tile_at(t1, w, x, y) == tile_at(t2, w, x, y),
{
    if tile_at(t2, w, x, y) != tile_at(t1, w, x, y) {
        if tile_at(t2, w, x, y) == TileType::Floor {
            let rf = choose|rj: int|
                0 <= rj < rooms.len() && #[trigger] crate::post::dug_before(
                    dug,
                    rj,
                    dug.len() as int,
                ) && in_interior(rooms[rj], x, y);
            lemma_interior_cell_tag(rooms, rf, x, y, w, h);
        }
    }
}


/// Distinctness of start and exit: a successful build records a starting
/// position whose cell is floor, while the exit cell holds the stairs tile,
/// so the two coordinates never coincide.
pub proof fn lemma_start_differs_from_exit(
    m: SpatialMap,
    start: Position,
    ex: int,
    ey: int,
)
    requires
        tile_at(m.tiles@, m.width as int, start.x as int, start.y as int) == TileType::Floor,
        tile_at(m.tiles@, m.width as int, ex, ey) == TileType::DownStairs,
    ensures
        !(start.x == ex && start.y == ey),
{
}

/// Copies the per-cell occupant index.
fn clone_content(v: &Vec<Vec<u64>>) -> (r: Vec<Vec<u64>>)
    ensures
        r@.len() == v@.len(),
        forall|i: int| 0 <= i < v@.len() ==> #[trigger] r@[i]@ == v@[i]@,
{
    let mut r: Vec<Vec<u64>> = Vec::new();
    let mut i: usize = 0;
    while i < v.len()
        invariant
            i <= v@.len(),
            r@.len() == i,
            forall|j: int| 0 <= j < i ==> #[trigger] r@[j]@ == v@[j]@,
        decreases v@.len() - i,
    {
        r.push(clone_vec(&v[i]));
        i = i + 1;
    }
    r
}

} // verus!
