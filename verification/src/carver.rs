//! DungeonCarver: a randomized best-first flood fill that carves floor from
//! one start cell outward.
//!
//! The frontier is ordered by an accumulated score: lower is more desirable.
//! A cell's score contribution is its noise-derived roughness plus a fixed
//! offset plus a centrality bias pulling the frontier toward the grid
//! center. Scores are fixed-point integers with `SCORE_SCALE` for one unit;
//! additions saturate instead of wrapping, a deliberate total tie-break in
//! place of float arithmetic. The classification grid gates carving: corner
//! cells are never carved or expanded from, interior cells get a bonus, and
//! each wall segment is breached at most once.

use vstd::prelude::*;
use crate::classifier::grid_at;
use crate::map::Position;
use crate::map::SpatialMap;
use crate::map::TileType;
use crate::map::is_wall;
use crate::map::lemma_idx_bounds;
use crate::classifier::lemma_idx_injective;

verus! {

/// Fixed-point scale of one score unit.
pub const SCORE_SCALE: i64 = 1048576;

/// Added per expanded cell alongside the roughness sample.
pub const NOISE_OFFSET: i64 = -104858;

/// Subtracted from the score of a room-interior cell.
pub const INTERIOR_BONUS: i64 = 2 * SCORE_SCALE;

/// Sum clamped to the `i64` range.
pub open spec fn clamped_add(a: int, b: int) -> int {
    if a + b > i64::MAX {
        i64::MAX as int
    } else if a + b < i64::MIN {
        i64::MIN as int
    } else {
        a + b
    }
}

/// Saturating addition: the score arithmetic never overflows.
fn add_clamped(a: i64, b: i64) -> (r: i64)
    ensures
        r as int == clamped_add(a as int, b as int),
{
    let s: i128 = a as i128 + b as i128;
    if s > i64::MAX as i128 {
        i64::MAX
    } else if s < i64::MIN as i128 {
        i64::MIN
    } else {
        s as i64
    }
}

/// Squared normalized distance from the grid center, in fixed point:
/// one unit is `SCORE_SCALE`.
pub open spec fn spec_centrality(x: int, y: int, w: int, h: int) -> int {
    ((x - w / 2) * (x - w / 2) * SCORE_SCALE) / (w * w) + ((y - h / 2) * (y - h / 2) * SCORE_SCALE)
        / (h * h)
}

/// The centrality bias of a cell, bounded by two score units.
fn centrality(x: i32, y: i32, w: i32, h: i32) -> (c: i64)
    requires
        0 < w <= 4096,
        0 < h <= 4096,
        0 <= x < w,
        0 <= y < h,
    ensures
        c == spec_centrality(x as int, y as int, w as int, h as int),
        0 <= c <= 2 * SCORE_SCALE,
{
    let dx: i64 = x as i64 - (w / 2) as i64;
    let dy: i64 = y as i64 - (h / 2) as i64;
    proof {
        assert(0 <= dx * dx * SCORE_SCALE <= 4096 * 4096 * SCORE_SCALE && dx * dx <= (w as int) * (
        w as int) && 0 < (w as int) * (w as int)) by (nonlinear_arith)
            requires
                -4096 <= dx <= 4096,
                dx == x - w / 2,
                0 <= x < w <= 4096,
                SCORE_SCALE == 1048576,
        ;
        assert(0 <= dy * dy * SCORE_SCALE <= 4096 * 4096 * SCORE_SCALE && dy * dy <= (h as int) * (
        h as int) && 0 < (h as int) * (h as int)) by (nonlinear_arith)
            requires
                -4096 <= dy <= 4096,
                dy == y - h / 2,
                0 <= y < h <= 4096,
                SCORE_SCALE == 1048576,
        ;
        assert((dx * dx * SCORE_SCALE) / ((w as int) * (w as int)) <= SCORE_SCALE && 0 <= (dx * dx
            * SCORE_SCALE) / ((w as int) * (w as int))) by (nonlinear_arith)
            requires
                0 <= dx * dx <= (w as int) * (w as int),
                0 < (w as int) * (w as int),
                SCORE_SCALE == 1048576,
        ;
        assert((dy * dy * SCORE_SCALE) / ((h as int) * (h as int)) <= SCORE_SCALE && 0 <= (dy * dy
            * SCORE_SCALE) / ((h as int) * (h as int))) by (nonlinear_arith)
            requires
                0 <= dy * dy <= (h as int) * (h as int),
                0 < (h as int) * (h as int),
                SCORE_SCALE == 1048576,
        ;
    }
    proof {
        assert((w as int) * (w as int) <= 16777216 && (h as int) * (h as int) <= 16777216)
            by (nonlinear_arith)
            requires
                0 < w <= 4096,
                0 < h <= 4096,
        ;
    }
    let wx: i64 = (w as i64) * (w as i64);
    let hy: i64 = (h as i64) * (h as i64);
    (dx * dx * SCORE_SCALE) / wx + (dy * dy * SCORE_SCALE) / hy
}

/// A frontier entry: an accumulated score and a cell, transient to one run.
#[derive(Copy, Clone, Debug, PartialEq, Eq, Structural)]
pub struct Loc {
    /// Accumulated score; lower is more desirable.
    pub score: i64,
    /// Column of the cell.
    pub x: i32,
    /// Row of the cell.
    pub y: i32,
}

/// Index of the first frontier entry with the least score.
pub open spec fn first_min_idx(s: Seq<Loc>) -> int
    decreases s.len(),
{
    if s.len() <= 1 {
        0
    } else {
        let r = first_min_idx(s.drop_last());
        if s.last().score < s[r].score {
            s.len() - 1
        } else {
            r
        }
    }
}

proof fn lemma_first_min_idx_bounds(s: Seq<Loc>)
    requires
        s.len() > 0,
    ensures
        0 <= first_min_idx(s) < s.len(),
    decreases s.len(),
{
    if s.len() > 1 {
        lemma_first_min_idx_bounds(s.drop_last());
    }
}

/// Removes and returns the first entry with the least score; lazy deletion
/// of already-visited cells happens at the caller.
fn pop_min(frontier: &mut Vec<Loc>) -> (r: Option<Loc>)
    ensures
        old(frontier)@.len() == 0 ==> r == None::<Loc> && final(frontier)@ == old(frontier)@,
        old(frontier)@.len() > 0 ==> r == Some(old(frontier)@[first_min_idx(old(frontier)@)])
            && final(frontier)@ == old(frontier)@.remove(first_min_idx(old(frontier)@)),
        forall|k: int|
            0 <= k < final(frontier)@.len() ==> old(frontier)@.contains(
                #[trigger] final(frontier)@[k],
            ),
{
    if frontier.len() == 0 {
        return None;
    }
    let ghost s = frontier@;
    let mut pick: usize = 0;
    let mut scan: usize = 1;
    while scan < frontier.len()
        invariant
            frontier@ == s,
            s.len() > 0,
            scan <= s.len(),
            pick < scan,
            pick as int == first_min_idx(s.take(scan as int)),
        decreases s.len() - scan,
    {
        proof {
            assert(s.take(scan + 1).drop_last() =~= s.take(scan as int));
            assert(s.take(scan + 1).last() == s[scan as int]);
        }
        if frontier[scan].score < frontier[pick].score {
            pick = scan;
        }
        scan = scan + 1;
    }
    proof {
        assert(s.take(s.len() as int) =~= s);
    }
    let l = frontier.remove(pick);
    proof {
        assert forall|k: int| 0 <= k < frontier@.len() implies s.contains(
            #[trigger] frontier@[k],
        ) by {
            if k < pick {
                assert(frontier@[k] == s[k]);
            } else {
                assert(frontier@[k] == s[k + 1]);
            }
        }
    }
    Some(l)
}


/// The whole carver state, as mathematical values: the model that one run
/// folds over. All of a run's output is a function of its inputs.
pub struct CarveModel {
    /// The tile grid.
    pub tiles: Seq<TileType>,
    /// Per-cell single-write visitation flags.
    pub visited: Seq<bool>,
    /// Wall segments breached so far, indexed by id.
    pub dug: Seq<bool>,
    /// Spawn candidates recorded so far.
    pub candidates: Seq<Position>,
    /// Number of committed cells.
    pub count: int,
    /// The frontier of candidate cells awaiting expansion.
    pub frontier: Seq<Loc>,
}

/// The carver state before the first frontier pop.
pub open spec fn carve_begin(
    tiles: Seq<TileType>,
    n_ids: int,
    start_x: i32,
    start_y: i32,
) -> CarveModel {
    CarveModel {
        tiles,
        visited: Seq::new(tiles.len(), |i: int| false),
        dug: Seq::new((n_ids + 1) as nat, |i: int| false),
        candidates: Seq::empty(),
        count: 0,
        frontier: seq![(Loc { score: 0, x: start_x, y: start_y })],
    }
}

/// The score a neighbor is pushed with.
pub open spec fn spec_push_score(score_eff: int, rough: int, cent: int) -> int {
    clamped_add(clamped_add(score_eff, clamped_add(rough, NOISE_OFFSET as int)), (cent * 5) / 2)
}

/// Pushes one unvisited neighbor onto the frontier.
pub open spec fn spec_maybe_push(
    frontier: Seq<Loc>,
    visited: Seq<bool>,
    rough: Seq<i64>,
    w: int,
    h: int,
    score_eff: int,
    nx: int,
    ny: int,
) -> Seq<Loc> {
    if !visited[ny * w + nx] {
        frontier.push(
            (Loc {
                score: spec_push_score(score_eff, rough[ny * w + nx] as int, spec_centrality(nx, ny, w, h)) as i64,
                x: nx as i32,
                y: ny as i32,
            }),
        )
    } else {
        frontier
    }
}

/// One transition of the carver: pop the first least-score entry; discard it
/// if its cell is visited, a corner, or an already-breached wall segment;
/// otherwise commit the cell to floor, record a breach or a candidate as due,
/// and push the unvisited axis-aligned neighbors.
pub open spec fn carve_step(
    m: CarveModel,
    tags: Seq<i32>,
    rough: Seq<i64>,
    w: int,
    h: int,
) -> CarveModel {
    if m.frontier.len() == 0 {
        m
    } else {
        let k = first_min_idx(m.frontier);
        let l = m.frontier[k];
        let f1 = m.frontier.remove(k);
        let m1 = CarveModel { frontier: f1, ..m };
        let x = l.x as int;
        let y = l.y as int;
        let idx = y * w + x;
        if m.visited[idx] {
            m1
        } else {
            let t = tags[idx];
            if t == -1 {
                m1
            } else if t > 0 && m.dug[t as int] {
                m1
            } else {
                let score_eff = if t == -2 {
                    clamped_add(l.score as int, -(INTERIOR_BONUS as int))
                } else {
                    l.score as int
                };
                let count2 = m.count + 1;
                let visited2 = m.visited.update(idx, true);
                let cands2 = if count2 % 40 == 0 {
                    m.candidates.push((Position { x: l.x, y: l.y }))
                } else {
                    m.candidates
                };
                let f2 = if x > 0 {
                    spec_maybe_push(f1, visited2, rough, w, h, score_eff, x - 1, y)
                } else {
                    f1
                };
                let f3 = if x < w - 1 {
                    spec_maybe_push(f2, visited2, rough, w, h, score_eff, x + 1, y)
                } else {
                    f2
                };
                let f4 = if y > 0 {
                    spec_maybe_push(f3, visited2, rough, w, h, score_eff, x, y - 1)
                } else {
                    f3
                };
                let f5 = if y < h - 1 {
                    spec_maybe_push(f4, visited2, rough, w, h, score_eff, x, y + 1)
                } else {
                    f4
                };
                CarveModel {
                    tiles: m.tiles.update(idx, TileType::Floor),
                    visited: visited2,
                    dug: if t > 0 {
                        m.dug.update(t as int, true)
                    } else {
                        m.dug
                    },
                    candidates: cands2,
                    count: count2,
                    frontier: f5,
                }
            }
        }
    }
}

/// The carver state after the given number of frontier pops.
pub open spec fn carve_run(
    m: CarveModel,
    tags: Seq<i32>,
    rough: Seq<i64>,
    w: int,
    h: int,
    steps: nat,
) -> CarveModel
    decreases steps,
{
    if steps == 0 {
        m
    } else {
        carve_run(carve_step(m, tags, rough, w, h), tags, rough, w, h, (steps - 1) as nat)
    }
}

/// Unrolling a run from its last step instead of its first.
proof fn lemma_carve_run_snoc(
    m: CarveModel,
    tags: Seq<i32>,
    rough: Seq<i64>,
    w: int,
    h: int,
    steps: nat,
)
    ensures
        carve_run(m, tags, rough, w, h, steps + 1) == carve_step(
            carve_run(m, tags, rough, w, h, steps),
            tags,
            rough,
            w,
            h,
        ),
    decreases steps,
{
    let m1 = carve_step(m, tags, rough, w, h);
    if steps > 0 {
        lemma_carve_run_snoc(m1, tags, rough, w, h, (steps - 1) as nat);
        assert(carve_run(m, tags, rough, w, h, steps + 1) == carve_run(
            m1,
            tags,
            rough,
            w,
            h,
            steps,
        ));
        assert(carve_run(m, tags, rough, w, h, steps) == carve_run(
            m1,
            tags,
            rough,
            w,
            h,
            (steps - 1) as nat,
        ));
    } else {
        assert(carve_run(m, tags, rough, w, h, 1) == carve_run(m1, tags, rough, w, h, 0));
        assert(carve_run(m1, tags, rough, w, h, 0) == m1);
    }
}

/// What one carver run produced: the spawn-candidate cells recorded every
/// fortieth commit, the wall segments breached (indexed by segment id), and
/// the number of cells carved.
pub struct CarveOutcome {
    /// Cells recorded during carving for the spawner and the exit.
    pub candidates: Vec<Position>,
    /// `dug[id]` is true iff wall segment `id` was breached.
    pub dug: Vec<bool>,
    /// Number of cells committed to floor.
    pub carved: u32,
}

/// Carves floor by best-first flood fill from the start cell, for at most
/// `budget` frontier pops. Cells tagged `-1` (corners) are never touched;
/// a positive wall-segment tag is carved at most once per id; every carved
/// cell becomes floor and nothing else changes.
#[verifier::rlimit(100)]
pub fn carve(
    map: &mut SpatialMap,
    tags: &Vec<i32>,
    roughness: &Vec<i64>,
    start_x: i32,
    start_y: i32,
    budget: u32,
    n_ids: u32,
) -> (o: CarveOutcome)
    requires
        old(map).wf(),
        tags@.len() == old(map).spec_area(),
        roughness@.len() == old(map).spec_area(),
        old(map).in_bounds(start_x as int, start_y as int),
        forall|c: int| 0 <= c < old(map).spec_area() ==> is_wall(#[trigger] old(map).tiles@[c]),
        forall|x: int, y: int|
            0 <= x < old(map).width && 0 <= y < old(map).height ==> -2 <= #[trigger] grid_at(
                tags@,
                old(map).width as int,
                x,
                y,
            ) <= n_ids,
        n_ids <= 1000000,
    ensures
        final(map).wf(),
        *final(map) == (SpatialMap { tiles: final(map).tiles, ..*old(map) }),
        o.dug@.len() == n_ids + 1,
        o.carved <= budget,
        o.candidates@.len() == o.carved as int / 40,
        forall|c: int|
            0 <= c < old(map).spec_area() ==> #[trigger] final(map).tiles@[c] == TileType::Floor
                || final(map).tiles@[c] == old(map).tiles@[c],
        forall|x: int, y: int|
            0 <= x < old(map).width && 0 <= y < old(map).height && #[trigger] grid_at(
                tags@,
                old(map).width as int,
                x,
                y,
            ) == -1 ==> final(map).tiles@[y * old(map).width + x] == old(map).tiles@[y * old(
                map,
            ).width + x],
        forall|x: int, y: int|
            0 <= x < old(map).width && 0 <= y < old(map).height && #[trigger] grid_at(
                tags@,
                old(map).width as int,
                x,
                y,
            ) > 0 && final(map).tiles@[y * old(map).width + x] != old(map).tiles@[y * old(
                map,
            ).width + x] ==> o.dug@[grid_at(tags@, old(map).width as int, x, y) as int],
        forall|x1: int, y1: int, x2: int, y2: int|
            0 <= x1 < old(map).width && 0 <= y1 < old(map).height && 0 <= x2 < old(map).width && 0
                <= y2 < old(map).height && #[trigger] grid_at(tags@, old(map).width as int, x1, y1)
                == #[trigger] grid_at(tags@, old(map).width as int, x2, y2) && grid_at(
                tags@,
                old(map).width as int,
                x1,
                y1,
            ) > 0 && final(map).tiles@[y1 * old(map).width + x1] != old(map).tiles@[y1 * old(
                map,
            ).width + x1] && final(map).tiles@[y2 * old(map).width + x2] != old(map).tiles@[y2
                * old(map).width + x2] ==> x1 == x2 && y1 == y2,
        forall|k: int|
            0 <= k < o.candidates@.len() ==> 0 <= (#[trigger] o.candidates@[k]).x < old(map).width
                && 0 <= o.candidates@[k].y < old(map).height,
        forall|k: int|
            0 <= k < o.candidates@.len() ==> final(map).tiles@[(#[trigger] o.candidates@[k]).y
                * old(map).width + o.candidates@[k].x] == TileType::Floor,
        forall|k: int|
            0 <= k < o.candidates@.len() ==> !((#[trigger] o.candidates@[k]).x == start_x
                && o.candidates@[k].y == start_y),
        forall|k: int|
            0 <= k < o.candidates@.len() ==> grid_at(
                tags@,
                old(map).width as int,
                (#[trigger] o.candidates@[k]).x as int,
                o.candidates@[k].y as int,
            ) != -1,
        o.carved >= 1 ==> final(map).tiles@[start_y * old(map).width + start_x] == TileType::Floor,
        o.carved == 0 ==> final(map).tiles@ == old(map).tiles@,
        budget >= 1 && grid_at(tags@, old(map).width as int, start_x as int, start_y as int) != -1
            ==> o.carved >= 1,
        ({
            let m = carve_run(
                carve_begin(old(map).tiles@, n_ids as int, start_x, start_y),
                tags@,
                roughness@,
                old(map).width as int,
                old(map).height as int,
                budget as nat,
            );
            final(map).tiles@ == m.tiles && o.candidates@ == m.candidates && o.dug@ == m.dug
                && o.carved as int == m.count
        }),
{
    let w: i32 = map.width;
    let h: i32 = map.height;
    let ghost orig = *map;
    proof {
        lemma_idx_bounds(w as int, h as int, start_x as int, start_y as int);
    }
    let area: usize = map.tiles.len();

    let mut visited: Vec<bool> = Vec::new();
    let mut z: usize = 0;
    while z < area
        invariant
            z <= area,
            visited@.len() == z,
            forall|t: int| 0 <= t < z ==> !(#[trigger] visited@[t]),
        decreases area - z,
    {
        visited.push(false);
        z = z + 1;
    }

    let n_dug: usize = (n_ids as usize) + 1;
    let mut dug: Vec<bool> = Vec::new();
    let mut z2: usize = 0;
    while z2 < n_dug
        invariant
            z2 <= n_dug,
            dug@.len() == z2,
            forall|t: int| 0 <= t < z2 ==> !(#[trigger] dug@[t]),
        decreases n_dug - z2,
    {
        dug.push(false);
        z2 = z2 + 1;
    }

    let mut frontier: Vec<Loc> = Vec::new();
    frontier.push(Loc { score: 0, x: start_x, y: start_y });

    let mut candidates: Vec<Position> = Vec::new();
    let mut count: u32 = 0;
    let ghost mut breach: Map<int, (int, int)> = Map::empty();

    let ghost init_model = carve_begin(orig.tiles@, n_ids as int, start_x, start_y);
    proof {
        assert forall|x: int, y: int|
            #![trigger grid_at(tags@, w as int, x, y)]
            0 <= x < w && 0 <= y < h implies 0 <= y * w + x < area by {
            lemma_idx_bounds(w as int, h as int, x, y);
        }
        assert(visited@ =~= init_model.visited);
        assert(dug@ =~= init_model.dug);
        assert(candidates@ =~= init_model.candidates);
        assert(frontier@ =~= init_model.frontier);
    }

    let mut it: u32 = 0;
    #[verifier::loop_isolation(false)]
    while it < budget
        invariant
            map.wf(),
            orig.wf(),
            *map == (SpatialMap { tiles: map.tiles, ..orig }),
            w == map.width,
            h == map.height,
            area == map.spec_area(),
            tags@.len() == area,
            roughness@.len() == area,
            0 <= start_x < w,
            0 <= start_y < h,
            visited@.len() == area,
            dug@.len() == n_ids + 1,
            n_ids <= 1000000,
            forall|c: int| 0 <= c < area ==> is_wall(#[trigger] orig.tiles@[c]),
            forall|x: int, y: int|
                0 <= x < w && 0 <= y < h ==> -2 <= #[trigger] grid_at(tags@, w as int, x, y)
                    <= n_ids,
            it <= budget,
            count <= it,
            // only flagged cells changed, and they are floor
            forall|c: int|
                0 <= c < area && !(#[trigger] visited@[c]) ==> map.tiles@[c] == orig.tiles@[c],
            forall|c: int|
                0 <= c < area && #[trigger] visited@[c] ==> map.tiles@[c] == TileType::Floor,
            // corner cells never flagged
            forall|x: int, y: int|
                0 <= x < w && 0 <= y < h && #[trigger] grid_at(tags@, w as int, x, y) == -1
                    ==> !visited@[y * w + x],
            // a flagged wall-segment cell has its id recorded with its cell
            forall|x: int, y: int|
                0 <= x < w && 0 <= y < h && #[trigger] grid_at(tags@, w as int, x, y) > 0
                    && visited@[y * w + x] ==> dug@[grid_at(tags@, w as int, x, y) as int]
                    && breach.contains_key(grid_at(tags@, w as int, x, y) as int)
                    && breach[grid_at(tags@, w as int, x, y) as int] == (x, y),
            // candidate bookkeeping
            candidates@.len() == count as int / 40,
            forall|k: int|
                0 <= k < candidates@.len() ==> 0 <= (#[trigger] candidates@[k]).x < w && 0
                    <= candidates@[k].y < h,
            forall|k: int|
                0 <= k < candidates@.len() ==> visited@[(#[trigger] candidates@[k]).y * w
                    + candidates@[k].x],
            forall|k: int|
                0 <= k < candidates@.len() ==> !((#[trigger] candidates@[k]).x == start_x
                    && candidates@[k].y == start_y),
            // frontier entries stay in bounds
            forall|k: int|
                0 <= k < frontier@.len() ==> 0 <= (#[trigger] frontier@[k]).x < w && 0
                    <= frontier@[k].y < h,
            // before the first commit nothing has happened
            count == 0 ==> forall|c: int| 0 <= c < area ==> !(#[trigger] visited@[c]),
            count == 0 ==> forall|t: int| 0 <= t < dug@.len() ==> !(#[trigger] dug@[t]),
            count == 0 ==> forall|k: int|
                0 <= k < frontier@.len() ==> (#[trigger] frontier@[k]).x == start_x
                    && frontier@[k].y == start_y,
            count >= 1 ==> visited@[start_y * w + start_x],
            it == 0 ==> frontier@.len() == 1,
            it >= 1 && grid_at(tags@, w as int, start_x as int, start_y as int) != -1 ==> count
                >= 1,
            (CarveModel {
                tiles: map.tiles@,
                visited: visited@,
                dug: dug@,
                candidates: candidates@,
                count: count as int,
                frontier: frontier@,
            }) == carve_run(init_model, tags@, roughness@, w as int, h as int, it as nat),
        decreases budget - it,
    {
        let ghost pre = (CarveModel {
            tiles: map.tiles@,
            visited: visited@,
            dug: dug@,
            candidates: candidates@,
            count: count as int,
            frontier: frontier@,
        });
        if frontier.len() > 0 {
            let ghost pre_frontier = frontier@;
            let popped = pop_min(&mut frontier);
            let l: Loc = popped.unwrap();
            proof {
                lemma_first_min_idx_bounds(pre_frontier);
            }
            let x: i32 = l.x;
            let y: i32 = l.y;
            proof {
                lemma_idx_bounds(w as int, h as int, x as int, y as int);
            }
            let idx: usize = (y as usize) * (w as usize) + (x as usize);
            if !visited[idx] {
                let t: i32 = tags[idx];
                proof {
                    assert(grid_at(tags@, w as int, x as int, y as int) == t);
                }
                if t != -1 {
                    let mut proceed: bool = true;
                    let mut score_eff: i64 = l.score;
                    if t == -2 {
                        score_eff = add_clamped(score_eff, -INTERIOR_BONUS);
                    } else if t > 0 {
                        if dug[t as usize] {
                            proceed = false;
                        } else {
                            dug.set(t as usize, true);
                        }
                    }
                    if proceed {
                        count = count + 1;
                        visited.set(idx, true);
                        set_tile(map, idx, TileType::Floor);
                        proof {
                            if t > 0 {
                                breach = breach.insert(t as int, (x as int, y as int));
                            }
                            assert forall|cx: int, cy: int|
                                0 <= cx < w && 0 <= cy < h && #[trigger] grid_at(
                                    tags@,
                                    w as int,
                                    cx,
                                    cy,
                                ) > 0 && visited@[cy * w + cx] implies dug@[grid_at(
                                tags@,
                                w as int,
                                cx,
                                cy,
                            ) as int] && breach.contains_key(grid_at(tags@, w as int, cx, cy) as int)
                                && breach[grid_at(tags@, w as int, cx, cy) as int] == (cx, cy) by {
                                lemma_idx_bounds(w as int, h as int, cx, cy);
                                if cy * w + cx == idx as int {
                                    lemma_idx_injective(
                                        w as int,
                                        h as int,
                                        cx,
                                        cy,
                                        x as int,
                                        y as int,
                                    );
                                }
                            }
                            assert forall|cx: int, cy: int|
                                0 <= cx < w && 0 <= cy < h && #[trigger] grid_at(
                                    tags@,
                                    w as int,
                                    cx,
                                    cy,
                                ) == -1 implies !visited@[cy * w + cx] by {
                                lemma_idx_bounds(w as int, h as int, cx, cy);
                                if cy * w + cx == idx as int {
                                    lemma_idx_injective(
                                        w as int,
                                        h as int,
                                        cx,
                                        cy,
                                        x as int,
                                        y as int,
                                    );
                                }
                            }
                        }
                        if count % 40 == 0 {
                            candidates.push(Position { x, y });
                            proof {
                                assert(count as int / 40 == (count - 1) as int / 40 + 1)
                                    by (nonlinear_arith)
                                    requires
                                        count >= 1,
                                        count as int % 40 == 0,
                                ;
                            }
                        } else {
                            proof {
                                assert(count as int / 40 == (count - 1) as int / 40)
                                    by (nonlinear_arith)
                                    requires
                                        count >= 1,
                                        count as int % 40 != 0,
                                ;
                            }
                        }
                        proof {
                            assert forall|k: int| 0 <= k < candidates@.len() implies visited@[(
                            #[trigger] candidates@[k]).y * w + candidates@[k].x] by {
                                lemma_idx_bounds(
                                    w as int,
                                    h as int,
                                    candidates@[k].x as int,
                                    candidates@[k].y as int,
                                );
                            }
                        }
                        if x > 0 {
                            let nidx: usize = idx - 1;
                            proof {
                                lemma_idx_bounds(w as int, h as int, x - 1, y as int);
                            }
                            if !visited[nidx] {
                                let cent = centrality(x - 1, y, w, h);
                                let ns = add_clamped(
                                    add_clamped(score_eff, add_clamped(roughness[nidx], NOISE_OFFSET)),
                                    cent * 5 / 2,
                                );
                                frontier.push(Loc { score: ns, x: x - 1, y });
                            }
                        }
                        if x < w - 1 {
                            let nidx: usize = idx + 1;
                            proof {
                                lemma_idx_bounds(w as int, h as int, x + 1, y as int);
                            }
                            if !visited[nidx] {
                                let cent = centrality(x + 1, y, w, h);
                                let ns = add_clamped(
                                    add_clamped(score_eff, add_clamped(roughness[nidx], NOISE_OFFSET)),
                                    cent * 5 / 2,
                                );
                                frontier.push(Loc { score: ns, x: x + 1, y });
                            }
                        }
                        if y > 0 {
                            proof {
                                lemma_idx_bounds(w as int, h as int, x as int, y - 1);
                                assert((y - 1) * (w as int) + x == y * (w as int) + x - w)
                                    by (nonlinear_arith);
                            }
                            let nidx: usize = idx - (w as usize);
                            if !visited[nidx] {
                                let cent = centrality(x, y - 1, w, h);
                                let ns = add_clamped(
                                    add_clamped(score_eff, add_clamped(roughness[nidx], NOISE_OFFSET)),
                                    cent * 5 / 2,
                                );
                                frontier.push(Loc { score: ns, x, y: y - 1 });
                            }
                        }
                        if y < h - 1 {
                            proof {
                                lemma_idx_bounds(w as int, h as int, x as int, y + 1);
                                assert((y + 1) * (w as int) + x == y * (w as int) + x + w)
                                    by (nonlinear_arith);
                            }
                            let nidx: usize = idx + (w as usize);
                            if !visited[nidx] {
                                let cent = centrality(x, y + 1, w, h);
                                let ns = add_clamped(
                                    add_clamped(score_eff, add_clamped(roughness[nidx], NOISE_OFFSET)),
                                    cent * 5 / 2,
                                );
                                frontier.push(Loc { score: ns, x, y: y + 1 });
                            }
                        }
                    }
                }
            }
        }
        proof {
            let cur = (CarveModel {
                tiles: map.tiles@,
                visited: visited@,
                dug: dug@,
                candidates: candidates@,
                count: count as int,
                frontier: frontier@,
            });
            assert(cur == carve_step(pre, tags@, roughness@, w as int, h as int));
            lemma_carve_run_snoc(init_model, tags@, roughness@, w as int, h as int, it as nat);
        }
        it = it + 1;
    }

    proof {
        assert forall|c: int| 0 <= c < area implies (#[trigger] map.tiles@[c] == TileType::Floor
            || map.tiles@[c] == orig.tiles@[c]) by {
            if visited@[c] {
            }
        }
        assert forall|x1: int, y1: int, x2: int, y2: int|
            0 <= x1 < w && 0 <= y1 < h && 0 <= x2 < w && 0 <= y2 < h && #[trigger] grid_at(
                tags@,
                w as int,
                x1,
                y1,
            ) == #[trigger] grid_at(tags@, w as int, x2, y2) && grid_at(tags@, w as int, x1, y1)
            > 0 && map.tiles@[y1 * w + x1] != orig.tiles@[y1 * w + x1] && map.tiles@[y2 * w + x2]
            != orig.tiles@[y2 * w + x2] implies x1 == x2 && y1 == y2 by {
            lemma_idx_bounds(w as int, h as int, x1, y1);
            lemma_idx_bounds(w as int, h as int, x2, y2);
            assert(visited@[y1 * w + x1]);
            assert(visited@[y2 * w + x2]);
            assert(breach[grid_at(tags@, w as int, x1, y1) as int] == (x1, y1));
            assert(breach[grid_at(tags@, w as int, x2, y2) as int] == (x2, y2));
        }
        assert forall|k: int| 0 <= k < candidates@.len() implies map.tiles@[(
        #[trigger] candidates@[k]).y * w + candidates@[k].x] == TileType::Floor by {
            lemma_idx_bounds(w as int, h as int, candidates@[k].x as int, candidates@[k].y as int);
        }
        assert forall|k: int| 0 <= k < candidates@.len() implies grid_at(
            tags@,
            w as int,
            (#[trigger] candidates@[k]).x as int,
            candidates@[k].y as int,
        ) != -1 by {
            lemma_idx_bounds(w as int, h as int, candidates@[k].x as int, candidates@[k].y as int);
        }
        if count == 0 {
            assert forall|c: int| 0 <= c < area implies map.tiles@[c] == orig.tiles@[c] by {
                assert(!visited@[c]);
            }
            assert(map.tiles@ =~= orig.tiles@);
        }
        lemma_idx_bounds(w as int, h as int, start_x as int, start_y as int);
    }

    CarveOutcome { candidates, dug, carved: count }
}

/// Writes one tile; separated out to keep the carve loop's conditions small.
fn set_tile(map: &mut SpatialMap, idx: usize, t: TileType)
    requires
        old(map).wf(),
        idx < old(map).tiles@.len(),
    ensures
        final(map).wf(),
        *final(map) == (SpatialMap { tiles: final(map).tiles, ..*old(map) }),
        final(map).tiles@ == old(map).tiles@.update(idx as int, t),
{
    map.tiles.set(idx, t);
}

} // verus!
