//! RoomGrower: expands an axis-aligned rectangle from each seed point,
//! rolling back any edge move that leaves the grid or overlaps another room.

use vstd::prelude::*;
use crate::map::Position;
use crate::rng::RandomSource;

verus! {

/// An axis-aligned rectangle in grid coordinates, corners inclusive.
#[derive(Copy, Clone, Debug, PartialEq, Eq, Structural)]
pub struct Room {
    /// Left column.
    pub x1: i32,
    /// Top row.
    pub y1: i32,
    /// Right column.
    pub x2: i32,
    /// Bottom row.
    pub y2: i32,
}

/// Two rectangles intersect (touching counts as intersecting).
pub open spec fn spec_overlap(a: Room, b: Room) -> bool {
    !(a.x1 > b.x2 || a.y1 > b.y2 || a.y2 < b.y1 || a.x2 < b.x1)
}

/// The rectangle lies inside a `w` by `h` grid.
pub open spec fn spec_room_in_bounds(r: Room, w: int, h: int) -> bool {
    r.x1 >= 0 && r.y1 >= 0 && r.x2 < w && r.y2 < h
}

/// A well-formed grown room: non-degenerate and inside the grid.
pub open spec fn spec_room_wf(r: Room, w: int, h: int) -> bool {
    0 <= r.x1 <= r.x2 < w && 0 <= r.y1 <= r.y2 < h
}

/// Every pair of distinct rooms in the sequence is disjoint.
pub open spec fn rooms_disjoint(rooms: Seq<Room>) -> bool {
    forall|i: int, j: int|
        0 <= i < rooms.len() && 0 <= j < rooms.len() && i != j ==> !spec_overlap(
            #[trigger] rooms[i],
            #[trigger] rooms[j],
        )
}

/// Every room in the sequence is well formed for a `w` by `h` grid.
pub open spec fn rooms_wf(rooms: Seq<Room>, w: int, h: int) -> bool {
    forall|i: int| 0 <= i < rooms.len() ==> spec_room_wf(#[trigger] rooms[i], w, h)
}

/// One degenerate room per seed point.
pub open spec fn initial_rooms(seeds: Seq<Position>) -> Seq<Room> {
    Seq::new(
        seeds.len(),
        |i: int| (Room { x1: seeds[i].x, y1: seeds[i].y, x2: seeds[i].x, y2: seeds[i].y }),
    )
}

/// The rectangle with one edge moved outward by one cell: edge 0 is the
/// left, 1 the top, 2 the right, 3 the bottom.
pub open spec fn spec_edge_candidate(r: Room, edge: int) -> Room {
    if edge == 0 {
        Room { x1: (r.x1 - 1) as i32, ..r }
    } else if edge == 1 {
        Room { y1: (r.y1 - 1) as i32, ..r }
    } else if edge == 2 {
        Room { x2: (r.x2 + 1) as i32, ..r }
    } else {
        Room { y2: (r.y2 + 1) as i32, ..r }
    }
}

/// The candidate rectangle overlaps a room other than `i`.
pub open spec fn spec_blocked(rooms: Seq<Room>, i: int, cand: Room) -> bool {
    exists|j: int| 0 <= j < rooms.len() && j != i && spec_overlap(cand, #[trigger] rooms[j])
}

/// One attempted edge move: on a successful roll the edge moves outward
/// unless the result leaves the grid or overlaps another room, in which
/// case it is rolled back in place.
pub open spec fn spec_apply_edge(
    rooms: Seq<Room>,
    i: int,
    edge: int,
    roll: bool,
    w: int,
    h: int,
) -> Seq<Room> {
    if !roll {
        rooms
    } else {
        let cand = spec_edge_candidate(rooms[i], edge);
        if spec_room_in_bounds(cand, w, h) && !spec_blocked(rooms, i, cand) {
            rooms.update(i, cand)
        } else {
            rooms
        }
    }
}

/// The first `upto_edge` edge moves of room `i`, in the fixed order left,
/// top, right, bottom, driven by the rolls starting at `base`.
pub open spec fn spec_grow_edges(
    rooms: Seq<Room>,
    i: int,
    rolls: Seq<bool>,
    base: int,
    w: int,
    h: int,
    upto_edge: int,
) -> Seq<Room>
    decreases upto_edge,
{
    if upto_edge <= 0 {
        rooms
    } else {
        spec_apply_edge(
            spec_grow_edges(rooms, i, rolls, base, w, h, upto_edge - 1),
            i,
            upto_edge - 1,
            rolls[base + upto_edge - 1],
            w,
            h,
        )
    }
}

/// One growth round over the first `upto_room` rooms; `n` rooms in all.
pub open spec fn spec_grow_round(
    rooms: Seq<Room>,
    rolls: Seq<bool>,
    round: int,
    w: int,
    h: int,
    upto_room: int,
    n: int,
) -> Seq<Room>
    decreases upto_room,
{
    if upto_room <= 0 {
        rooms
    } else {
        let prev = spec_grow_round(rooms, rolls, round, w, h, upto_room - 1, n);
        spec_grow_edges(prev, upto_room - 1, rolls, (round * n + (upto_room - 1)) * 4, w, h, 4)
    }
}

/// The whole stochastic growth process as a function of the edge rolls.
pub open spec fn spec_grow(
    rooms: Seq<Room>,
    rolls: Seq<bool>,
    w: int,
    h: int,
    upto_round: int,
    n: int,
) -> Seq<Room>
    decreases upto_round,
{
    if upto_round <= 0 {
        rooms
    } else {
        spec_grow_round(
            spec_grow(rooms, rolls, w, h, upto_round - 1, n),
            rolls,
            upto_round - 1,
            w,
            h,
            n,
            n,
        )
    }
}

impl Room {
    /// Whether this rectangle intersects another.
    pub fn overlap(&self, other: &Room) -> (r: bool)
        ensures
            r == spec_overlap(*self, *other),
    {
        !(self.x1 > other.x2 || self.y1 > other.y2 || self.y2 < other.y1 || self.x2 < other.x1)
    }

    /// Whether this rectangle lies inside a `w` by `h` grid.
    pub fn in_bounds(&self, w: i32, h: i32) -> (r: bool)
        ensures
            r == spec_room_in_bounds(*self, w as int, h as int),
    {
        self.x1 >= 0 && self.y1 >= 0 && self.x2 < w && self.y2 < h
    }
}

/// Whether the candidate rectangle overlaps any room other than `skip`.
fn overlaps_any(rooms: &Vec<Room>, skip: usize, cand: &Room) -> (b: bool)
    ensures
        b == exists|j: int|
            0 <= j < rooms@.len() && j != skip && spec_overlap(*cand, #[trigger] rooms@[j]),
{
    let mut found: bool = false;
    let mut j: usize = 0;
    while j < rooms.len()
        invariant
            j <= rooms@.len(),
            found == exists|t: int|
                0 <= t < j && t != skip && spec_overlap(*cand, #[trigger] rooms@[t]),
        decreases rooms@.len() - j,
    {
        if j != skip && cand.overlap(&rooms[j]) {
            found = true;
            proof {
                assert(spec_overlap(*cand, rooms@[j as int]));
            }
        }
        j = j + 1;
    }
    found
}

/// Grows the rooms from an explicit sequence of edge rolls, one per round,
/// room and edge in that order: the growth process as a checked function of
/// the rolls. Rooms whose seeds differ end pairwise disjoint, every room
/// stays in bounds, and each keeps its seed inside; two rooms seeded on the
/// same cell coincide forever and are the one input on which disjointness
/// cannot hold.
#[verifier::rlimit(100)]
pub fn grow_rooms_from_rolls(
    width: i32,
    height: i32,
    seeds: &Vec<Position>,
    rolls: &Vec<bool>,
    iterations: u32,
) -> (rooms: Vec<Room>)
    requires
        0 < width <= 4096,
        0 < height <= 4096,
        seeds@.len() <= 1000,
        iterations <= 100000,
        rolls@.len() == iterations * seeds@.len() * 4,
        forall|k: int|
            0 <= k < seeds@.len() ==> 0 <= (#[trigger] seeds@[k]).x < width && 0 <= seeds@[k].y
                < height,
    ensures
        rooms@ == spec_grow(
            initial_rooms(seeds@),
            rolls@,
            width as int,
            height as int,
            iterations as int,
            seeds@.len() as int,
        ),
        rooms@.len() == seeds@.len(),
        rooms_wf(rooms@, width as int, height as int),
        forall|k: int|
            0 <= k < rooms@.len() ==> (#[trigger] rooms@[k]).x1 <= seeds@[k].x <= rooms@[k].x2
                && rooms@[k].y1 <= seeds@[k].y <= rooms@[k].y2,
        forall|i: int, j: int|
            0 <= i < rooms@.len() && 0 <= j < rooms@.len() && i != j && seeds@[i] != seeds@[j]
                ==> !spec_overlap(#[trigger] rooms@[i], #[trigger] rooms@[j]),
{
    let n: usize = seeds.len();
    let mut rooms: Vec<Room> = Vec::new();
    let mut k: usize = 0;
    while k < n
        invariant
            n == seeds@.len(),
            k <= n,
            rooms@.len() == k,
            forall|t: int|
                0 <= t < seeds@.len() ==> 0 <= (#[trigger] seeds@[t]).x < width && 0 <= seeds@[t].y
                    < height,
            forall|t: int|
                0 <= t < k ==> #[trigger] rooms@[t] == (Room {
                    x1: seeds@[t].x,
                    y1: seeds@[t].y,
                    x2: seeds@[t].x,
                    y2: seeds@[t].y,
                }),
        decreases n - k,
    {
        let p = seeds[k];
        rooms.push(Room { x1: p.x, y1: p.y, x2: p.x, y2: p.y });
        k = k + 1;
    }
    let ghost init = initial_rooms(seeds@);
    proof {
        assert(rooms@ =~= init);
    }

    let mut round: u32 = 0;
    #[verifier::loop_isolation(false)]
    while round < iterations
        invariant
            rooms@.len() == seeds@.len(),
            rooms@ == spec_grow(init, rolls@, width as int, height as int, round as int, n as int),
            round <= iterations,
            rooms_wf(rooms@, width as int, height as int),
            forall|t: int|
                0 <= t < rooms@.len() ==> (#[trigger] rooms@[t]).x1 <= seeds@[t].x
                    <= rooms@[t].x2 && rooms@[t].y1 <= seeds@[t].y <= rooms@[t].y2,
            forall|a: int, b: int|
                0 <= a < rooms@.len() && 0 <= b < rooms@.len() && a != b && seeds@[a] != seeds@[b]
                    ==> !spec_overlap(#[trigger] rooms@[a], #[trigger] rooms@[b]),
        decreases iterations - round,
    {
        let ghost round_start = rooms@;
        let mut i: usize = 0;
        #[verifier::loop_isolation(false)]
        while i < rooms.len()
            invariant
                rooms@.len() == seeds@.len(),
                i <= rooms@.len(),
                round < iterations,
                rooms@ == spec_grow_round(
                    round_start,
                    rolls@,
                    round as int,
                    width as int,
                    height as int,
                    i as int,
                    n as int,
                ),
                rooms_wf(rooms@, width as int, height as int),
                forall|t: int|
                    0 <= t < rooms@.len() ==> (#[trigger] rooms@[t]).x1 <= seeds@[t].x
                        <= rooms@[t].x2 && rooms@[t].y1 <= seeds@[t].y <= rooms@[t].y2,
                forall|a: int, b: int|
                    0 <= a < rooms@.len() && 0 <= b < rooms@.len() && a != b && seeds@[a]
                        != seeds@[b] ==> !spec_overlap(#[trigger] rooms@[a], #[trigger] rooms@[b]),
            decreases rooms@.len() - i,
        {
            proof {
                assert((round * n + i) * 4 + 3 < iterations * n * 4 && round * n + i <= 100000000
                    && round * n <= 100000000) by (nonlinear_arith)
                    requires
                        round < iterations,
                        i < n,
                        1 <= n <= 1000,
                        iterations <= 100000,
                ;
            }
            let base: usize = ((round as usize) * n + i) * 4;
            let ghost room_start = rooms@;

            let roll0 = rolls[base];
            if roll0 {
                let mut cand: Room = rooms[i];
                cand.x1 = cand.x1 - 1;
                if cand.in_bounds(width, height) {
                    if !overlaps_any(&rooms, i, &cand) {
                        rooms.set(i, cand);
                        proof {
                            lemma_commit_keeps_disjoint(rooms@, seeds@, i as int);
                        }
                    }
                }
            }
            let ghost s1 = rooms@;
            proof {
                assert(s1 == spec_apply_edge(
                    room_start,
                    i as int,
                    0,
                    rolls@[base as int],
                    width as int,
                    height as int,
                ));
            }

            let roll1 = rolls[base + 1];
            if roll1 {
                let mut cand: Room = rooms[i];
                cand.y1 = cand.y1 - 1;
                if cand.in_bounds(width, height) {
                    if !overlaps_any(&rooms, i, &cand) {
                        rooms.set(i, cand);
                        proof {
                            lemma_commit_keeps_disjoint(rooms@, seeds@, i as int);
                        }
                    }
                }
            }
            let ghost s2 = rooms@;
            proof {
                assert(s2 == spec_apply_edge(
                    s1,
                    i as int,
                    1,
                    rolls@[base + 1],
                    width as int,
                    height as int,
                ));
            }

            let roll2 = rolls[base + 2];
            if roll2 {
                let mut cand: Room = rooms[i];
                cand.x2 = cand.x2 + 1;
                if cand.in_bounds(width, height) {
                    if !overlaps_any(&rooms, i, &cand) {
                        rooms.set(i, cand);
                        proof {
                            lemma_commit_keeps_disjoint(rooms@, seeds@, i as int);
                        }
                    }
                }
            }
            let ghost s3 = rooms@;
            proof {
                assert(s3 == spec_apply_edge(
                    s2,
                    i as int,
                    2,
                    rolls@[base + 2],
                    width as int,
                    height as int,
                ));
            }

            let roll3 = rolls[base + 3];
            if roll3 {
                let mut cand: Room = rooms[i];
                cand.y2 = cand.y2 + 1;
                if cand.in_bounds(width, height) {
                    if !overlaps_any(&rooms, i, &cand) {
                        rooms.set(i, cand);
                        proof {
                            lemma_commit_keeps_disjoint(rooms@, seeds@, i as int);
                        }
                    }
                }
            }
            proof {
                assert(rooms@ == spec_apply_edge(
                    s3,
                    i as int,
                    3,
                    rolls@[base + 3],
                    width as int,
                    height as int,
                ));
                let wi = width as int;
                let hi = height as int;
                let bi = base as int;
                assert(spec_grow_edges(room_start, i as int, rolls@, bi, wi, hi, 0) == room_start);
                assert(spec_grow_edges(room_start, i as int, rolls@, bi, wi, hi, 1)
                    == spec_apply_edge(room_start, i as int, 0, rolls@[bi], wi, hi));
                assert(spec_grow_edges(room_start, i as int, rolls@, bi, wi, hi, 2)
                    == spec_apply_edge(s1, i as int, 1, rolls@[bi + 1], wi, hi));
                assert(spec_grow_edges(room_start, i as int, rolls@, bi, wi, hi, 3)
                    == spec_apply_edge(s2, i as int, 2, rolls@[bi + 2], wi, hi));
                assert(spec_grow_edges(room_start, i as int, rolls@, bi, wi, hi, 4)
                    == spec_apply_edge(s3, i as int, 3, rolls@[bi + 3], wi, hi));
                assert(spec_grow_round(
                    round_start,
                    rolls@,
                    round as int,
                    wi,
                    hi,
                    i + 1,
                    n as int,
                ) == spec_grow_edges(
                    spec_grow_round(round_start, rolls@, round as int, wi, hi, i as int, n as int),
                    i as int,
                    rolls@,
                    (round * n + i) * 4,
                    wi,
                    hi,
                    4,
                ));
            }
            i = i + 1;
        }
        proof {
            assert(spec_grow(
                init,
                rolls@,
                width as int,
                height as int,
                round + 1,
                n as int,
            ) == spec_grow_round(
                spec_grow(init, rolls@, width as int, height as int, round as int, n as int),
                rolls@,
                round as int,
                width as int,
                height as int,
                n as int,
                n as int,
            ));
        }
        round = round + 1;
    }
    rooms
}

/// Grows one degenerate room per seed over `iterations` rounds. Each round
/// tries to move each room edge outward by one cell with probability
/// `prob_percent / 100`, in the fixed order left, top, right, bottom; a move
/// that leaves the grid or overlaps any other room is rolled back in place.
///
/// The edge rolls are drawn up front from the injected random source and the
/// deterministic growth is done by `grow_rooms_from_rolls`, whose contract
/// pins the result for every roll sequence.
pub fn grow_rooms(
    rng: &mut RandomSource,
    width: i32,
    height: i32,
    seeds: &Vec<Position>,
    prob_percent: i32,
    iterations: u32,
) -> (rooms: Vec<Room>)
    requires
        0 < width <= 4096,
        0 < height <= 4096,
        0 <= prob_percent <= 100,
        seeds@.len() <= 1000,
        iterations <= 100000,
        forall|k: int|
            0 <= k < seeds@.len() ==> 0 <= (#[trigger] seeds@[k]).x < width && 0 <= seeds@[k].y
                < height,
    ensures
        rooms@.len() == seeds@.len(),
        rooms_wf(rooms@, width as int, height as int),
        iterations == 0 ==> rooms@ == initial_rooms(seeds@),
        forall|k: int|
            0 <= k < rooms@.len() ==> (#[trigger] rooms@[k]).x1 <= seeds@[k].x <= rooms@[k].x2
                && rooms@[k].y1 <= seeds@[k].y <= rooms@[k].y2,
        forall|i: int, j: int|
            0 <= i < rooms@.len() && 0 <= j < rooms@.len() && i != j && seeds@[i] != seeds@[j]
                ==> !spec_overlap(#[trigger] rooms@[i], #[trigger] rooms@[j]),
{
    let n: usize = seeds.len();
    proof {
        assert(iterations * n * 4 <= 400000000) by (nonlinear_arith)
            requires
                n <= 1000,
                iterations <= 100000,
        ;
    }
    let total: usize = (iterations as usize) * n * 4;
    let mut rolls: Vec<bool> = Vec::new();
    let mut t: usize = 0;
    while t < total
        invariant
            t <= total,
            rolls@.len() == t,
            0 <= prob_percent <= 100,
        decreases total - t,
    {
        rolls.push(rng.range(0, 100) < prob_percent);
        t = t + 1;
    }
    grow_rooms_from_rolls(width, height, seeds, &rolls, iterations)
}

/// After a committed edge move of room `i`, checked against every other
/// room, the conditional pairwise disjointness carries over.
proof fn lemma_commit_keeps_disjoint(rooms: Seq<Room>, seeds: Seq<Position>, i: int)
    requires
        0 <= i < rooms.len(),
        rooms.len() == seeds.len(),
        forall|j: int|
            0 <= j < rooms.len() && j != i ==> !spec_overlap(rooms[i], #[trigger] rooms[j]),
        forall|a: int, b: int|
            0 <= a < rooms.len() && 0 <= b < rooms.len() && a != b && b != i && a != i && seeds[a]
                != seeds[b] ==> !spec_overlap(#[trigger] rooms[a], #[trigger] rooms[b]),
    ensures
        forall|a: int, b: int|
            0 <= a < rooms.len() && 0 <= b < rooms.len() && a != b && seeds[a] != seeds[b]
                ==> !spec_overlap(#[trigger] rooms[a], #[trigger] rooms[b]),
{
    assert forall|a: int, b: int|
        0 <= a < rooms.len() && 0 <= b < rooms.len() && a != b && seeds[a]
            != seeds[b] implies !spec_overlap(#[trigger] rooms[a], #[trigger] rooms[b]) by {
        if a == i {
            assert(!spec_overlap(rooms[i], rooms[b]));
        } else if b == i {
            assert(!spec_overlap(rooms[i], rooms[a]));
        }
    }
}

} // verus!
