//! RoomClassifier: rasterizes the grown rooms into a per-cell tag grid.
//!
//! Tags: `-2` room interior, `-1` corner (never breachable), `0` unclassified
//! exterior, and `room_index * 4 + side` for a non-corner wall cell, side 1
//! left, 2 right, 3 top, 4 bottom. Rooms later in list order overwrite
//! earlier tags where their bands overlap (last writer wins).

use vstd::prelude::*;
use crate::rooms::Room;
use crate::rooms::rooms_wf;
use crate::rooms::spec_overlap;

verus! {

/// The rasterized band of a room: the rectangle plus one cell to the right
/// and below, clipped at the grid edge.
pub open spec fn in_band(r: Room, x: int, y: int, w: int, h: int) -> bool {
    r.x1 <= x && x <= r.x2 + 1 && x < w && r.y1 <= y && y <= r.y2 + 1 && y < h
}

/// The boundary cells of a room band: its perimeter ring.
pub open spec fn on_perimeter(r: Room, x: int, y: int) -> bool {
    x == r.x1 || x == r.x2 + 1 || y == r.y1 || y == r.y2 + 1
}

/// The interior cells of a room band.
pub open spec fn in_interior(r: Room, x: int, y: int) -> bool {
    r.x1 < x <= r.x2 && r.y1 < y <= r.y2
}

/// The tag a single room assigns to a cell of its band: `-1` at the four
/// band corners and along a band edge that lies on the grid's outer edge
/// (no doors onto the map boundary), a wall-segment id on the rest of the
/// perimeter, `-2` inside.
pub open spec fn room_tag(r: Room, ri: int, x: int, y: int) -> int {
    if x == r.x1 && (y == r.y1 || y == r.y2 + 1) {
        -1
    } else if x == r.x2 + 1 && (y == r.y1 || y == r.y2 + 1) {
        -1
    } else if x == r.x1 && x == 0 {
        -1
    } else if y == r.y1 && y == 0 {
        -1
    } else if x == r.x1 {
        ri * 4 + 1
    } else if x == r.x2 + 1 {
        ri * 4 + 2
    } else if y == r.y1 {
        ri * 4 + 3
    } else if y == r.y2 + 1 {
        ri * 4 + 4
    } else {
        -2
    }
}

/// The classification of a cell under a list of rooms: the tag of the last
/// room whose band covers the cell, `0` where no band does.
pub open spec fn cell_tag(rooms: Seq<Room>, x: int, y: int, w: int, h: int) -> int
    decreases rooms.len(),
{
    if rooms.len() == 0 {
        0
    } else if in_band(rooms.last(), x, y, w, h) {
        room_tag(rooms.last(), rooms.len() - 1, x, y)
    } else {
        cell_tag(rooms.drop_last(), x, y, w, h)
    }
}

/// Reads a flat tag grid at a coordinate.
pub open spec fn grid_at(g: Seq<i32>, w: int, x: int, y: int) -> i32 {
    g[y * w + x]
}

/// Distinct in-bounds coordinates have distinct flat indices.
pub proof fn lemma_idx_injective(w: int, h: int, x1: int, y1: int, x2: int, y2: int)
    requires
        0 < w,
        0 <= x1 < w,
        0 <= x2 < w,
        0 <= y1,
        0 <= y2,
        y1 * w + x1 == y2 * w + x2,
    ensures
        x1 == x2 && y1 == y2,
{
    assert(x1 == x2 && y1 == y2) by (nonlinear_arith)
        requires
            0 < w,
            0 <= x1 < w,
            0 <= x2 < w,
            0 <= y1,
            0 <= y2,
            y1 * w + x1 == y2 * w + x2,
    ;
}

/// Rasterizes the rooms, in list order, into a flat tag grid of `w * h`
/// cells indexed by `y * w + x`; every cell ends with its `cell_tag`.
pub fn room_map(rooms: &Vec<Room>, width: i32, height: i32) -> (g: Vec<i32>)
    requires
        0 < width <= 4096,
        0 < height <= 4096,
        rooms_wf(rooms@, width as int, height as int),
        rooms@.len() <= 100000,
    ensures
        g@.len() == width * height,
        forall|x: int, y: int|
            0 <= x < width && 0 <= y < height ==> #[trigger] grid_at(g@, width as int, x, y)
                == cell_tag(rooms@, x, y, width as int, height as int),
{
    let w = width;
    let h = height;
    proof {
        crate::map::lemma_idx_bounds(w as int, h as int, 0, (h - 1) as int);
    }
    let count: usize = (w as usize) * (h as usize);
    let mut g: Vec<i32> = Vec::new();
    let mut z: usize = 0;
    while z < count
        invariant
            z <= count,
            g@.len() == z,
            forall|t: int| 0 <= t < z ==> g@[t] == 0i32,
        decreases count - z,
    {
        g.push(0i32);
        z = z + 1;
    }
    proof {
        assert forall|x: int, y: int| 0 <= x < w && 0 <= y < h implies #[trigger] grid_at(
            g@,
            w as int,
            x,
            y,
        ) == cell_tag(rooms@.subrange(0, 0), x, y, w as int, h as int) by {
            crate::map::lemma_idx_bounds(w as int, h as int, x, y);
        }
    }

    let mut i: usize = 0;
    while i < rooms.len()
        invariant
            i <= rooms@.len(),
            rooms@.len() <= 100000,
            0 < w <= 4096,
            0 < h <= 4096,
            rooms_wf(rooms@, w as int, h as int),
            g@.len() == w * h,
            forall|x: int, y: int|
                0 <= x < w && 0 <= y < h ==> #[trigger] grid_at(g@, w as int, x, y) == cell_tag(
                    rooms@.subrange(0, i as int),
                    x,
                    y,
                    w as int,
                    h as int,
                ),
        decreases rooms@.len() - i,
    {
        let room: Room = rooms[i];
        let ghost prev = rooms@.subrange(0, i as int);
        let xend: i32 = if w < room.x2 + 2 {
            w
        } else {
            room.x2 + 2
        };
        let yend: i32 = if h < room.y2 + 2 {
            h
        } else {
            room.y2 + 2
        };
        let mut x: i32 = room.x1;
        while x < xend
            invariant
                0 < w <= 4096,
                0 < h <= 4096,
                crate::rooms::spec_room_wf(room, w as int, h as int),
                (i as int) < 100000,
                xend == if w < room.x2 + 2 { w as int } else { room.x2 + 2 },
                yend == if h < room.y2 + 2 { h as int } else { room.y2 + 2 },
                room.x1 <= x <= xend,
                g@.len() == w * h,
                forall|cx: int, cy: int|
                    0 <= cx < w && 0 <= cy < h && in_band(room, cx, cy, w as int, h as int) && cx
                        < x ==> #[trigger] grid_at(g@, w as int, cx, cy) == room_tag(
                        room,
                        i as int,
                        cx,
                        cy,
                    ),
                forall|cx: int, cy: int|
                    0 <= cx < w && 0 <= cy < h && !(in_band(room, cx, cy, w as int, h as int) && cx
                        < x) ==> #[trigger] grid_at(g@, w as int, cx, cy) == cell_tag(
                        prev,
                        cx,
                        cy,
                        w as int,
                        h as int,
                    ),
            decreases xend - x,
        {
            let mut y: i32 = room.y1;
            while y < yend
                invariant
                    0 < w <= 4096,
                    0 < h <= 4096,
                    crate::rooms::spec_room_wf(room, w as int, h as int),
                    (i as int) < 100000,
                    xend == if w < room.x2 + 2 { w as int } else { room.x2 + 2 },
                    yend == if h < room.y2 + 2 { h as int } else { room.y2 + 2 },
                    room.x1 <= x < xend,
                    room.y1 <= y <= yend,
                    g@.len() == w * h,
                    forall|cx: int, cy: int|
                        0 <= cx < w && 0 <= cy < h && in_band(room, cx, cy, w as int, h as int) && (
                        cx < x || (cx == x && cy < y)) ==> #[trigger] grid_at(g@, w as int, cx, cy)
                            == room_tag(room, i as int, cx, cy),
                    forall|cx: int, cy: int|
                        0 <= cx < w && 0 <= cy < h && !(in_band(room, cx, cy, w as int, h as int)
                            && (cx < x || (cx == x && cy < y))) ==> #[trigger] grid_at(
                            g@,
                            w as int,
                            cx,
                            cy,
                        ) == cell_tag(prev, cx, cy, w as int, h as int),
                decreases yend - y,
            {
                let tag: i32;
                if x == room.x1 && (y == room.y1 || y == room.y2 + 1) {
                    tag = -1;
                } else if x == room.x2 + 1 && (y == room.y1 || y == room.y2 + 1) {
                    tag = -1;
                } else if x == room.x1 && x == 0 {
                    tag = -1;
                } else if y == room.y1 && y == 0 {
                    tag = -1;
                } else if x == room.x1 {
                    tag = i as i32 * 4 + 1;
                } else if x == room.x2 + 1 {
                    tag = i as i32 * 4 + 2;
                } else if y == room.y1 {
                    tag = i as i32 * 4 + 3;
                } else if y == room.y2 + 1 {
                    tag = i as i32 * 4 + 4;
                } else {
                    tag = -2;
                }
                proof {
                    crate::map::lemma_idx_bounds(w as int, h as int, x as int, y as int);
                    assert(y == room.y2 + 1 || in_interior(room, x as int, y as int) || x == room.x1
                        || x == room.x2 + 1 || y == room.y1);
                    assert(tag as int == room_tag(room, i as int, x as int, y as int));
                }
                let idx: usize = (y as usize) * (w as usize) + (x as usize);
                let ghost gold = g@;
                g.set(idx, tag);
                proof {
                    assert forall|cx: int, cy: int| 0 <= cx < w && 0 <= cy < h && !(cx == x && cy
                        == y) implies #[trigger] grid_at(g@, w as int, cx, cy) == grid_at(
                        gold,
                        w as int,
                        cx,
                        cy,
                    ) by {
                        crate::map::lemma_idx_bounds(w as int, h as int, cx, cy);
                        if cy * (w as int) + cx == idx as int {
                            lemma_idx_injective(w as int, h as int, cx, cy, x as int, y as int);
                        }
                    }
                    assert(grid_at(g@, w as int, x as int, y as int) == tag);
                }
                y = y + 1;
            }
            x = x + 1;
        }
        proof {
            assert(rooms@.subrange(0, i + 1).drop_last() =~= prev);
            assert(rooms@.subrange(0, i + 1).last() == room);
            assert forall|cx: int, cy: int| 0 <= cx < w && 0 <= cy < h implies #[trigger] grid_at(
                g@,
                w as int,
                cx,
                cy,
            ) == cell_tag(rooms@.subrange(0, i + 1), cx, cy, w as int, h as int) by {
                if in_band(room, cx, cy, w as int, h as int) {
                    assert(cx < xend && cy < yend);
                    assert(grid_at(g@, w as int, cx, cy) == room_tag(room, i as int, cx, cy));
                } else {
                    assert(grid_at(g@, w as int, cx, cy) == cell_tag(
                        prev,
                        cx,
                        cy,
                        w as int,
                        h as int,
                    ));
                }
            }
        }
        i = i + 1;
    }
    proof {
        assert(rooms@.subrange(0, rooms@.len() as int) =~= rooms@);
    }
    g
}

/// A cell's tag never leaves the range `-2 ..= 4 * rooms.len()`.
pub proof fn lemma_cell_tag_range(rooms: Seq<Room>, x: int, y: int, w: int, h: int)
    ensures
        -2 <= cell_tag(rooms, x, y, w, h) <= 4 * rooms.len(),
    decreases rooms.len(),
{
    if rooms.len() > 0 && !in_band(rooms.last(), x, y, w, h) {
        lemma_cell_tag_range(rooms.drop_last(), x, y, w, h);
    }
}

/// A cell covered by some room band is classified: its tag is not `0`.
pub proof fn lemma_covered_tag_nonzero(rooms: Seq<Room>, ri: int, x: int, y: int, w: int, h: int)
    requires
        0 <= ri < rooms.len(),
        in_band(rooms[ri], x, y, w, h),
    ensures
        cell_tag(rooms, x, y, w, h) != 0,
    decreases rooms.len(),
{
    if !in_band(rooms.last(), x, y, w, h) {
        assert(ri < rooms.len() - 1);
        assert(rooms.drop_last()[ri] == rooms[ri]);
        lemma_covered_tag_nonzero(rooms.drop_last(), ri, x, y, w, h);
    }
}

/// A cell tagged interior really lies in the interior of one of the rooms.
pub proof fn lemma_interior_tag_inverse(rooms: Seq<Room>, x: int, y: int, w: int, h: int) -> (ti:
    int)
    requires
        cell_tag(rooms, x, y, w, h) == -2,
    ensures
        0 <= ti < rooms.len(),
        in_interior(rooms[ti], x, y),
    decreases rooms.len(),
{
    if in_band(rooms.last(), x, y, w, h) {
        rooms.len() - 1
    } else {
        let ti = lemma_interior_tag_inverse(rooms.drop_last(), x, y, w, h);
        assert(rooms.drop_last()[ti] == rooms[ti]);
        ti
    }
}

/// With pairwise disjoint rooms, a cell interior to one of them is tagged
/// interior: no later band boundary reaches into a room.
pub proof fn lemma_interior_cell_tag(rooms: Seq<Room>, si: int, x: int, y: int, w: int, h: int)
    requires
        crate::rooms::rooms_disjoint(rooms),
        0 <= si < rooms.len(),
        in_interior(rooms[si], x, y),
        0 <= x < w,
        0 <= y < h,
    ensures
        cell_tag(rooms, x, y, w, h) == -2,
    decreases rooms.len(),
{
    let last = rooms.last();
    let li = rooms.len() - 1;
    if si == li {
        assert(in_band(last, x, y, w, h));
        crate::post::lemma_interior_avoids_perimeter(last, last, x, y, w, h);
    } else {
        if in_band(last, x, y, w, h) {
            crate::post::lemma_interior_avoids_perimeter(last, rooms[si], x, y, w, h);
            assert(!on_perimeter(last, x, y));
            assert(in_interior(last, x, y));
            assert(spec_overlap(last, rooms[si]));
            assert(false);
        } else {
            assert forall|a: int, b: int|
                0 <= a < rooms.drop_last().len() && 0 <= b < rooms.drop_last().len() && a
                    != b implies !spec_overlap(
                #[trigger] rooms.drop_last()[a],
                #[trigger] rooms.drop_last()[b],
            ) by {
                assert(rooms.drop_last()[a] == rooms[a]);
                assert(rooms.drop_last()[b] == rooms[b]);
            }
            assert(rooms.drop_last()[si] == rooms[si]);
            lemma_interior_cell_tag(rooms.drop_last(), si, x, y, w, h);
        }
    }
}

} // verus!
