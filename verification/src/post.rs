//! PostProcessor: reconciles every breached room after carving. Un-carved
//! interior cells become floor, un-breached perimeter cells become solid
//! wall, so each breached room ends fully enclosed except at its recorded
//! breach points.

use vstd::prelude::*;
use crate::classifier::in_band;
use crate::classifier::in_interior;
use crate::classifier::on_perimeter;
use crate::map::SpatialMap;
use crate::map::TileType;
use crate::map::is_floorish;
use crate::map::lemma_idx_bounds;
use crate::map::tile_at;
use crate::classifier::lemma_idx_injective;
use crate::rooms::Room;
use crate::rooms::rooms_disjoint;
use crate::rooms::rooms_wf;
use crate::rooms::spec_overlap;
use crate::rooms::spec_room_wf;

verus! {

/// Some side of room `ri` is marked dug by a segment id below `upto`.
pub open spec fn dug_before(dug: Seq<bool>, ri: int, upto: int) -> bool {
    exists|side: int| 1 <= side <= 4 && 4 * ri + side < upto && #[trigger] dug[4 * ri + side]
}

/// Some side of room `ri` is marked dug.
pub open spec fn room_dug(dug: Seq<bool>, ri: int) -> bool {
    dug_before(dug, ri, dug.len() as int)
}

/// The cell lies on the perimeter ring of a room already swept.
pub open spec fn wall_written(
    rooms: Seq<Room>,
    dug: Seq<bool>,
    x: int,
    y: int,
    w: int,
    h: int,
    upto: int,
) -> bool {
    exists|ri: int|
        0 <= ri < rooms.len() && #[trigger] dug_before(dug, ri, upto) && in_band(
            rooms[ri],
            x,
            y,
            w,
            h,
        ) && on_perimeter(rooms[ri], x, y)
}

/// The cell lies in the interior of a room already swept.
pub open spec fn floor_written(rooms: Seq<Room>, dug: Seq<bool>, x: int, y: int, upto: int) -> bool {
    exists|ri: int|
        0 <= ri < rooms.len() && #[trigger] dug_before(dug, ri, upto) && in_interior(
            rooms[ri],
            x,
            y,
        )
}

/// One sweep as a per-cell function: a band cell not already floor or door
/// becomes solid wall on the perimeter ring and floor inside.
pub open spec fn sweep_model(tiles: Seq<TileType>, room: Room, w: int, h: int) -> Seq<TileType> {
    Seq::new(
        tiles.len(),
        |i: int|
            {
                let x = i % w;
                let y = i / w;
                if in_band(room, x, y, w, h) && !is_floorish(tiles[i]) {
                    if on_perimeter(room, x, y) {
                        TileType::StoneWall
                    } else {
                        TileType::Floor
                    }
                } else {
                    tiles[i]
                }
            },
    )
}

/// The grid after sweeping every dug segment id below `upto`, ascending.
pub open spec fn post_run(
    tiles: Seq<TileType>,
    rooms: Seq<Room>,
    dug: Seq<bool>,
    w: int,
    h: int,
    upto: nat,
) -> Seq<TileType>
    decreases upto,
{
    if upto <= 1 {
        tiles
    } else {
        let prev = post_run(tiles, rooms, dug, w, h, (upto - 1) as nat);
        let cur_id = upto - 1;
        if dug[cur_id as int] {
            sweep_model(prev, rooms[(cur_id - 1) as int / 4], w, h)
        } else {
            prev
        }
    }
}

/// A cell interior to one room is never on the perimeter ring of that room,
/// nor of any room disjoint from it.
pub proof fn lemma_interior_avoids_perimeter(r: Room, s: Room, x: int, y: int, w: int, h: int)
    requires
        r == s || !spec_overlap(r, s),
        in_interior(s, x, y),
        in_band(r, x, y, w, h),
    ensures
        !on_perimeter(r, x, y),
{
}

/// Sweeps one room band: cells already floor or door stay; other band cells
/// become solid wall on the perimeter ring and floor inside.
pub fn sweep_room(map: &mut SpatialMap, room: Room)
    requires
        old(map).wf(),
        spec_room_wf(room, old(map).width as int, old(map).height as int),
    ensures
        final(map).wf(),
        *final(map) == (SpatialMap { tiles: final(map).tiles, ..*old(map) }),
        final(map).tiles@ == sweep_model(
            old(map).tiles@,
            room,
            old(map).width as int,
            old(map).height as int,
        ),
        forall|x: int, y: int|
            0 <= x < old(map).width && 0 <= y < old(map).height && !in_band(
                room,
                x,
                y,
                old(map).width as int,
                old(map).height as int,
            ) ==> #[trigger] tile_at(final(map).tiles@, old(map).width as int, x, y) == tile_at(
                old(map).tiles@,
                old(map).width as int,
                x,
                y,
            ),
        forall|x: int, y: int|
            0 <= x < old(map).width && 0 <= y < old(map).height && is_floorish(
                tile_at(old(map).tiles@, old(map).width as int, x, y),
            ) ==> #[trigger] tile_at(final(map).tiles@, old(map).width as int, x, y) == tile_at(
                old(map).tiles@,
                old(map).width as int,
                x,
                y,
            ),
        forall|x: int, y: int|
            0 <= x < old(map).width && 0 <= y < old(map).height && in_band(
                room,
                x,
                y,
                old(map).width as int,
                old(map).height as int,
            ) && !is_floorish(tile_at(old(map).tiles@, old(map).width as int, x, y))
                && on_perimeter(room, x, y) ==> #[trigger] tile_at(
                final(map).tiles@,
                old(map).width as int,
                x,
                y,
            ) == TileType::StoneWall,
        forall|x: int, y: int|
            0 <= x < old(map).width && 0 <= y < old(map).height && in_band(
                room,
                x,
                y,
                old(map).width as int,
                old(map).height as int,
            ) && !is_floorish(tile_at(old(map).tiles@, old(map).width as int, x, y))
                && !on_perimeter(room, x, y) ==> #[trigger] tile_at(
                final(map).tiles@,
                old(map).width as int,
                x,
                y,
            ) == TileType::Floor,
{
    let w: i32 = map.width;
    let h: i32 = map.height;
    let ghost orig = *map;
    let xend: i32 = if w < room.x2 + 2 {
        w
    } else {
        room.x2 + 2
    };
    let yend: i32 = if h < room.y2 + 2 {
        h
    } else {
        room.y2 + 2
    };
    let mut x: i32 = room.x1;
    #[verifier::loop_isolation(false)]
    while x < xend
        invariant
            map.wf(),
            *map == (SpatialMap { tiles: map.tiles, ..orig }),
            room.x1 <= x <= xend,
            forall|cx: int, cy: int|
                0 <= cx < w && 0 <= cy < h && !(in_band(room, cx, cy, w as int, h as int) && cx < x)
                    ==> #[trigger] tile_at(map.tiles@, w as int, cx, cy) == tile_at(
                    orig.tiles@,
                    w as int,
                    cx,
                    cy,
                ),
            forall|cx: int, cy: int|
                0 <= cx < w && 0 <= cy < h && in_band(room, cx, cy, w as int, h as int) && cx < x
                    && is_floorish(tile_at(orig.tiles@, w as int, cx, cy)) ==> #[trigger] tile_at(
                    map.tiles@,
                    w as int,
                    cx,
                    cy,
                ) == tile_at(orig.tiles@, w as int, cx, cy),
            forall|cx: int, cy: int|
                0 <= cx < w && 0 <= cy < h && in_band(room, cx, cy, w as int, h as int) && cx < x
                    && !is_floorish(tile_at(orig.tiles@, w as int, cx, cy)) && on_perimeter(
                    room,
                    cx,
                    cy,
                ) ==> #[trigger] tile_at(map.tiles@, w as int, cx, cy) == TileType::StoneWall,
            forall|cx: int, cy: int|
                0 <= cx < w && 0 <= cy < h && in_band(room, cx, cy, w as int, h as int) && cx < x
                    && !is_floorish(tile_at(orig.tiles@, w as int, cx, cy)) && !on_perimeter(
                    room,
                    cx,
                    cy,
                ) ==> #[trigger] tile_at(map.tiles@, w as int, cx, cy) == TileType::Floor,
        decreases xend - x,
    {
        let mut y: i32 = room.y1;
        #[verifier::loop_isolation(false)]
        while y < yend
            invariant
                map.wf(),
                *map == (SpatialMap { tiles: map.tiles, ..orig }),
                room.x1 <= x < xend,
                room.y1 <= y <= yend,
                forall|cx: int, cy: int|
                    0 <= cx < w && 0 <= cy < h && !(in_band(room, cx, cy, w as int, h as int) && (cx
                        < x || (cx == x && cy < y))) ==> #[trigger] tile_at(
                        map.tiles@,
                        w as int,
                        cx,
                        cy,
                    ) == tile_at(orig.tiles@, w as int, cx, cy),
                forall|cx: int, cy: int|
                    0 <= cx < w && 0 <= cy < h && in_band(room, cx, cy, w as int, h as int) && (cx
                        < x || (cx == x && cy < y)) && is_floorish(
                        tile_at(orig.tiles@, w as int, cx, cy),
                    ) ==> #[trigger] tile_at(map.tiles@, w as int, cx, cy) == tile_at(
                        orig.tiles@,
                        w as int,
                        cx,
                        cy,
                    ),
                forall|cx: int, cy: int|
                    0 <= cx < w && 0 <= cy < h && in_band(room, cx, cy, w as int, h as int) && (cx
                        < x || (cx == x && cy < y)) && !is_floorish(
                        tile_at(orig.tiles@, w as int, cx, cy),
                    ) && on_perimeter(room, cx, cy) ==> #[trigger] tile_at(
                        map.tiles@,
                        w as int,
                        cx,
                        cy,
                    ) == TileType::StoneWall,
                forall|cx: int, cy: int|
                    0 <= cx < w && 0 <= cy < h && in_band(room, cx, cy, w as int, h as int) && (cx
                        < x || (cx == x && cy < y)) && !is_floorish(
                        tile_at(orig.tiles@, w as int, cx, cy),
                    ) && !on_perimeter(room, cx, cy) ==> #[trigger] tile_at(
                        map.tiles@,
                        w as int,
                        cx,
                        cy,
                    ) == TileType::Floor,
            decreases yend - y,
        {
            proof {
                lemma_idx_bounds(w as int, h as int, x as int, y as int);
            }
            let idx: usize = (y as usize) * (w as usize) + (x as usize);
            let t = map.tiles[idx];
            let ghost gold = map.tiles@;
            if !(t == TileType::Door || t == TileType::Floor) {
                if x == room.x1 || x == room.x2 + 1 || y == room.y1 || y == room.y2 + 1 {
                    map.tiles.set(idx, TileType::StoneWall);
                } else {
                    map.tiles.set(idx, TileType::Floor);
                }
            }
            proof {
                assert forall|cx: int, cy: int| 0 <= cx < w && 0 <= cy < h && !(cx == x && cy
                    == y) implies #[trigger] tile_at(map.tiles@, w as int, cx, cy) == tile_at(
                    gold,
                    w as int,
                    cx,
                    cy,
                ) by {
                    lemma_idx_bounds(w as int, h as int, cx, cy);
                    if cy * (w as int) + cx == idx as int {
                        lemma_idx_injective(w as int, h as int, cx, cy, x as int, y as int);
                    }
                }
                assert(tile_at(gold, w as int, x as int, y as int) == tile_at(
                    orig.tiles@,
                    w as int,
                    x as int,
                    y as int,
                ));
                assert(tile_at(gold, w as int, x as int, y as int) == gold[idx as int]);
            }
            y = y + 1;
        }
        x = x + 1;
    }
    proof {
        assert forall|i: int| 0 <= i < map.tiles@.len() implies map.tiles@[i] == sweep_model(
            orig.tiles@,
            room,
            w as int,
            h as int,
        )[i] by {
            crate::map::lemma_flat_coords(w as int, h as int, i);
            let cx = i % (w as int);
            let cy = i / (w as int);
            assert(map.tiles@[i] == tile_at(map.tiles@, w as int, cx, cy));
            assert(orig.tiles@[i] == tile_at(orig.tiles@, w as int, cx, cy));
        }
        assert(map.tiles@ =~= sweep_model(orig.tiles@, room, w as int, h as int));
    }
}

/// Extending the id horizon by one covers exactly the room owning that id.
pub proof fn lemma_dug_before_step(dug: Seq<bool>, ri: int, upto: int)
    ensures
        dug_before(dug, ri, upto + 1) <==> (dug_before(dug, ri, upto) || (1 <= upto - 4 * ri <= 4
            && dug[upto])),
{
    if dug_before(dug, ri, upto + 1) {
        let side = choose|side: int|
            1 <= side <= 4 && 4 * ri + side < upto + 1 && #[trigger] dug[4 * ri + side];
        if 4 * ri + side < upto {
            assert(dug_before(dug, ri, upto));
        } else {
            assert(4 * ri + side == upto);
        }
    }
    if dug_before(dug, ri, upto) {
        let side = choose|side: int|
            1 <= side <= 4 && 4 * ri + side < upto && #[trigger] dug[4 * ri + side];
        assert(1 <= side <= 4 && 4 * ri + side < upto + 1 && dug[4 * ri + side]);
    }
    if 1 <= upto - 4 * ri <= 4 && dug[upto] {
        let side = upto - 4 * ri;
        assert(1 <= side <= 4 && 4 * ri + side < upto + 1 && dug[4 * ri + side]);
    }
}

/// Sweeps the band of every room with a breached wall segment, in ascending
/// id order. Floor and door cells are preserved; other cells of a breached
/// band become solid wall on the perimeter ring and floor inside, so every
/// breached room ends enclosed except at its breach points.
pub fn post_process(map: &mut SpatialMap, rooms: &Vec<Room>, dug: &Vec<bool>)
    requires
        old(map).wf(),
        rooms_wf(rooms@, old(map).width as int, old(map).height as int),
        dug@.len() == 4 * rooms@.len() + 1,
    ensures
        final(map).wf(),
        *final(map) == (SpatialMap { tiles: final(map).tiles, ..*old(map) }),
        final(map).tiles@ == post_run(
            old(map).tiles@,
            rooms@,
            dug@,
            old(map).width as int,
            old(map).height as int,
            dug@.len(),
        ),
        forall|x: int, y: int|
            0 <= x < old(map).width && 0 <= y < old(map).height && is_floorish(
                tile_at(old(map).tiles@, old(map).width as int, x, y),
            ) ==> #[trigger] tile_at(final(map).tiles@, old(map).width as int, x, y) == tile_at(
                old(map).tiles@,
                old(map).width as int,
                x,
                y,
            ),
        forall|x: int, y: int|
            0 <= x < old(map).width && 0 <= y < old(map).height && #[trigger] tile_at(
                final(map).tiles@,
                old(map).width as int,
                x,
                y,
            ) != tile_at(old(map).tiles@, old(map).width as int, x, y) ==> (tile_at(
                final(map).tiles@,
                old(map).width as int,
                x,
                y,
            ) == TileType::StoneWall && wall_written(
                rooms@,
                dug@,
                x,
                y,
                old(map).width as int,
                old(map).height as int,
                dug@.len() as int,
            )) || (tile_at(final(map).tiles@, old(map).width as int, x, y) == TileType::Floor
                && floor_written(rooms@, dug@, x, y, dug@.len() as int)),
        forall|x: int, y: int, ri: int|
            0 <= x < old(map).width && 0 <= y < old(map).height && 0 <= ri < rooms@.len()
                && room_dug(dug@, ri) && in_interior(#[trigger] rooms@[ri], x, y) ==> is_floorish(
                #[trigger] tile_at(final(map).tiles@, old(map).width as int, x, y),
            ),
        rooms_disjoint(rooms@) ==> forall|x: int, y: int, ri: int|
            0 <= x < old(map).width && 0 <= y < old(map).height && 0 <= ri < rooms@.len()
                && room_dug(dug@, ri) && in_band(
                #[trigger] rooms@[ri],
                x,
                y,
                old(map).width as int,
                old(map).height as int,
            ) && on_perimeter(rooms@[ri], x, y) && !is_floorish(
                tile_at(old(map).tiles@, old(map).width as int, x, y),
            ) ==> #[trigger] tile_at(final(map).tiles@, old(map).width as int, x, y)
                == TileType::StoneWall,
{
    let w: i32 = map.width;
    let h: i32 = map.height;
    let ghost orig = *map;
    let mut id: usize = 1;
    #[verifier::loop_isolation(false)]
    while id < dug.len()
        invariant
            map.wf(),
            *map == (SpatialMap { tiles: map.tiles, ..orig }),
            1 <= id <= dug@.len(),
            map.tiles@ == post_run(orig.tiles@, rooms@, dug@, w as int, h as int, id as nat),
            forall|x: int, y: int|
                0 <= x < w && 0 <= y < h && is_floorish(tile_at(orig.tiles@, w as int, x, y))
                    ==> #[trigger] tile_at(map.tiles@, w as int, x, y) == tile_at(
                    orig.tiles@,
                    w as int,
                    x,
                    y,
                ),
            forall|x: int, y: int|
                0 <= x < w && 0 <= y < h && #[trigger] tile_at(map.tiles@, w as int, x, y)
                    != tile_at(orig.tiles@, w as int, x, y) ==> (tile_at(map.tiles@, w as int, x, y)
                    == TileType::StoneWall && wall_written(
                    rooms@,
                    dug@,
                    x,
                    y,
                    w as int,
                    h as int,
                    id as int,
                )) || (tile_at(map.tiles@, w as int, x, y) == TileType::Floor && floor_written(
                    rooms@,
                    dug@,
                    x,
                    y,
                    id as int,
                )),
            forall|x: int, y: int, ri: int|
                0 <= x < w && 0 <= y < h && 0 <= ri < rooms@.len() && dug_before(
                    dug@,
                    ri,
                    id as int,
                ) && in_interior(#[trigger] rooms@[ri], x, y) ==> is_floorish(
                    #[trigger] tile_at(map.tiles@, w as int, x, y),
                ),
            rooms_disjoint(rooms@) ==> forall|x: int, y: int, ri: int|
                0 <= x < w && 0 <= y < h && 0 <= ri < rooms@.len() && dug_before(
                    dug@,
                    ri,
                    id as int,
                ) && in_band(#[trigger] rooms@[ri], x, y, w as int, h as int) && on_perimeter(
                    rooms@[ri],
                    x,
                    y,
                ) && !is_floorish(tile_at(orig.tiles@, w as int, x, y)) ==> #[trigger] tile_at(
                    map.tiles@,
                    w as int,
                    x,
                    y,
                ) == TileType::StoneWall,
        decreases dug@.len() - id,
    {
        let ghost pre = map.tiles@;
        proof {
            assert(post_run(orig.tiles@, rooms@, dug@, w as int, h as int, (id + 1) as nat) == (
            if dug@[id as int] {
                sweep_model(pre, rooms@[(id - 1) as int / 4], w as int, h as int)
            } else {
                pre
            }));
        }
        if dug[id] {
            proof {
                assert(4 * ((id - 1) as int / 4) <= id - 1 && id - 1 < 4 * ((id - 1) as int / 4)
                    + 4) by (nonlinear_arith)
                    requires
                        id >= 1,
                ;
            }
            let ri: usize = (id - 1) / 4;
            let room: Room = rooms[ri];
            proof {
                assert(1 <= id as int - 4 * (ri as int) <= 4);
            }
            sweep_room(map, room);
        }
        proof {
            let wi = w as int;
            let hi = h as int;
            let di = dug@;
            let ro = rooms@;
            assert forall|ri2: int| #[trigger]
                dug_before(di, ri2, id + 1) implies dug_before(di, ri2, id as int) || (1 <= id
                - 4 * ri2 <= 4 && di[id as int] && ri2 == (id - 1) as int / 4) by {
                lemma_dug_before_step(di, ri2, id as int);
                if !dug_before(di, ri2, id as int) {
                    assert(1 <= id - 4 * ri2 <= 4 && di[id as int]);
                    assert(ri2 == (id - 1) as int / 4) by (nonlinear_arith)
                        requires
                            1 <= id - 4 * ri2 <= 4,
                    ;
                }
            }
            assert forall|ri2: int| dug_before(di, ri2, id as int) implies #[trigger] dug_before(
                di,
                ri2,
                id + 1,
            ) by {
                lemma_dug_before_step(di, ri2, id as int);
            }
            if di[id as int] {
                assert(dug_before(di, (id - 1) as int / 4, id + 1)) by {
                    lemma_dug_before_step(di, (id - 1) as int / 4, id as int);
                }
            }
            // floor-or-door cells of the entry map are still untouched
            assert forall|x: int, y: int|
                0 <= x < wi && 0 <= y < hi && is_floorish(
                    tile_at(orig.tiles@, wi, x, y),
                ) implies #[trigger] tile_at(map.tiles@, wi, x, y) == tile_at(
                orig.tiles@,
                wi,
                x,
                y,
            ) by {
                assert(tile_at(pre, wi, x, y) == tile_at(orig.tiles@, wi, x, y));
            }
            // changed cells carry a sweep's mark
            assert forall|x: int, y: int|
                0 <= x < wi && 0 <= y < hi && #[trigger] tile_at(map.tiles@, wi, x, y) != tile_at(
                    orig.tiles@,
                    wi,
                    x,
                    y,
                ) implies (tile_at(map.tiles@, wi, x, y) == TileType::StoneWall && wall_written(
                ro,
                di,
                x,
                y,
                wi,
                hi,
                id + 1,
            )) || (tile_at(map.tiles@, wi, x, y) == TileType::Floor && floor_written(
                ro,
                di,
                x,
                y,
                id + 1,
            )) by {
                let cur = tile_at(map.tiles@, wi, x, y);
                let was = tile_at(pre, wi, x, y);
                if cur != was {
                    // this sweep changed the cell
                    assert(di[id as int]);
                    let ri2 = (id - 1) as int / 4;
                    assert(dug_before(di, ri2, id + 1));
                    if on_perimeter(ro[ri2], x, y) {
                        assert(wall_written(ro, di, x, y, wi, hi, id + 1));
                    } else {
                        assert(in_band(ro[ri2], x, y, wi, hi) && !on_perimeter(ro[ri2], x, y));
                        assert(in_interior(ro[ri2], x, y));
                        assert(floor_written(ro, di, x, y, id + 1));
                    }
                } else {
                    // an earlier sweep did; widen its mark by one id
                    assert(was != tile_at(orig.tiles@, wi, x, y));
                    if was == TileType::StoneWall {
                        let rw = choose|rj: int|
                            0 <= rj < ro.len() && #[trigger] dug_before(di, rj, id as int)
                                && in_band(ro[rj], x, y, wi, hi) && on_perimeter(ro[rj], x, y);
                        assert(dug_before(di, rw, id + 1));
                        assert(wall_written(ro, di, x, y, wi, hi, id + 1));
                    } else {
                        let rf = choose|rj: int|
                            0 <= rj < ro.len() && #[trigger] dug_before(di, rj, id as int)
                                && in_interior(ro[rj], x, y);
                        assert(dug_before(di, rf, id + 1));
                        assert(floor_written(ro, di, x, y, id + 1));
                    }
                }
            }
            // interiors of every room dug so far are floor or door
            assert forall|x: int, y: int, ri2: int|
                0 <= x < wi && 0 <= y < hi && 0 <= ri2 < ro.len() && dug_before(di, ri2, id + 1)
                    && in_interior(#[trigger] ro[ri2], x, y) implies is_floorish(
                #[trigger] tile_at(map.tiles@, wi, x, y),
            ) by {
                if dug_before(di, ri2, id as int) {
                    assert(is_floorish(tile_at(pre, wi, x, y)));
                } else {
                    assert(di[id as int] && ri2 == (id - 1) as int / 4);
                    if is_floorish(tile_at(pre, wi, x, y)) {
                    } else {
                        assert(in_band(ro[ri2], x, y, wi, hi));
                        lemma_interior_avoids_perimeter(ro[ri2], ro[ri2], x, y, wi, hi);
                    }
                }
            }
            // perimeter cells of every room dug so far stay solid wall
            if rooms_disjoint(ro) {
                assert forall|x: int, y: int, ri2: int|
                    0 <= x < wi && 0 <= y < hi && 0 <= ri2 < ro.len() && dug_before(
                        di,
                        ri2,
                        id + 1,
                    ) && in_band(#[trigger] ro[ri2], x, y, wi, hi) && on_perimeter(ro[ri2], x, y)
                        && !is_floorish(tile_at(orig.tiles@, wi, x, y)) implies #[trigger] tile_at(
                    map.tiles@,
                    wi,
                    x,
                    y,
                ) == TileType::StoneWall by {
                    let cur = tile_at(map.tiles@, wi, x, y);
                    let was = tile_at(pre, wi, x, y);
                    // the cell was never floored: floor marks sit in interiors,
                    // which never meet a dug room's perimeter ring
                    assert(!is_floorish(was)) by {
                        if was != tile_at(orig.tiles@, wi, x, y) {
                            if was == TileType::Floor {
                                let rf = choose|rj: int|
                                    0 <= rj < ro.len() && #[trigger] dug_before(di, rj, id as int)
                                        && in_interior(ro[rj], x, y);
                                lemma_interior_avoids_perimeter(ro[ri2], ro[rf], x, y, wi, hi);
                            }
                        }
                    }
                    if dug_before(di, ri2, id as int) {
                        assert(was == TileType::StoneWall);
                        if cur != was {
                            assert(di[id as int]);
                            let rn = (id - 1) as int / 4;
                            if !on_perimeter(ro[rn], x, y) {
                                assert(in_interior(ro[rn], x, y));
                                lemma_interior_avoids_perimeter(ro[ri2], ro[rn], x, y, wi, hi);
                            }
                        }
                    } else {
                        assert(di[id as int] && ri2 == (id - 1) as int / 4);
                        assert(cur == TileType::StoneWall);
                    }
                }
            }
        }
        id = id + 1;
    }
}

} // verus!
