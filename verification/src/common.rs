//! Shared grid-editing helpers used by the map builders.

use vstd::prelude::*;
use crate::classifier::in_interior;
use crate::classifier::lemma_idx_injective;
use crate::map::SpatialMap;
use crate::map::TileType;
use crate::map::lemma_idx_bounds;
use crate::map::tile_at;
use crate::rooms::Room;

verus! {

/// The one-cell border ring written around a room rectangle: its left column
/// and the column past its right edge, its top row and the row past its
/// bottom edge.
pub open spec fn on_room_border(r: Room, x: int, y: int) -> bool {
    ((x == r.x1 || x == r.x2 + 1) && r.y1 <= y <= r.y2 + 1) || ((y == r.y1 || y == r.y2 + 1)
        && r.x1 <= x <= r.x2 + 1)
}

/// Writes one tile at a coordinate.
pub fn apply_point(map: &mut SpatialMap, x: i32, y: i32, tile: TileType)
    requires
        old(map).wf(),
        old(map).in_bounds(x as int, y as int),
    ensures
        final(map).wf(),
        *final(map) == (SpatialMap { tiles: final(map).tiles, ..*old(map) }),
        final(map).tiles@ == old(map).tiles@.update(y * old(map).width + x, tile),
{
    let idx = map.xy_idx(x, y);
    map.tiles.set(idx, tile);
}

/// Floors every cell of row `y` between the two columns, inclusive.
pub fn apply_horizontal_tunnel(map: &mut SpatialMap, x1: i32, x2: i32, y: i32)
    requires
        old(map).wf(),
        0 <= y < old(map).height,
        0 <= x1 < old(map).width,
        0 <= x2 < old(map).width,
    ensures
        final(map).wf(),
        *final(map) == (SpatialMap { tiles: final(map).tiles, ..*old(map) }),
        forall|cx: int, cy: int|
            0 <= cx < old(map).width && 0 <= cy < old(map).height && cy == y && (if x1 <= x2 {
                x1 <= cx <= x2
            } else {
                x2 <= cx <= x1
            }) ==> #[trigger] tile_at(final(map).tiles@, old(map).width as int, cx, cy)
                == TileType::Floor,
        forall|cx: int, cy: int|
            0 <= cx < old(map).width && 0 <= cy < old(map).height && !(cy == y && (if x1 <= x2 {
                x1 <= cx <= x2
            } else {
                x2 <= cx <= x1
            })) ==> #[trigger] tile_at(final(map).tiles@, old(map).width as int, cx, cy) == tile_at(
                old(map).tiles@,
                old(map).width as int,
                cx,
                cy,
            ),
{
    let w: i32 = map.width;
    let h: i32 = map.height;
    let ghost orig = *map;
    let lo: i32 = if x1 < x2 {
        x1
    } else {
        x2
    };
    let hi: i32 = if x1 < x2 {
        x2
    } else {
        x1
    };
    let mut x: i32 = lo;
    #[verifier::loop_isolation(false)]
    while x <= hi
        invariant
            map.wf(),
            *map == (SpatialMap { tiles: map.tiles, ..orig }),
            lo <= x <= hi + 1,
            forall|cx: int, cy: int|
                0 <= cx < w && 0 <= cy < h && cy == y && lo <= cx < x ==> #[trigger] tile_at(
                    map.tiles@,
                    w as int,
                    cx,
                    cy,
                ) == TileType::Floor,
            forall|cx: int, cy: int|
                0 <= cx < w && 0 <= cy < h && !(cy == y && lo <= cx < x) ==> #[trigger] tile_at(
                    map.tiles@,
                    w as int,
                    cx,
                    cy,
                ) == tile_at(orig.tiles@, w as int, cx, cy),
        decreases hi + 1 - x,
    {
        proof {
            lemma_idx_bounds(w as int, h as int, x as int, y as int);
        }
        let idx: usize = (y as usize) * (w as usize) + (x as usize);
        let ghost gold = map.tiles@;
        map.tiles.set(idx, TileType::Floor);
        proof {
            assert forall|cx: int, cy: int| 0 <= cx < w && 0 <= cy < h && !(cx == x && cy
                == y) implies #[trigger] tile_at(map.tiles@, w as int, cx, cy) == tile_at(
                gold,
                w as int,
                cx,
                cy,
            ) by {
                lemma_idx_bounds(w as int, h as int, cx, cy);
                if cy * (w as int) + cx == idx as int {
                    lemma_idx_injective(w as int, h as int, cx, cy, x as int, y as int);
                }
            }
        }
        x = x + 1;
    }
}

/// Floors every cell of column `x` between the two rows, inclusive.
pub fn apply_vertical_tunnel(map: &mut SpatialMap, y1: i32, y2: i32, x: i32)
    requires
        old(map).wf(),
        0 <= x < old(map).width,
        0 <= y1 < old(map).height,
        0 <= y2 < old(map).height,
    ensures
        final(map).wf(),
        *final(map) == (SpatialMap { tiles: final(map).tiles, ..*old(map) }),
        forall|cx: int, cy: int|
            0 <= cx < old(map).width && 0 <= cy < old(map).height && cx == x && (if y1 <= y2 {
                y1 <= cy <= y2
            } else {
                y2 <= cy <= y1
            }) ==> #[trigger] tile_at(final(map).tiles@, old(map).width as int, cx, cy)
                == TileType::Floor,
        forall|cx: int, cy: int|
            0 <= cx < old(map).width && 0 <= cy < old(map).height && !(cx == x && (if y1 <= y2 {
                y1 <= cy <= y2
            } else {
                y2 <= cy <= y1
            })) ==> #[trigger] tile_at(final(map).tiles@, old(map).width as int, cx, cy) == tile_at(
                old(map).tiles@,
                old(map).width as int,
                cx,
                cy,
            ),
{
    let w: i32 = map.width;
    let h: i32 = map.height;
    let ghost orig = *map;
    let lo: i32 = if y1 < y2 {
        y1
    } else {
        y2
    };
    let hi: i32 = if y1 < y2 {
        y2
    } else {
        y1
    };
    let mut y: i32 = lo;
    #[verifier::loop_isolation(false)]
    while y <= hi
        invariant
            map.wf(),
            *map == (SpatialMap { tiles: map.tiles, ..orig }),
            lo <= y <= hi + 1,
            forall|cx: int, cy: int|
                0 <= cx < w && 0 <= cy < h && cx == x && lo <= cy < y ==> #[trigger] tile_at(
                    map.tiles@,
                    w as int,
                    cx,
                    cy,
                ) == TileType::Floor,
            forall|cx: int, cy: int|
                0 <= cx < w && 0 <= cy < h && !(cx == x && lo <= cy < y) ==> #[trigger] tile_at(
                    map.tiles@,
                    w as int,
                    cx,
                    cy,
                ) == tile_at(orig.tiles@, w as int, cx, cy),
        decreases hi + 1 - y,
    {
        proof {
            lemma_idx_bounds(w as int, h as int, x as int, y as int);
        }
        let idx: usize = (y as usize) * (w as usize) + (x as usize);
        let ghost gold = map.tiles@;
        map.tiles.set(idx, TileType::Floor);
        proof {
            assert forall|cx: int, cy: int| 0 <= cx < w && 0 <= cy < h && !(cx == x && cy
                == y) implies #[trigger] tile_at(map.tiles@, w as int, cx, cy) == tile_at(
                gold,
                w as int,
                cx,
                cy,
            ) by {
                lemma_idx_bounds(w as int, h as int, cx, cy);
                if cy * (w as int) + cx == idx as int {
                    lemma_idx_injective(w as int, h as int, cx, cy, x as int, y as int);
                }
            }
        }
        y = y + 1;
    }
}


/// Stamps a room onto the grid: the rectangle's inner cells become floor and
/// a one-cell border ring becomes solid wall wherever it is not already
/// floor, leaving existing floor openings intact.
pub fn apply_room_to_map(map: &mut SpatialMap, room: &Room)
    requires
        old(map).wf(),
        0 <= room.x1 <= room.x2,
        room.x2 + 1 < old(map).width,
        0 <= room.y1 <= room.y2,
        room.y2 + 1 < old(map).height,
    ensures
        final(map).wf(),
        *final(map) == (SpatialMap { tiles: final(map).tiles, ..*old(map) }),
        forall|cx: int, cy: int|
            0 <= cx < old(map).width && 0 <= cy < old(map).height && in_interior(*room, cx, cy)
                ==> #[trigger] tile_at(final(map).tiles@, old(map).width as int, cx, cy)
                == TileType::Floor,
        forall|cx: int, cy: int|
            0 <= cx < old(map).width && 0 <= cy < old(map).height && on_room_border(*room, cx, cy)
                && tile_at(old(map).tiles@, old(map).width as int, cx, cy) == TileType::Floor
                ==> #[trigger] tile_at(final(map).tiles@, old(map).width as int, cx, cy)
                == TileType::Floor,
        forall|cx: int, cy: int|
            0 <= cx < old(map).width && 0 <= cy < old(map).height && on_room_border(*room, cx, cy)
                && tile_at(old(map).tiles@, old(map).width as int, cx, cy) != TileType::Floor
                ==> #[trigger] tile_at(final(map).tiles@, old(map).width as int, cx, cy)
                == TileType::StoneWall,
        forall|cx: int, cy: int|
            0 <= cx < old(map).width && 0 <= cy < old(map).height && !in_interior(*room, cx, cy)
                && !on_room_border(*room, cx, cy) ==> #[trigger] tile_at(
                final(map).tiles@,
                old(map).width as int,
                cx,
                cy,
            ) == tile_at(old(map).tiles@, old(map).width as int, cx, cy),
{
    let w: i32 = map.width;
    let h: i32 = map.height;
    let r: Room = *room;
    let ghost orig = *map;

    let mut y: i32 = r.y1 + 1;
    #[verifier::loop_isolation(false)]
    while y <= r.y2
        invariant
            map.wf(),
            *map == (SpatialMap { tiles: map.tiles, ..orig }),
            r.y1 + 1 <= y <= r.y2 + 1,
            forall|cx: int, cy: int|
                0 <= cx < w && 0 <= cy < h && in_interior(r, cx, cy) && cy < y
                    ==> #[trigger] tile_at(map.tiles@, w as int, cx, cy) == TileType::Floor,
            forall|cx: int, cy: int|
                0 <= cx < w && 0 <= cy < h && !(in_interior(r, cx, cy) && cy < y)
                    ==> #[trigger] tile_at(map.tiles@, w as int, cx, cy) == tile_at(
                    orig.tiles@,
                    w as int,
                    cx,
                    cy,
                ),
        decreases r.y2 + 1 - y,
    {
        let mut x: i32 = r.x1 + 1;
        #[verifier::loop_isolation(false)]
        while x <= r.x2
            invariant
                map.wf(),
                *map == (SpatialMap { tiles: map.tiles, ..orig }),
                r.y1 + 1 <= y <= r.y2,
                r.x1 + 1 <= x <= r.x2 + 1,
                forall|cx: int, cy: int|
                    0 <= cx < w && 0 <= cy < h && in_interior(r, cx, cy) && (cy < y || (cy == y
                        && cx < x)) ==> #[trigger] tile_at(map.tiles@, w as int, cx, cy)
                        == TileType::Floor,
                forall|cx: int, cy: int|
                    0 <= cx < w && 0 <= cy < h && !(in_interior(r, cx, cy) && (cy < y || (cy == y
                        && cx < x))) ==> #[trigger] tile_at(map.tiles@, w as int, cx, cy)
                        == tile_at(orig.tiles@, w as int, cx, cy),
            decreases r.x2 + 1 - x,
        {
            proof {
                lemma_idx_bounds(w as int, h as int, x as int, y as int);
            }
            let idx: usize = (y as usize) * (w as usize) + (x as usize);
            let ghost gold = map.tiles@;
            map.tiles.set(idx, TileType::Floor);
            proof {
                assert forall|cx: int, cy: int| 0 <= cx < w && 0 <= cy < h && !(cx == x && cy
                    == y) implies #[trigger] tile_at(map.tiles@, w as int, cx, cy) == tile_at(
                    gold,
                    w as int,
                    cx,
                    cy,
                ) by {
                    lemma_idx_bounds(w as int, h as int, cx, cy);
                    if cy * (w as int) + cx == idx as int {
                        lemma_idx_injective(w as int, h as int, cx, cy, x as int, y as int);
                    }
                }
            }
            x = x + 1;
        }
        y = y + 1;
    }

    let mut yb: i32 = r.y1;
    #[verifier::loop_isolation(false)]
    while yb <= r.y2 + 1
        invariant
            map.wf(),
            *map == (SpatialMap { tiles: map.tiles, ..orig }),
            r.y1 <= yb <= r.y2 + 2,
            forall|cx: int, cy: int|
                0 <= cx < w && 0 <= cy < h && in_interior(r, cx, cy) ==> #[trigger] tile_at(
                    map.tiles@,
                    w as int,
                    cx,
                    cy,
                ) == TileType::Floor,
            forall|cx: int, cy: int|
                0 <= cx < w && 0 <= cy < h && (cx == r.x1 || cx == r.x2 + 1) && r.y1 <= cy < yb
                    && tile_at(orig.tiles@, w as int, cx, cy) == TileType::Floor
                    ==> #[trigger] tile_at(map.tiles@, w as int, cx, cy) == TileType::Floor,
            forall|cx: int, cy: int|
                0 <= cx < w && 0 <= cy < h && (cx == r.x1 || cx == r.x2 + 1) && r.y1 <= cy < yb
                    && tile_at(orig.tiles@, w as int, cx, cy) != TileType::Floor
                    ==> #[trigger] tile_at(map.tiles@, w as int, cx, cy) == TileType::StoneWall,
            forall|cx: int, cy: int|
                0 <= cx < w && 0 <= cy < h && !in_interior(r, cx, cy) && !((cx == r.x1 || cx == r.x2
                    + 1) && r.y1 <= cy < yb) ==> #[trigger] tile_at(map.tiles@, w as int, cx, cy)
                    == tile_at(orig.tiles@, w as int, cx, cy),
        decreases r.y2 + 2 - yb,
    {
        proof {
            lemma_idx_bounds(w as int, h as int, r.x1 as int, yb as int);
            lemma_idx_bounds(w as int, h as int, r.x2 + 1, yb as int);
        }
        let idx1: usize = (yb as usize) * (w as usize) + (r.x1 as usize);
        let ghost g1 = map.tiles@;
        if !(map.tiles[idx1] == TileType::Floor) {
            map.tiles.set(idx1, TileType::StoneWall);
        }
        proof {
            assert forall|cx: int, cy: int| 0 <= cx < w && 0 <= cy < h && !(cx == r.x1 && cy
                == yb) implies #[trigger] tile_at(map.tiles@, w as int, cx, cy) == tile_at(
                g1,
                w as int,
                cx,
                cy,
            ) by {
                lemma_idx_bounds(w as int, h as int, cx, cy);
                if cy * (w as int) + cx == idx1 as int {
                    lemma_idx_injective(w as int, h as int, cx, cy, r.x1 as int, yb as int);
                }
            }
        }
        let idx2: usize = (yb as usize) * (w as usize) + ((r.x2 + 1) as usize);
        let ghost g2 = map.tiles@;
        if !(map.tiles[idx2] == TileType::Floor) {
            map.tiles.set(idx2, TileType::StoneWall);
        }
        proof {
            assert forall|cx: int, cy: int| 0 <= cx < w && 0 <= cy < h && !(cx == r.x2 + 1 && cy
                == yb) implies #[trigger] tile_at(map.tiles@, w as int, cx, cy) == tile_at(
                g2,
                w as int,
                cx,
                cy,
            ) by {
                lemma_idx_bounds(w as int, h as int, cx, cy);
                if cy * (w as int) + cx == idx2 as int {
                    lemma_idx_injective(w as int, h as int, cx, cy, r.x2 + 1, yb as int);
                }
            }
        }
        yb = yb + 1;
    }

    let mut xb: i32 = r.x1;
    #[verifier::loop_isolation(false)]
    while xb <= r.x2 + 1
        invariant
            map.wf(),
            *map == (SpatialMap { tiles: map.tiles, ..orig }),
            r.x1 <= xb <= r.x2 + 2,
            forall|cx: int, cy: int|
                0 <= cx < w && 0 <= cy < h && in_interior(r, cx, cy) ==> #[trigger] tile_at(
                    map.tiles@,
                    w as int,
                    cx,
                    cy,
                ) == TileType::Floor,
            forall|cx: int, cy: int|
                0 <= cx < w && 0 <= cy < h && (cx == r.x1 || cx == r.x2 + 1) && r.y1 <= cy <= r.y2
                    + 1 && tile_at(orig.tiles@, w as int, cx, cy) == TileType::Floor
                    ==> #[trigger] tile_at(map.tiles@, w as int, cx, cy) == TileType::Floor,
            forall|cx: int, cy: int|
                0 <= cx < w && 0 <= cy < h && (cx == r.x1 || cx == r.x2 + 1) && r.y1 <= cy <= r.y2
                    + 1 && tile_at(orig.tiles@, w as int, cx, cy) != TileType::Floor
                    ==> #[trigger] tile_at(map.tiles@, w as int, cx, cy) == TileType::StoneWall,
            forall|cx: int, cy: int|
                0 <= cx < w && 0 <= cy < h && (cy == r.y1 || cy == r.y2 + 1) && r.x1 <= cx < xb
                    && tile_at(orig.tiles@, w as int, cx, cy) == TileType::Floor
                    ==> #[trigger] tile_at(map.tiles@, w as int, cx, cy) == TileType::Floor,
            forall|cx: int, cy: int|
                0 <= cx < w && 0 <= cy < h && (cy == r.y1 || cy == r.y2 + 1) && r.x1 <= cx < xb
                    && tile_at(orig.tiles@, w as int, cx, cy) != TileType::Floor
                    ==> #[trigger] tile_at(map.tiles@, w as int, cx, cy) == TileType::StoneWall,
            forall|cx: int, cy: int|
                0 <= cx < w && 0 <= cy < h && !in_interior(r, cx, cy) && !((cx == r.x1 || cx == r.x2
                    + 1) && r.y1 <= cy <= r.y2 + 1) && !((cy == r.y1 || cy == r.y2 + 1) && r.x1
                    <= cx < xb) ==> #[trigger] tile_at(map.tiles@, w as int, cx, cy) == tile_at(
                    orig.tiles@,
                    w as int,
                    cx,
                    cy,
                ),
        decreases r.x2 + 2 - xb,
    {
        proof {
            lemma_idx_bounds(w as int, h as int, xb as int, r.y1 as int);
            lemma_idx_bounds(w as int, h as int, xb as int, r.y2 + 1);
        }
        let idx1: usize = (r.y1 as usize) * (w as usize) + (xb as usize);
        let ghost g1 = map.tiles@;
        if !(map.tiles[idx1] == TileType::Floor) {
            map.tiles.set(idx1, TileType::StoneWall);
        }
        proof {
            assert forall|cx: int, cy: int| 0 <= cx < w && 0 <= cy < h && !(cx == xb && cy
                == r.y1) implies #[trigger] tile_at(map.tiles@, w as int, cx, cy) == tile_at(
                g1,
                w as int,
                cx,
                cy,
            ) by {
                lemma_idx_bounds(w as int, h as int, cx, cy);
                if cy * (w as int) + cx == idx1 as int {
                    lemma_idx_injective(w as int, h as int, cx, cy, xb as int, r.y1 as int);
                }
            }
        }
        let idx2: usize = ((r.y2 + 1) as usize) * (w as usize) + (xb as usize);
        let ghost g2 = map.tiles@;
        if !(map.tiles[idx2] == TileType::Floor) {
            map.tiles.set(idx2, TileType::StoneWall);
        }
        proof {
            assert forall|cx: int, cy: int| 0 <= cx < w && 0 <= cy < h && !(cx == xb && cy == r.y2
                + 1) implies #[trigger] tile_at(map.tiles@, w as int, cx, cy) == tile_at(
                g2,
                w as int,
                cx,
                cy,
            ) by {
                lemma_idx_bounds(w as int, h as int, cx, cy);
                if cy * (w as int) + cx == idx2 as int {
                    lemma_idx_injective(w as int, h as int, cx, cy, xb as int, r.y2 + 1);
                }
            }
        }
        xb = xb + 1;
    }
}

} // verus!
