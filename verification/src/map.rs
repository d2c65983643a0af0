//! The published level grid: tile classifications, derived blocking flags,
//! and the neighbor/cost/opacity query surface.

use vstd::prelude::*;

verus! {

/// Default grid width of the current configuration.
pub const MAPWIDTH: usize = 80;
/// Default grid height of the current configuration.
pub const MAPHEIGHT: usize = 43;
/// Number of cells in the default grid.
pub const MAPCOUNT: usize = MAPHEIGHT * MAPWIDTH;

/// Classification of one grid cell.
#[derive(Copy, Clone, Debug, PartialEq, Eq, Structural)]
pub enum TileType {
    /// Solid wall, first visual variant.
    DirtWall,
    /// Solid wall, second visual variant.
    DirtWall2,
    /// Solid wall placed when sealing a room perimeter.
    StoneWall,
    /// Walkable floor.
    Floor,
    /// The level exit.
    DownStairs,
    /// A door opening in a room wall.
    Door,
}

/// True for the tile kinds that block movement and sight.
pub open spec fn is_wall(t: TileType) -> bool {
    t == TileType::DirtWall || t == TileType::DirtWall2 || t == TileType::StoneWall
}

/// True for the passable tile kinds produced by carving or breaching.
pub open spec fn is_floorish(t: TileType) -> bool {
    t == TileType::Floor || t == TileType::Door
}

/// A grid coordinate.
#[derive(Copy, Clone, Debug, PartialEq, Eq, Structural)]
pub struct Position {
    /// Column, 0-based.
    pub x: i32,
    /// Row, 0-based.
    pub y: i32,
}

/// Squared Euclidean distance between two coordinates.
pub open spec fn spec_square_distance(a: Position, b: Position) -> int {
    (a.x - b.x) * (a.x - b.x) + (a.y - b.y) * (a.y - b.y)
}

impl Position {
    /// Squared Euclidean distance to another coordinate.
    pub fn square_distance(&self, other: &Position) -> (r: u64)
        requires
            -1000000 <= self.x <= 1000000,
            -1000000 <= self.y <= 1000000,
            -1000000 <= other.x <= 1000000,
            -1000000 <= other.y <= 1000000,
        ensures
            r == spec_square_distance(*self, *other),
    {
        let dx: i64 = self.x as i64 - other.x as i64;
        let dy: i64 = self.y as i64 - other.y as i64;
        let adx: i64 = if dx < 0 {
            -dx
        } else {
            dx
        };
        let ady: i64 = if dy < 0 {
            -dy
        } else {
            dy
        };
        proof {
            assert(adx * adx == dx * dx && ady * ady == dy * dy && adx * adx + ady * ady
                <= 8000000000000) by (nonlinear_arith)
                requires
                    adx == if dx < 0 { -(dx as int) } else { dx as int },
                    ady == if dy < 0 { -(dy as int) } else { dy as int },
                    -2000000 <= dx <= 2000000,
                    -2000000 <= dy <= 2000000,
            ;
        }
        (adx * adx + ady * ady) as u64
    }
}

/// The level grid and its derived per-cell state.
pub struct SpatialMap {
    /// Per-cell tile classification, indexed by `y * width + x`.
    pub tiles: Vec<TileType>,
    /// Grid width in cells.
    pub width: i32,
    /// Grid height in cells.
    pub height: i32,
    /// Cells the player has ever seen.
    pub revealed_tiles: Vec<bool>,
    /// Cells the player sees this turn.
    pub visible_tiles: Vec<bool>,
    /// Derived blocking flag: true iff the tile is a wall variant.
    pub blocked: Vec<bool>,
    /// Depth of this level.
    pub depth: i32,
    /// Per-cell occupant index: entity references, cleared each game turn.
    pub tile_content: Vec<Vec<u64>>,
}

impl SpatialMap {
    /// Shape invariant: positive bounded dimensions, and every per-cell
    /// vector holds exactly `width * height` entries.
    pub open spec fn wf(self) -> bool {
        &&& 0 < self.width <= 4096
        &&& 0 < self.height <= 4096
        &&& self.tiles@.len() == self.width * self.height
        &&& self.revealed_tiles@.len() == self.width * self.height
        &&& self.visible_tiles@.len() == self.width * self.height
        &&& self.blocked@.len() == self.width * self.height
        &&& self.tile_content@.len() == self.width * self.height
    }

    /// Number of cells in the grid.
    pub open spec fn spec_area(self) -> int {
        self.width * self.height
    }

    /// In-bounds test for a coordinate.
    pub open spec fn in_bounds(self, x: int, y: int) -> bool {
        0 <= x < self.width && 0 <= y < self.height
    }

    /// Flat index of a coordinate.
    pub open spec fn spec_idx(self, x: int, y: int) -> int {
        y * self.width + x
    }

    /// Maps a coordinate to its flat index in the per-cell vectors.
    pub fn xy_idx(&self, x: i32, y: i32) -> (idx: usize)
        requires
            self.wf(),
            self.in_bounds(x as int, y as int),
        ensures
            idx == self.spec_idx(x as int, y as int),
            idx < self.spec_area(),
    {
        proof {
            lemma_idx_bounds(self.width as int, self.height as int, x as int, y as int);
        }
        (y as usize) * (self.width as usize) + (x as usize)
    }

    /// Recomputes the blocking flag of every cell from its tile kind.
    pub fn populate_blocked(&mut self)
        requires
            old(self).wf(),
        ensures
            final(self).wf(),
            *final(self) == (SpatialMap { blocked: final(self).blocked, ..*old(self) }),
            forall|i: int|
                0 <= i < final(self).spec_area() ==> final(self).blocked@[i] == is_wall(
                    final(self).tiles@[i],
                ),
    {
        let ghost orig: SpatialMap = *self;
        let n: usize = self.tiles.len();
        let mut i: usize = 0;
        while i < n
            invariant
                self.wf(),
                n == self.spec_area(),
                i <= n,
                *self == (SpatialMap { blocked: self.blocked, ..orig }),
                forall|j: int| 0 <= j < i ==> self.blocked@[j] == is_wall(self.tiles@[j]),
            decreases n - i,
        {
            let t = self.tiles[i];
            let b = t == TileType::StoneWall || t == TileType::DirtWall || t
                == TileType::DirtWall2;
            self.blocked.set(i, b);
            i = i + 1;
        }
    }

    /// Empties the occupant index of every cell.
    pub fn clear_content_index(&mut self)
        requires
            old(self).wf(),
        ensures
            final(self).wf(),
            *final(self) == (SpatialMap { tile_content: final(self).tile_content, ..*old(self) }),
            forall|i: int|
                0 <= i < final(self).spec_area() ==> final(self).tile_content@[i]@.len() == 0,
    {
        let ghost orig: SpatialMap = *self;
        let n: usize = self.tile_content.len();
        let mut i: usize = 0;
        while i < n
            invariant
                self.wf(),
                n == self.spec_area(),
                i <= n,
                *self == (SpatialMap { tile_content: self.tile_content, ..orig }),
                forall|j: int| 0 <= j < i ==> self.tile_content@[j]@.len() == 0,
            decreases n - i,
        {
            self.tile_content.set(i, Vec::new());
            i = i + 1;
        }
    }

    /// A grid of the given dimensions with every cell a solid wall.
    pub fn sized(width: i32, height: i32, new_depth: i32) -> (m: SpatialMap)
        requires
            0 < width <= 4096,
            0 < height <= 4096,
        ensures
            m.wf(),
            m.width == width,
            m.height == height,
            m.depth == new_depth,
            forall|i: int| 0 <= i < m.spec_area() ==> m.tiles@[i] == TileType::DirtWall,
            forall|i: int| 0 <= i < m.spec_area() ==> !(#[trigger] m.revealed_tiles@[i]),
            forall|i: int| 0 <= i < m.spec_area() ==> !(#[trigger] m.visible_tiles@[i]),
            forall|i: int| 0 <= i < m.spec_area() ==> !(#[trigger] m.blocked@[i]),
            forall|i: int| 0 <= i < m.spec_area() ==> (#[trigger] m.tile_content@[i])@.len() == 0,
    {
        proof {
            lemma_idx_bounds(width as int, height as int, 0, (height - 1) as int);
        }
        let count: usize = (width as usize) * (height as usize);
        let mut tiles: Vec<TileType> = Vec::new();
        let mut revealed: Vec<bool> = Vec::new();
        let mut visible: Vec<bool> = Vec::new();
        let mut blocked: Vec<bool> = Vec::new();
        let mut content: Vec<Vec<u64>> = Vec::new();
        let mut i: usize = 0;
        while i < count
            invariant
                i <= count,
                tiles@.len() == i,
                revealed@.len() == i,
                visible@.len() == i,
                blocked@.len() == i,
                content@.len() == i,
                forall|j: int| 0 <= j < i ==> tiles@[j] == TileType::DirtWall,
                forall|j: int| 0 <= j < i ==> !(#[trigger] revealed@[j]),
                forall|j: int| 0 <= j < i ==> !(#[trigger] visible@[j]),
                forall|j: int| 0 <= j < i ==> !(#[trigger] blocked@[j]),
                forall|j: int| 0 <= j < i ==> (#[trigger] content@[j])@.len() == 0,
            decreases count - i,
        {
            tiles.push(TileType::DirtWall);
            revealed.push(false);
            visible.push(false);
            blocked.push(false);
            content.push(Vec::new());
            i = i + 1;
        }
        SpatialMap {
            tiles,
            width,
            height,
            revealed_tiles: revealed,
            visible_tiles: visible,
            blocked,
            depth: new_depth,
            tile_content: content,
        }
    }

    /// A default-sized grid of solid wall.
    pub fn new(new_depth: i32) -> (m: SpatialMap)
        ensures
            m.wf(),
            m.width == MAPWIDTH as i32,
            m.height == MAPHEIGHT as i32,
            m.depth == new_depth,
            forall|i: int| 0 <= i < m.spec_area() ==> m.tiles@[i] == TileType::DirtWall,
            forall|i: int| 0 <= i < m.spec_area() ==> !(#[trigger] m.revealed_tiles@[i]),
            forall|i: int| 0 <= i < m.spec_area() ==> !(#[trigger] m.visible_tiles@[i]),
            forall|i: int| 0 <= i < m.spec_area() ==> !(#[trigger] m.blocked@[i]),
            forall|i: int| 0 <= i < m.spec_area() ==> (#[trigger] m.tile_content@[i])@.len() == 0,
    {
        SpatialMap::sized(80, 43, new_depth)
    }

    /// A coordinate a pathfinding step may enter: in bounds and not blocked.
    pub open spec fn spec_exit_ok(self, x: int, y: int) -> bool {
        self.in_bounds(x, y) && !self.blocked@[y * self.width + x]
    }

    /// Whether a step may enter the given coordinate, per the blocking flags.
    fn is_exit_valid(&self, x: i32, y: i32) -> (r: bool)
        requires
            self.wf(),
        ensures
            r == self.spec_exit_ok(x as int, y as int),
    {
        if x < 0 || x >= self.width || y < 0 || y >= self.height {
            return false;
        }
        let idx = self.xy_idx(x, y);
        !self.blocked[idx]
    }

    /// Opacity for field-of-view: true iff the tile is a wall variant.
    pub fn is_opaque(&self, idx: usize) -> (r: bool)
        requires
            self.wf(),
            idx < self.spec_area(),
        ensures
            r == is_wall(self.tiles@[idx as int]),
    {
        self.tiles[idx] == TileType::DirtWall || self.tiles[idx] == TileType::StoneWall
            || self.tiles[idx] == TileType::DirtWall2
    }

    /// Squared Euclidean heuristic distance between two cells, from their
    /// coordinates reconstructed from the flat indices.
    pub fn get_pathing_distance(&self, idx1: usize, idx2: usize) -> (r: u64)
        requires
            self.wf(),
            idx1 < self.spec_area(),
            idx2 < self.spec_area(),
        ensures
            r == spec_square_distance(
                (Position { x: (idx1 as int % self.width as int) as i32, y: (idx1 as int / self.width as int) as i32 }),
                (Position { x: (idx2 as int % self.width as int) as i32, y: (idx2 as int / self.width as int) as i32 }),
            ),
    {
        proof {
            lemma_flat_coords(self.width as int, self.height as int, idx1 as int);
            lemma_flat_coords(self.width as int, self.height as int, idx2 as int);
        }
        let w = self.width as usize;
        let p1 = Position { x: (idx1 % w) as i32, y: (idx1 / w) as i32 };
        let p2 = Position { x: (idx2 % w) as i32, y: (idx2 / w) as i32 };
        p1.square_distance(&p2)
    }


    /// Whether a new entity may stand on the given coordinate.
    fn is_cell_free(&self, x: i32, y: i32) -> (r: bool)
        requires
            self.wf(),
        ensures
            r == cell_free(*self, x as int, y as int),
    {
        if x < 0 || x >= self.width || y < 0 || y >= self.height {
            return false;
        }
        let idx = self.xy_idx(x, y);
        !self.blocked[idx] && self.tile_content[idx].len() == 0
    }

    /// Grid dimensions, width then height.
    pub fn dimensions(&self) -> (r: (i32, i32))
        ensures
            r.0 == self.width,
            r.1 == self.height,
    {
        (self.width, self.height)
    }

    /// The exits available from a cell: up to four cardinal neighbors at
    /// cost 100 and four diagonal neighbors at cost 145, in that fixed
    /// order, each present iff in bounds and not blocked. Costs are in
    /// hundredths of a step.
    /// Appends the entry for one candidate exit, when it can be entered.
    fn push_exit(&self, exits: &mut Vec<(usize, u32)>, x: i32, y: i32, cost: u32)
        requires
            self.wf(),
        ensures
            final(exits)@ == old(exits)@ + spec_maybe_exit(*self, x as int, y as int, cost),
    {
        let ghost before = exits@;
        if self.is_exit_valid(x, y) {
            exits.push((self.xy_idx(x, y), cost));
        }
        proof {
            assert(exits@ =~= before + spec_maybe_exit(*self, x as int, y as int, cost));
        }
    }

    /// The exits available from a cell: up to four cardinal neighbors at
    /// cost 100 and four diagonal neighbors at cost 145, in that fixed
    /// order, each present iff in bounds and not blocked. Costs are in
    /// hundredths of a step.
    pub fn get_available_exits(&self, idx: usize) -> (r: Vec<(usize, u32)>)
        requires
            self.wf(),
            idx < self.spec_area(),
        ensures
            r@ == spec_exit_seq(
                *self,
                idx as int % self.width as int,
                idx as int / self.width as int,
            ),
    {
        proof {
            lemma_flat_coords(self.width as int, self.height as int, idx as int);
        }
        let w = self.width as usize;
        let x: i32 = (idx % w) as i32;
        let y: i32 = (idx / w) as i32;
        let mut exits: Vec<(usize, u32)> = Vec::new();
        self.push_exit(&mut exits, x - 1, y, 100);
        self.push_exit(&mut exits, x + 1, y, 100);
        self.push_exit(&mut exits, x, y - 1, 100);
        self.push_exit(&mut exits, x, y + 1, 100);
        self.push_exit(&mut exits, x - 1, y - 1, 145);
        self.push_exit(&mut exits, x + 1, y - 1, 145);
        self.push_exit(&mut exits, x - 1, y + 1, 145);
        self.push_exit(&mut exits, x + 1, y + 1, 145);
        proof {
            assert(exits@ =~= spec_exit_seq(*self, x as int, y as int));
        }
        exits
    }

    /// Repaints solid-wall cells with the second wall variant wherever the
    /// given pattern is true, leaving all other state untouched. The pattern
    /// is typically sampled from a coherent-noise field by the caller.
    pub fn apply_wall_variants(&mut self, pattern: &Vec<bool>)
        requires
            old(self).wf(),
            pattern@.len() == old(self).spec_area(),
        ensures
            final(self).wf(),
            *final(self) == (SpatialMap { tiles: final(self).tiles, ..*old(self) }),
            forall|i: int|
                0 <= i < final(self).spec_area() && pattern@[i] && old(self).tiles@[i]
                    == TileType::DirtWall ==> #[trigger] final(self).tiles@[i]
                    == TileType::DirtWall2,
            forall|i: int|
                0 <= i < final(self).spec_area() && !(pattern@[i] && old(self).tiles@[i]
                    == TileType::DirtWall) ==> #[trigger] final(self).tiles@[i] == old(
                    self,
                ).tiles@[i],
    {
        let ghost orig: SpatialMap = *self;
        let n: usize = self.tiles.len();
        let mut i: usize = 0;
        while i < n
            invariant
                self.wf(),
                orig.wf(),
                n == self.spec_area(),
                pattern@.len() == n,
                i <= n,
                *self == (SpatialMap { tiles: self.tiles, ..orig }),
                forall|j: int| i <= j < n ==> self.tiles@[j] == orig.tiles@[j],
                forall|j: int|
                    0 <= j < i && pattern@[j] && orig.tiles@[j] == TileType::DirtWall
                        ==> #[trigger] self.tiles@[j] == TileType::DirtWall2,
                forall|j: int|
                    0 <= j < i && !(pattern@[j] && orig.tiles@[j] == TileType::DirtWall)
                        ==> #[trigger] self.tiles@[j] == orig.tiles@[j],
            decreases n - i,
        {
            if pattern[i] && self.tiles[i] == TileType::DirtWall {
                self.tiles.set(i, TileType::DirtWall2);
            }
            i = i + 1;
        }
    }
}


/// One candidate exit: a single entry when the coordinate can be entered,
/// empty otherwise.
pub open spec fn spec_maybe_exit(m: SpatialMap, x: int, y: int, cost: u32) -> Seq<(usize, u32)> {
    if m.spec_exit_ok(x, y) {
        seq![(((y * m.width + x) as usize), cost)]
    } else {
        Seq::empty()
    }
}

/// The exits from a cell in fixed order: west, east, north, south, then the
/// four diagonals, cardinals at cost 100 and diagonals at cost 145.
pub open spec fn spec_exit_seq(m: SpatialMap, x: int, y: int) -> Seq<(usize, u32)> {
    spec_maybe_exit(m, x - 1, y, 100) + spec_maybe_exit(m, x + 1, y, 100) + spec_maybe_exit(
        m,
        x,
        y - 1,
        100,
    ) + spec_maybe_exit(m, x, y + 1, 100) + spec_maybe_exit(m, x - 1, y - 1, 145) + spec_maybe_exit(
        m,
        x + 1,
        y - 1,
        145,
    ) + spec_maybe_exit(m, x - 1, y + 1, 145) + spec_maybe_exit(m, x + 1, y + 1, 145)
}

/// Coordinates reconstructed from a flat index are in bounds and map back.
pub proof fn lemma_flat_coords(w: int, h: int, i: int)
    requires
        0 < w,
        0 < h,
        0 <= i < w * h,
    ensures
        0 <= i % w < w,
        0 <= i / w < h,
        (i / w) * w + (i % w) == i,
{
    assert(0 <= i % w < w && 0 <= i / w < h && (i / w) * w + (i % w) == i) by (nonlinear_arith)
        requires
            0 < w,
            0 < h,
            0 <= i < w * h,
    ;
}

/// The cell can hold a new entity: in bounds, not blocked, and with an empty
/// occupant index.
pub open spec fn cell_free(m: SpatialMap, x: int, y: int) -> bool {
    m.in_bounds(x, y) && !m.blocked@[y * m.width + x] && m.tile_content@[y * m.width + x]@.len()
        == 0
}

/// The first free neighbor of a cell in the fixed search order west, east,
/// south, north, south-west, north-west, north-east, south-east; the cell
/// itself when none is free.
pub open spec fn spec_find_empty_adjacent(m: SpatialMap, x: int, y: int) -> (int, int) {
    if cell_free(m, x - 1, y) {
        (x - 1, y)
    } else if cell_free(m, x + 1, y) {
        (x + 1, y)
    } else if cell_free(m, x, y + 1) {
        (x, y + 1)
    } else if cell_free(m, x, y - 1) {
        (x, y - 1)
    } else if cell_free(m, x - 1, y + 1) {
        (x - 1, y + 1)
    } else if cell_free(m, x - 1, y - 1) {
        (x - 1, y - 1)
    } else if cell_free(m, x + 1, y - 1) {
        (x + 1, y - 1)
    } else if cell_free(m, x + 1, y + 1) {
        (x + 1, y + 1)
    } else {
        (x, y)
    }
}

/// Finds a free cell adjacent to the given one, in a fixed search order,
/// falling back to the cell itself.
pub fn find_empty_adjacent(map: &SpatialMap, x: i32, y: i32) -> (r: (i32, i32))
    requires
        map.wf(),
        map.in_bounds(x as int, y as int),
    ensures
        r.0 == spec_find_empty_adjacent(*map, x as int, y as int).0,
        r.1 == spec_find_empty_adjacent(*map, x as int, y as int).1,
{
    if map.is_cell_free(x - 1, y) {
        (x - 1, y)
    } else if map.is_cell_free(x + 1, y) {
        (x + 1, y)
    } else if map.is_cell_free(x, y + 1) {
        (x, y + 1)
    } else if map.is_cell_free(x, y - 1) {
        (x, y - 1)
    } else if map.is_cell_free(x - 1, y + 1) {
        (x - 1, y + 1)
    } else if map.is_cell_free(x - 1, y - 1) {
        (x - 1, y - 1)
    } else if map.is_cell_free(x + 1, y - 1) {
        (x + 1, y - 1)
    } else if map.is_cell_free(x + 1, y + 1) {
        (x + 1, y + 1)
    } else {
        (x, y)
    }
}

/// Reads a flat tile grid at a coordinate.
pub open spec fn tile_at(t: Seq<TileType>, w: int, x: int, y: int) -> TileType {
    t[y * w + x]
}

/// For bounded dimensions every in-bounds coordinate has a flat index below
/// the area, and the area fits comfortably in a machine word.
pub proof fn lemma_idx_bounds(w: int, h: int, x: int, y: int)
    requires
        0 < w <= 4096,
        0 < h <= 4096,
        0 <= x < w,
        0 <= y < h,
    ensures
        0 <= y * w + x < w * h,
        w * h <= 0x1000000,
{
    assert(y * w + x < w * h && w * h <= 0x1000000) by (nonlinear_arith)
        requires
            0 < w <= 4096,
            0 < h <= 4096,
            0 <= x < w,
            0 <= y < h,
    ;
    assert(y * w >= 0) by (nonlinear_arith)
        requires
            y >= 0,
            w > 0,
    ;
}

} // verus!
