//! The tile map: terrain, who stands where, what lies where.
use vstd::prelude::*;
use crate::error::{Error, GameError};
use crate::geom::Point;
use crate::tile::TileType;

verus! {

/// Width and height of one map block in tiles.
pub const MAP_BLOCK_SIZE: usize = 32;

/// An entity standing on a tile.
#[derive(Clone, Copy, PartialEq, Eq, Structural, Debug)]
pub struct Pawn {
    pub entity_id: usize,
    /// Whether the entity is a door (doors block sight while closed).
    pub is_door: bool,
}

/// A `width` by `height` map stored row by row: tile (x, y) is at index
/// `y * width + x` of every per-tile vector.
pub struct TileMap {
    pub width: usize,
    pub height: usize,
    pub tiles: Vec<TileType>,
    pub revealed_tiles: Vec<bool>,
    pub visible_tiles: Vec<bool>,
    pub pawns: Vec<Option<Pawn>>,
    /// Id of the item lying on each tile, if any.
    pub items: Vec<Option<usize>>,
}

impl TileMap {
    /// Every per-tile vector has one entry per tile, and coordinates fit in i32.
    pub open spec fn wf(&self) -> bool {
        &&& self.width * self.height <= usize::MAX
        &&& self.width <= i32::MAX
        &&& self.height <= i32::MAX
        &&& self.tiles@.len() == self.width * self.height
        &&& self.revealed_tiles@.len() == self.width * self.height
        &&& self.visible_tiles@.len() == self.width * self.height
        &&& self.pawns@.len() == self.width * self.height
        &&& self.items@.len() == self.width * self.height
    }

    pub open spec fn len(&self) -> int {
        self.width * self.height
    }

    /// Index of tile (x, y) in the row-by-row layout.
    pub open spec fn idx_of(&self, x: int, y: int) -> int {
        y * self.width + x
    }

    /// Whether a tile index is blocked for movement: walls, windows and fences
    /// always; open ground only when someone stands there.
    pub open spec fn spec_blocked_idx(&self, i: int) -> bool {
        match self.tiles@[i] {
            TileType::Wall | TileType::Window | TileType::Fence => true,
            _ => self.pawns@[i] is Some,
        }
    }

    /// Whether a tile blocks sight: walls, and doorways holding a (closed) door.
    pub open spec fn spec_opaque(&self, i: int) -> bool {
        match self.tiles@[i] {
            TileType::Wall => true,
            TileType::Doorway => self.pawns@[i] matches Some(p) && p.is_door,
            _ => false,
        }
    }

    /// Index of the tile at `pos`.
    pub fn pos_idx(&self, pos: Point) -> (r: usize)
        requires
            0 <= pos.x,
            0 <= pos.y,
            pos.y * self.width + pos.x <= usize::MAX,
        ensures
            r == self.idx_of(pos.x as int, pos.y as int),
    {
        self.xy_idx(pos.x, pos.y)
    }

    /// Index of tile (x, y).
    pub fn xy_idx(&self, x: i32, y: i32) -> (r: usize)
        requires
            0 <= x,
            0 <= y,
            y * self.width + x <= usize::MAX,
        ensures
            r == self.idx_of(x as int, y as int),
    {
        proof {
            assert(0 <= (y as usize) * self.width <= usize::MAX) by (nonlinear_arith)
                requires
                    0 <= y,
                    y * self.width + x <= usize::MAX,
                    0 <= x,
            ;
        }
        (y as usize * self.width) + x as usize
    }

    /// Coordinates of a tile index.
    pub fn idx_pos(&self, idx: usize) -> (r: Point)
        requires
            self.width > 0,
            self.width <= i32::MAX,
            idx / self.width <= i32::MAX,
        ensures
            r.x == idx % self.width,
            r.y == idx / self.width,
    {
        let y = idx / self.width;
        let x = idx % self.width;
        Point { x: x as i32, y: y as i32 }
    }

    /// Whether tile (x, y) is blocked for movement.
    pub fn blocked(&self, x: i32, y: i32) -> (r: bool)
        requires
            self.wf(),
            0 <= x,
            0 <= y,
            self.idx_of(x as int, y as int) < self.len(),
        ensures
            r == self.spec_blocked_idx(self.idx_of(x as int, y as int)),
    {
        let index = self.xy_idx(x, y);
        self.blocked_idx(index)
    }

    /// Terrain of tile (x, y).
    pub fn get_tile(&self, x: i32, y: i32) -> (r: TileType)
        requires
            self.wf(),
            0 <= x,
            0 <= y,
            self.idx_of(x as int, y as int) < self.len(),
        ensures
            r == self.tiles@[self.idx_of(x as int, y as int)],
    {
        let index = self.xy_idx(x, y);
        self.tiles[index]
    }

    /// Whether the tile at `index` is blocked for movement.
    pub fn blocked_idx(&self, index: usize) -> (r: bool)
        requires
            self.wf(),
            index < self.len(),
        ensures
            r == self.spec_blocked_idx(index as int),
    {
        match self.tiles[index] {
            TileType::Wall | TileType::Window | TileType::Fence => true,
            _ => self.pawns[index].is_some(),
        }
    }

    /// Whether the tile at `index` blocks sight.
    pub fn is_opaque(&self, index: usize) -> (r: bool)
        requires
            self.wf(),
            index < self.len(),
        ensures
            r == self.spec_opaque(index as int),
    {
        match self.tiles[index] {
            TileType::Wall => true,
            TileType::Doorway => match &self.pawns[index] {
                Some(pawn) => pawn.is_door,
                None => false,
            },
            _ => false,
        }
    }
}

/// Ids of the pawns on columns `x0..x1`, rows `y0..y1`, column by column and
/// top to bottom within a column.
pub open spec fn vicinity_ids(m: &TileMap, x0: int, x1: int, y0: int, y1: int) -> Seq<usize>
    decreases x1 - x0,
{
    if x1 <= x0 {
        Seq::empty()
    } else {
        vicinity_ids(m, x0, x1 - 1, y0, y1) + column_ids(m, x1 - 1, y0, y1)
    }
}

/// Ids of the pawns in column `x`, rows `y0..y1`, top to bottom.
pub open spec fn column_ids(m: &TileMap, x: int, y0: int, y1: int) -> Seq<usize>
    decreases y1 - y0,
{
    if y1 <= y0 {
        Seq::empty()
    } else {
        let rest = column_ids(m, x, y0, y1 - 1);
        match m.pawns@[m.idx_of(x, y1 - 1)] {
            Some(p) => rest.push(p.entity_id),
            None => rest,
        }
    }
}

pub open spec fn max_int(a: int, b: int) -> int {
    if a >= b {
        a
    } else {
        b
    }
}

pub open spec fn min_int(a: int, b: int) -> int {
    if a <= b {
        a
    } else {
        b
    }
}

impl TileMap {
    /// Ids of the entities standing in the square from `center - radius`
    /// (inclusive) to `center + radius` (exclusive) on both axes, clipped to the
    /// map; column by column, top to bottom.
    pub fn get_entities_in_vicinity(&self, center: Point, radius: i32) -> (r: Vec<usize>)
        requires
            self.wf(),
            i32::MIN <= center.x - radius <= i32::MAX,
            i32::MIN <= center.x + radius <= i32::MAX,
            i32::MIN <= center.y - radius <= i32::MAX,
            i32::MIN <= center.y + radius <= i32::MAX,
        ensures
            r@ == vicinity_ids(
                self,
                max_int(center.x - radius, 0),
                min_int(center.x + radius, self.width as int),
                max_int(center.y - radius, 0),
                min_int(center.y + radius, self.height as int),
            ),
    {
        let w = self.width as i32;
        let h = self.height as i32;
        let min_x = if center.x - radius > 0 { center.x - radius } else { 0 };
        let max_x = if center.x + radius < w { center.x + radius } else { w };
        let min_y = if center.y - radius > 0 { center.y - radius } else { 0 };
        let max_y = if center.y + radius < h { center.y + radius } else { h };
        let mut result: Vec<usize> = Vec::new();
        let mut x = min_x;
        while x < max_x
            invariant
                self.wf(),
                0 <= min_x,
                max_x <= self.width,
                0 <= min_y,
                max_y <= self.height,
                min_x <= x,
                min_x < max_x ==> x <= max_x,
                min_x >= max_x ==> x == min_x,
                result@ == vicinity_ids(self, min_x as int, x as int, min_y as int, max_y as int),
            decreases max_x - x,
        {
            let mut y = min_y;
            let ghost before = result@;
            while y < max_y
                invariant
                    self.wf(),
                    0 <= min_x <= x < max_x <= self.width,
                    0 <= min_y,
                    max_y <= self.height,
                    min_y <= y,
                    min_y < max_y ==> y <= max_y,
                    min_y >= max_y ==> y == min_y,
                    before == vicinity_ids(self, min_x as int, x as int, min_y as int, max_y as int),
                    result@ == before + column_ids(self, x as int, min_y as int, y as int),
                decreases max_y - y,
            {
                proof {
                    assert(0 <= y * self.width + x < self.len()) by (nonlinear_arith)
                        requires
                            0 <= y < self.height,
                            0 <= x < self.width,
                    ;
                }
                let index = self.xy_idx(x, y);
                match &self.pawns[index] {
                    Some(pawn) => result.push(pawn.entity_id),
                    None => {},
                }
                y = y + 1;
                assert(result@ =~= before + column_ids(self, x as int, min_y as int, y as int));
            }
            x = x + 1;
            assert(result@ =~= vicinity_ids(self, min_x as int, x as int, min_y as int, max_y as int));
        }
        result
    }
}


/// What a searched-for tile must offer.
#[derive(Clone, Copy, PartialEq, Eq, Structural, Debug)]
pub enum TileQuery {
    /// Open floor or ground with no item on it.
    FreeForItem,
    /// Not blocked for movement.
    FreeForPawn,
}

pub open spec fn abs_i(v: int) -> int {
    if v < 0 {
        -v
    } else {
        v
    }
}

/// Chebyshev length of an offset.
pub open spec fn cheb(a: int, b: int) -> int {
    max_int(abs_i(a), abs_i(b))
}

/// Offset `(a, b)` is before `(c, d)` in the order the search visits a square:
/// by column offset, then by row offset.
pub open spec fn scan_before(a: int, b: int, c: int, d: int) -> bool {
    a < c || (a == c && b < d)
}

impl TileMap {
    pub open spec fn spec_good(&self, q: TileQuery, i: int) -> bool {
        match q {
            TileQuery::FreeForItem => (self.tiles@[i] == TileType::Floor || self.tiles@[i] == TileType::Ground)
                && self.items@[i] is None,
            TileQuery::FreeForPawn => !self.spec_blocked_idx(i),
        }
    }

    /// Whether (x, y) names a tile of the map's vectors (an `x` of `width`
    /// names the first tile of the next row).
    pub open spec fn in_map(&self, x: int, y: int) -> bool {
        0 <= x && 0 <= y && self.idx_of(x, y) < self.len()
    }

    /// Offsets the search skips: those past the far edges, or (as the search
    /// measures it) past the near edges.
    pub open spec fn scan_filter(&self, pos: Point, a: int, b: int) -> bool {
        !(a + pos.x > self.width || pos.x - a < 0) && !(b + pos.y > self.height || pos.y - b < 0)
    }

    /// The tile at offset (a, b) from `pos` answers the query.
    pub open spec fn good_at(&self, q: TileQuery, pos: Point, a: int, b: int) -> bool {
        self.spec_good(q, self.idx_of(pos.x + a, pos.y + b))
    }

    /// Every offset within `radius` that the search does not skip names a tile
    /// of the map.
    pub open spec fn scan_in_map(&self, pos: Point, radius: int) -> bool {
        forall|a: int, b: int|
            -radius <= a <= radius && -radius <= b <= radius && #[trigger] self.scan_filter(pos, a, b) ==> self.in_map(
                pos.x + a,
                pos.y + b,
            )
    }

    /// A tile answering `q` nearest to `pos` found by a square search up to
    /// `radius`.
    pub open spec fn nearest_found(&self, q: TileQuery, pos: Point, radius: int, p: Point) -> bool {
        if self.good_at(q, pos, 0, 0) {
            p == pos
        } else {
            let a = p.x - pos.x;
            let b = p.y - pos.y;
            &&& 1 <= cheb(a, b) <= radius
            &&& self.scan_filter(pos, a, b)
            &&& self.good_at(q, pos, a, b)
            &&& forall|c: int, d: int|
                #![trigger self.good_at(q, pos, c, d)]
                self.scan_filter(pos, c, d) && (cheb(c, d) < cheb(a, b) || (cheb(c, d) == cheb(a, b)
                    && scan_before(c, d, a, b))) ==> !self.good_at(q, pos, c, d)
        }
    }

    /// No tile the search visits up to `radius` answers `q`.
    pub open spec fn none_found(&self, q: TileQuery, pos: Point, radius: int) -> bool {
        &&& !self.good_at(q, pos, 0, 0)
        &&& forall|c: int, d: int|
            #![trigger self.good_at(q, pos, c, d)]
            self.scan_filter(pos, c, d) && cheb(c, d) <= radius ==> !self.good_at(q, pos, c, d)
    }

    fn good_tile(&self, q: TileQuery, index: usize) -> (r: bool)
        requires
            self.wf(),
            index < self.len(),
        ensures
            r == self.spec_good(q, index as int),
    {
        match q {
            TileQuery::FreeForItem => (self.tiles[index] == TileType::Floor || self.tiles[index] == TileType::Ground)
                && self.items[index].is_none(),
            TileQuery::FreeForPawn => !self.blocked_idx(index),
        }
    }

    /// The nearest position to `pos` (within a square of `radius`) whose tile
    /// answers `q`: `pos` itself if it does, else the first hit of a search
    /// over growing squares, each visited column by column.
    pub fn find_nearest_tile(&self, pos: Point, radius: usize, q: TileQuery) -> (r: Result<Point, GameError>)
        requires
            self.wf(),
            self.in_map(pos.x as int, pos.y as int),
            radius <= 0x1000_0000,
            pos.x + radius <= i32::MAX,
            pos.y + radius <= i32::MAX,
            self.scan_in_map(pos, radius as int),
        ensures
            r matches Ok(p) ==> self.nearest_found(q, pos, radius as int, p),
            r matches Err(e) ==> self.none_found(q, pos, radius as int) && e.error == Error::UnsolvableSituation
                && e.message@ == "Could not find open spot"@,
    {
        let index = self.xy_idx(pos.x, pos.y);
        if self.good_tile(q, index) {
            return Ok(pos);
        }
        assert(self.idx_of(pos.x + 0, pos.y + 0) == index);
        let rad = radius as i32;
        let mut distance: i32 = 1;
        while distance <= rad
            invariant
                self.wf(),
                self.in_map(pos.x as int, pos.y as int),
                rad == radius,
                radius <= 0x1000_0000,
                pos.x + radius <= i32::MAX,
                pos.y + radius <= i32::MAX,
                self.scan_in_map(pos, radius as int),
                1 <= distance <= rad + 1,
                !self.good_at(q, pos, 0, 0),
                forall|c: int, d: int|
                    #![trigger self.good_at(q, pos, c, d)]
                    self.scan_filter(pos, c, d) && cheb(c, d) < distance ==> !self.good_at(q, pos, c, d),
            decreases rad + 1 - distance,
        {
            let mut dx: i32 = -distance;
            while dx <= distance
                invariant
                    self.wf(),
                    rad == radius,
                    radius <= 0x1000_0000,
                    pos.x + radius <= i32::MAX,
                    pos.y + radius <= i32::MAX,
                    self.scan_in_map(pos, radius as int),
                    self.in_map(pos.x as int, pos.y as int),
                    1 <= distance <= rad,
                    -distance <= dx <= distance + 1,
                    !self.good_at(q, pos, 0, 0),
                    forall|c: int, d: int|
                        #![trigger self.good_at(q, pos, c, d)]
                        self.scan_filter(pos, c, d) && cheb(c, d) < distance ==> !self.good_at(q, pos, c, d),
                    forall|c: int, d: int|
                        #![trigger self.good_at(q, pos, c, d)]
                        self.scan_filter(pos, c, d) && -distance <= c < dx && -distance <= d <= distance
                            ==> !self.good_at(q, pos, c, d),
                decreases distance + 1 - dx,
            {
                if dx + pos.x > self.width as i32 || pos.x - dx < 0 {
                    dx = dx + 1;
                    continue;
                }
                let mut dy: i32 = -distance;
                while dy <= distance
                    invariant
                        self.wf(),
                        rad == radius,
                        radius <= 0x1000_0000,
                        pos.x + radius <= i32::MAX,
                        pos.y + radius <= i32::MAX,
                        self.scan_in_map(pos, radius as int),
                        self.in_map(pos.x as int, pos.y as int),
                        1 <= distance <= rad,
                        -distance <= dx <= distance,
                        -distance <= dy <= distance + 1,
                        !(dx + pos.x > self.width || pos.x - dx < 0),
                        !self.good_at(q, pos, 0, 0),
                        forall|c: int, d: int|
                            #![trigger self.good_at(q, pos, c, d)]
                            self.scan_filter(pos, c, d) && cheb(c, d) < distance ==> !self.good_at(q, pos, c, d),
                        forall|c: int, d: int|
                            #![trigger self.good_at(q, pos, c, d)]
                            self.scan_filter(pos, c, d) && -distance <= c < dx && -distance <= d <= distance
                                ==> !self.good_at(q, pos, c, d),
                        forall|d: int|
                            #![trigger self.good_at(q, pos, dx as int, d)]
                            self.scan_filter(pos, dx as int, d) && -distance <= d < dy ==> !self.good_at(
                                q,
                                pos,
                                dx as int,
                                d,
                            ),
                    decreases distance + 1 - dy,
                {
                    if dy + pos.y > self.height as i32 || pos.y - dy < 0 {
                        dy = dy + 1;
                        continue;
                    }
                    assert(self.scan_filter(pos, dx as int, dy as int));
                    assert(self.in_map(pos.x + dx, pos.y + dy));
                    let index = self.xy_idx(pos.x + dx, pos.y + dy);
                    if self.good_tile(q, index) {
                        let p = Point { x: pos.x + dx, y: pos.y + dy };
                        assert(p.x - pos.x == dx && p.y - pos.y == dy);
                        assert(self.good_at(q, pos, dx as int, dy as int));
                        return Ok(p);
                    }
                    dy = dy + 1;
                }
                dx = dx + 1;
            }
            distance = distance + 1;
        }
        Err(GameError::new(Error::UnsolvableSituation, "Could not find open spot"))
    }

    /// The nearest free floor or ground tile without an item, within 5 tiles.
    pub fn nearest_free_item_position(&self, pos: Point) -> (r: Result<Point, GameError>)
        requires
            self.wf(),
            self.in_map(pos.x as int, pos.y as int),
            pos.x + 5 <= i32::MAX,
            pos.y + 5 <= i32::MAX,
            self.scan_in_map(pos, 5),
        ensures
            r matches Ok(p) ==> self.nearest_found(TileQuery::FreeForItem, pos, 5, p),
            r matches Err(e) ==> self.none_found(TileQuery::FreeForItem, pos, 5) && e.error
                == Error::UnsolvableSituation,
    {
        self.find_nearest_tile(pos, 5, TileQuery::FreeForItem)
    }

    /// The nearest tile not blocked for movement, within 5 tiles.
    pub fn nearest_free_pawn_position(&self, pos: Point) -> (r: Result<Point, GameError>)
        requires
            self.wf(),
            self.in_map(pos.x as int, pos.y as int),
            pos.x + 5 <= i32::MAX,
            pos.y + 5 <= i32::MAX,
            self.scan_in_map(pos, 5),
        ensures
            r matches Ok(p) ==> self.nearest_found(TileQuery::FreeForPawn, pos, 5, p),
            r matches Err(e) ==> self.none_found(TileQuery::FreeForPawn, pos, 5) && e.error
                == Error::UnsolvableSituation,
    {
        self.find_nearest_tile(pos, 5, TileQuery::FreeForPawn)
    }
}


/// A vector of `n` copies of `v`.
fn filled<V: Copy>(n: usize, v: V) -> (r: Vec<V>)
    ensures
        r@ == Seq::new(n as nat, |i: int| v),
{
    let mut r: Vec<V> = Vec::new();
    let mut i: usize = 0;
    while i < n
        invariant
            i <= n,
            r@ == Seq::new(i as nat, |k: int| v),
        decreases n - i,
    {
        r.push(v);
        i = i + 1;
        assert(r@ =~= Seq::new(i as nat, |k: int| v));
    }
    r
}

impl TileMap {
    /// A fresh map: all Ground, all revealed, nothing visible, nobody and
    /// nothing on any tile.
    pub open spec fn is_fresh(&self, width: int, height: int) -> bool {
        &&& self.wf()
        &&& self.width == width
        &&& self.height == height
        &&& forall|i: int| 0 <= i < self.len() ==> #[trigger] self.tiles@[i] == TileType::Ground
        &&& forall|i: int| 0 <= i < self.len() ==> #[trigger] self.revealed_tiles@[i]
        &&& forall|i: int| 0 <= i < self.len() ==> !#[trigger] self.visible_tiles@[i]
        &&& forall|i: int| 0 <= i < self.len() ==> #[trigger] self.pawns@[i] is None
        &&& forall|i: int| 0 <= i < self.len() ==> #[trigger] self.items@[i] is None
    }

    /// An empty `map_width` by `map_height` map.
    pub fn new_empty_map(map_width: usize, map_height: usize) -> (r: TileMap)
        requires
            map_width * map_height <= usize::MAX,
            map_width <= i32::MAX,
            map_height <= i32::MAX,
        ensures
            r.is_fresh(map_width as int, map_height as int),
    {
        let tile_count = map_width * map_height;
        TileMap {
            tiles: filled(tile_count, TileType::Ground),
            width: map_width,
            height: map_height,
            revealed_tiles: filled(tile_count, true),
            visible_tiles: filled(tile_count, false),
            pawns: filled(tile_count, None),
            items: filled(tile_count, None),
        }
    }

    /// An empty square map of `size_in_blocks` blocks on each side.
    pub fn new_game_map(size_in_blocks: usize) -> (r: TileMap)
        requires
            size_in_blocks * 32 <= i32::MAX,
            (size_in_blocks * 32) * (size_in_blocks * 32) <= usize::MAX,
        ensures
            r.is_fresh(size_in_blocks * 32, size_in_blocks * 32),
    {
        let map_width = size_in_blocks * MAP_BLOCK_SIZE;
        let map_height = size_in_blocks * MAP_BLOCK_SIZE;
        TileMap::new_empty_map(map_width, map_height)
    }

    /// Whether (x, y) is a tile one may step to: inside the map's border ring
    /// on the top and left, inside the map on the bottom and right, and not
    /// blocked.
    pub open spec fn spec_exit_valid(&self, x: int, y: int) -> bool {
        1 <= x <= self.width - 1 && 1 <= y <= self.height - 1 && !self.spec_blocked_idx(self.idx_of(x, y))
    }

    /// Whether a step onto (x, y) is possible.
    pub fn is_exit_valid(&self, x: i32, y: i32) -> (r: bool)
        requires
            self.wf(),
        ensures
            r == self.spec_exit_valid(x as int, y as int),
    {
        if x < 1 || x > self.width as i32 - 1 || y < 1 || y > self.height as i32 - 1 {
            return false;
        }
        proof {
            assert(0 <= y * self.width + x < self.len()) by (nonlinear_arith)
                requires
                    0 <= y < self.height,
                    0 <= x < self.width,
            ;
        }
        !self.blocked(x, y)
    }

    /// The steps out of tile `idx`, each with whether it is diagonal: west,
    /// east, north, south, then north-west, north-east, south-west, south-east,
    /// each only when valid.
    pub open spec fn spec_exits(&self, idx: int) -> Seq<(usize, bool)> {
        let w = self.width as int;
        let x = idx % w;
        let y = idx / w;
        let s0 = Seq::<(usize, bool)>::empty();
        let s1 = if self.spec_exit_valid(x - 1, y) { s0.push(((idx - 1) as usize, false)) } else { s0 };
        let s2 = if self.spec_exit_valid(x + 1, y) { s1.push(((idx + 1) as usize, false)) } else { s1 };
        let s3 = if self.spec_exit_valid(x, y - 1) { s2.push(((idx - w) as usize, false)) } else { s2 };
        let s4 = if self.spec_exit_valid(x, y + 1) { s3.push(((idx + w) as usize, false)) } else { s3 };
        let s5 = if self.spec_exit_valid(x - 1, y - 1) { s4.push(((idx - w - 1) as usize, true)) } else { s4 };
        let s6 = if self.spec_exit_valid(x + 1, y - 1) { s5.push(((idx - w + 1) as usize, true)) } else { s5 };
        let s7 = if self.spec_exit_valid(x - 1, y + 1) { s6.push(((idx + w - 1) as usize, true)) } else { s6 };
        if self.spec_exit_valid(x + 1, y + 1) { s7.push(((idx + w + 1) as usize, true)) } else { s7 }
    }

    /// The tiles one can step to from tile `idx`, each with whether the step is
    /// diagonal (pathfinding charges diagonal steps more).
    pub fn available_exits(&self, idx: usize) -> (r: Vec<(usize, bool)>)
        requires
            self.wf(),
            self.width > 0,
            idx < self.len(),
            idx <= i32::MAX,
        ensures
            r@ == self.spec_exits(idx as int),
    {
        let ghost w = self.width as int;
        let ghost i = idx as int;
        proof {
            assert(i / w < self.height) by (nonlinear_arith)
                requires
                    0 <= i < w * self.height,
                    w > 0,
            ;
            assert(i == w * (i / w) + i % w) by (nonlinear_arith)
                requires
                    w > 0,
            ;
            assert(0 <= i % w < w) by (nonlinear_arith)
                requires
                    w > 0,
            ;
        }
        let x = idx as i32 % self.width as i32;
        let y = idx as i32 / self.width as i32;
        assert(x == i % w && y == i / w);
        let wi = self.width;
        let mut exits: Vec<(usize, bool)> = Vec::new();
        if self.is_exit_valid(x - 1, y) {
            exits.push((idx - 1, false));
        }
        if self.is_exit_valid(x + 1, y) {
            exits.push((idx + 1, false));
        }
        proof {
            if i / w >= 1 {
                assert(i >= w + i % w) by (nonlinear_arith)
                    requires
                        i == w * (i / w) + i % w,
                        i / w >= 1,
                        w > 0,
                        i % w >= 0,
                ;
            }
        }
        if self.is_exit_valid(x, y - 1) {
            exits.push((idx - wi, false));
        }
        if self.is_exit_valid(x, y + 1) {
            exits.push((idx + wi, false));
        }
        if self.is_exit_valid(x - 1, y - 1) {
            exits.push(((idx - wi) - 1, true));
        }
        if self.is_exit_valid(x + 1, y - 1) {
            exits.push(((idx - wi) + 1, true));
        }
        if self.is_exit_valid(x - 1, y + 1) {
            exits.push(((idx + wi) - 1, true));
        }
        if self.is_exit_valid(x + 1, y + 1) {
            exits.push(((idx + wi) + 1, true));
        }
        exits
    }
}


/// Index and position are inverse: the position of the index of (x, y) is
/// (x, y) for every column `x` of the map.
pub proof fn law_idx_pos_of_xy_idx(m: &TileMap, x: int, y: int)
    requires
        m.width > 0,
        0 <= x < m.width,
        0 <= y,
    ensures
        m.idx_of(x, y) % (m.width as int) == x,
        m.idx_of(x, y) / (m.width as int) == y,
{
    let w = m.width as int;
    assert((y * w + x) % w == x && (y * w + x) / w == y) by (nonlinear_arith)
        requires
            w > 0,
            0 <= x < w,
            0 <= y,
    {
        vstd::arithmetic::div_mod::lemma_fundamental_div_mod_converse(y * w + x, w, y, x);
    }
}

/// Index and position are inverse: the index of the position of a tile
/// index is that index.
pub proof fn law_xy_idx_of_idx_pos(m: &TileMap, i: int)
    requires
        m.width > 0,
        0 <= i,
    ensures
        m.idx_of(i % (m.width as int), i / (m.width as int)) == i,
{
    let w = m.width as int;
    assert(i == (i / w) * w + i % w) by (nonlinear_arith)
        requires
            w > 0,
    ;
}

/// Only walls and doors block sight: on any tile, a pawn that is not a door
/// blocks no more than an empty tile does. Two maps with the same tiles
/// whose pawns on tile `i` are each absent or not a door agree on whether
/// `i` is opaque.
pub proof fn law_only_doors_block_sight(m1: &TileMap, m2: &TileMap, i: int)
    requires
        m1.tiles@[i] == m2.tiles@[i],
        !(m1.pawns@[i] matches Some(p) && p.is_door),
        !(m2.pawns@[i] matches Some(p) && p.is_door),
    ensures
        m1.spec_opaque(i) == m2.spec_opaque(i),
        m1.spec_opaque(i) <==> m1.tiles@[i] == TileType::Wall,
{
}

/// A doorway blocks sight exactly when a door stands in it; a wall always
/// does, and no other kind of tile ever does.
pub proof fn law_opaque_tiles(m: &TileMap, i: int)
    ensures
        m.tiles@[i] == TileType::Doorway ==> (m.spec_opaque(i) <==> (m.pawns@[i] is Some && m.pawns@[i]->0.is_door)),
        m.tiles@[i] == TileType::Wall ==> m.spec_opaque(i),
        m.tiles@[i] != TileType::Wall && m.tiles@[i] != TileType::Doorway ==> !m.spec_opaque(i),
{
}

} // verus!
