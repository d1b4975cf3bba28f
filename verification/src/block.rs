//! Map blocks: square tile layouts that are loaded from text, turned into their
//! rotated and mirrored variants, and fitted together edge to edge.
use vstd::prelude::*;
use crate::geom::Direction;
use crate::tile::TileType;

verus! {

/// Side length of a block in tiles.
pub const BLOCK_SIZE: usize = 32;

/// Number of tiles in a block.
pub open spec fn block_area() -> nat {
    1024
}

pub struct Block {
    pub tiles: Vec<TileType>,
}

impl Clone for Block {
    fn clone(&self) -> (r: Self)
        ensures
            r.tiles@ == self.tiles@,
    {
        let r = Block { tiles: self.tiles.clone() };
        assert(r.tiles@ =~= self.tiles@);
        r
    }
}

impl Block {
    /// A block holds exactly one tile per cell.
    pub open spec fn wf(&self) -> bool {
        self.tiles@.len() == block_area()
    }
}

/// Index of tile (x, y) within a block, row-major.
pub open spec fn spec_block_idx(x: int, y: int) -> int {
    y * 32 + x
}

/// Source index of destination tile `i` for a clockwise quarter turn.
pub open spec fn rot_src(i: int) -> int {
    (31 - i % 32) * 32 + i / 32
}

/// Source index of destination tile `i` for a left-right mirror.
pub open spec fn mirror_h_src(i: int) -> int {
    (i / 32) * 32 + (31 - i % 32)
}

/// Source index of destination tile `i` for a top-bottom mirror.
pub open spec fn mirror_v_src(i: int) -> int {
    (31 - i / 32) * 32 + i % 32
}

/// Source index of destination tile `i` for a mirror in both axes.
pub open spec fn mirror_both_src(i: int) -> int {
    (31 - i / 32) * 32 + (31 - i % 32)
}

pub open spec fn spec_rotate(s: Seq<TileType>) -> Seq<TileType> {
    Seq::new(1024, |i: int| s[rot_src(i)])
}

pub open spec fn spec_mirror_h(s: Seq<TileType>) -> Seq<TileType> {
    Seq::new(1024, |i: int| s[mirror_h_src(i)])
}

pub open spec fn spec_mirror_v(s: Seq<TileType>) -> Seq<TileType> {
    Seq::new(1024, |i: int| s[mirror_v_src(i)])
}

pub open spec fn spec_mirror_both(s: Seq<TileType>) -> Seq<TileType> {
    Seq::new(1024, |i: int| s[mirror_both_src(i)])
}

proof fn lemma_src_in_range(i: int)
    requires
        0 <= i < 1024,
    ensures
        0 <= rot_src(i) < 1024,
        0 <= mirror_h_src(i) < 1024,
        0 <= mirror_v_src(i) < 1024,
        0 <= mirror_both_src(i) < 1024,
{
}

/// Index of tile (x, y) within a block, row-major.
pub fn block_xy_idx(x: usize, y: usize) -> (r: usize)
    requires
        y * 32 + x <= usize::MAX,
    ensures
        r == spec_block_idx(x as int, y as int),
{
    (y * BLOCK_SIZE) + x
}

/// Index of cell (x, y) within a square grid of blocks, row-major.
pub fn _grid_xy_idx(x: usize, y: usize, grid_size: usize) -> (r: usize)
    requires
        y * grid_size + x <= usize::MAX,
    ensures
        r == y * grid_size + x,
{
    (y * grid_size) + x
}

/// Builds the block whose tile `i` is `block.tiles[src(i)]` for one of the four
/// symmetry maps (0 = quarter turn, 1 = left-right, 2 = top-bottom, 3 = both).
fn remap_block(block: &Block, kind: u8) -> (r: Block)
    requires
        block.wf(),
        kind < 4,
    ensures
        r.wf(),
        kind == 0 ==> r.tiles@ == spec_rotate(block.tiles@),
        kind == 1 ==> r.tiles@ == spec_mirror_h(block.tiles@),
        kind == 2 ==> r.tiles@ == spec_mirror_v(block.tiles@),
        kind == 3 ==> r.tiles@ == spec_mirror_both(block.tiles@),
{
    let n = BLOCK_SIZE;
    let mut tiles: Vec<TileType> = Vec::new();
    let mut i: usize = 0;
    while i < n * n
        invariant
            n == 32,
            i <= 1024,
            block.wf(),
            kind < 4,
            tiles@.len() == i,
            forall|j: int|
                0 <= j < i ==> #[trigger] tiles@[j] == (if kind == 0 {
                    block.tiles@[rot_src(j)]
                } else if kind == 1 {
                    block.tiles@[mirror_h_src(j)]
                } else if kind == 2 {
                    block.tiles@[mirror_v_src(j)]
                } else {
                    block.tiles@[mirror_both_src(j)]
                }),
        decreases 1024 - i,
    {
        proof {
            lemma_src_in_range(i as int);
        }
        let y = i / n;
        let x = i % n;
        let src = if kind == 0 {
            (n - 1 - x) * n + y
        } else if kind == 1 {
            y * n + (n - 1 - x)
        } else if kind == 2 {
            (n - 1 - y) * n + x
        } else {
            (n - 1 - y) * n + (n - 1 - x)
        };
        tiles.push(block.tiles[src]);
        i = i + 1;
    }
    proof {
        if kind == 0 {
            assert(tiles@ =~= spec_rotate(block.tiles@));
        } else if kind == 1 {
            assert(tiles@ =~= spec_mirror_h(block.tiles@));
        } else if kind == 2 {
            assert(tiles@ =~= spec_mirror_v(block.tiles@));
        } else {
            assert(tiles@ =~= spec_mirror_both(block.tiles@));
        }
    }
    Block { tiles }
}

/// The block turned a quarter turn clockwise.
pub fn rotate_block_90cw(block: &Block) -> (r: Block)
    requires
        block.wf(),
    ensures
        r.wf(),
        r.tiles@ == spec_rotate(block.tiles@),
{
    remap_block(block, 0)
}

/// The block mirrored left to right.
pub fn mirror_horizontal(block: &Block) -> (r: Block)
    requires
        block.wf(),
    ensures
        r.wf(),
        r.tiles@ == spec_mirror_h(block.tiles@),
{
    remap_block(block, 1)
}

/// The block mirrored top to bottom.
pub fn mirror_vertical(block: &Block) -> (r: Block)
    requires
        block.wf(),
    ensures
        r.wf(),
        r.tiles@ == spec_mirror_v(block.tiles@),
{
    remap_block(block, 2)
}

/// The block mirrored in both axes.
pub fn mirror_both(block: &Block) -> (r: Block)
    requires
        block.wf(),
    ensures
        r.wf(),
        r.tiles@ == spec_mirror_both(block.tiles@),
{
    remap_block(block, 3)
}

proof fn lemma_rot_rot_src(i: int)
    requires
        0 <= i < 1024,
    ensures
        rot_src(rot_src(i)) == mirror_both_src(i),
{
}

/// Two clockwise quarter turns are the same as mirroring in both axes.
pub proof fn law_half_turn_is_mirror_both(s: Seq<TileType>)
    requires
        s.len() == 1024,
    ensures
        spec_rotate(spec_rotate(s)) == spec_mirror_both(s),
{
    let r2 = spec_rotate(spec_rotate(s));
    assert forall|i: int| 0 <= i < 1024 implies r2[i] == spec_mirror_both(s)[i] by {
        lemma_src_in_range(i);
        lemma_src_in_range(rot_src(i));
        lemma_rot_rot_src(i);
    }
    assert(r2 =~= spec_mirror_both(s));
}

/// Four clockwise quarter turns give back the original block.
pub proof fn law_four_turns_identity(s: Seq<TileType>)
    requires
        s.len() == 1024,
    ensures
        spec_rotate(spec_rotate(spec_rotate(spec_rotate(s)))) == s,
{
    law_half_turn_is_mirror_both(s);
    let h = spec_rotate(spec_rotate(s));
    law_half_turn_is_mirror_both(h);
    lemma_mirror_both_twice(s);
}

proof fn lemma_mirror_h_twice(s: Seq<TileType>)
    requires
        s.len() == 1024,
    ensures
        spec_mirror_h(spec_mirror_h(s)) == s,
{
    assert forall|i: int| 0 <= i < 1024 implies #[trigger] spec_mirror_h(spec_mirror_h(s))[i] == s[i] by {
        lemma_src_in_range(i);
        lemma_src_in_range(mirror_h_src(i));
    }
    assert(spec_mirror_h(spec_mirror_h(s)) =~= s);
}

proof fn lemma_mirror_v_twice(s: Seq<TileType>)
    requires
        s.len() == 1024,
    ensures
        spec_mirror_v(spec_mirror_v(s)) == s,
{
    assert forall|i: int| 0 <= i < 1024 implies #[trigger] spec_mirror_v(spec_mirror_v(s))[i] == s[i] by {
        lemma_src_in_range(i);
        lemma_src_in_range(mirror_v_src(i));
    }
    assert(spec_mirror_v(spec_mirror_v(s)) =~= s);
}

proof fn lemma_mirror_both_twice(s: Seq<TileType>)
    requires
        s.len() == 1024,
    ensures
        spec_mirror_both(spec_mirror_both(s)) == s,
{
    assert forall|i: int| 0 <= i < 1024 implies #[trigger] spec_mirror_both(spec_mirror_both(s))[i] == s[i] by {
        lemma_src_in_range(i);
        lemma_src_in_range(mirror_both_src(i));
    }
    assert(spec_mirror_both(spec_mirror_both(s)) =~= s);
}

proof fn lemma_mirror_srcs_commute(i: int)
    requires
        0 <= i < 1024,
    ensures
        mirror_v_src(mirror_h_src(i)) == mirror_both_src(i),
        mirror_h_src(mirror_v_src(i)) == mirror_both_src(i),
{
    let x = i % 32;
    let y = i / 32;
    vstd::arithmetic::div_mod::lemma_fundamental_div_mod_converse(y * 32 + (31 - x), 32, y, 31 - x);
    vstd::arithmetic::div_mod::lemma_fundamental_div_mod_converse((31 - y) * 32 + x, 32, 31 - y, x);
}

proof fn lemma_mirror_hv(s: Seq<TileType>)
    requires
        s.len() == 1024,
    ensures
        spec_mirror_h(spec_mirror_v(s)) == spec_mirror_both(s),
{
    assert forall|i: int| 0 <= i < 1024 implies #[trigger] spec_mirror_h(spec_mirror_v(s))[i] == spec_mirror_both(s)[i] by {
        lemma_src_in_range(i);
        lemma_src_in_range(mirror_h_src(i));
        lemma_mirror_srcs_commute(i);
    }
    assert(spec_mirror_h(spec_mirror_v(s)) =~= spec_mirror_both(s));
}

proof fn lemma_mirror_vh(s: Seq<TileType>)
    requires
        s.len() == 1024,
    ensures
        spec_mirror_v(spec_mirror_h(s)) == spec_mirror_both(s),
{
    assert forall|i: int| 0 <= i < 1024 implies #[trigger] spec_mirror_v(spec_mirror_h(s))[i] == spec_mirror_both(s)[i] by {
        lemma_src_in_range(i);
        lemma_src_in_range(mirror_v_src(i));
        lemma_mirror_srcs_commute(i);
    }
    assert(spec_mirror_v(spec_mirror_h(s)) =~= spec_mirror_both(s));
}

/// Each mirror undoes itself, and mirroring in both axes is the two single
/// mirrors one after the other, in either order.
pub proof fn law_mirrors(s: Seq<TileType>)
    requires
        s.len() == 1024,
    ensures
        spec_mirror_h(spec_mirror_h(s)) == s,
        spec_mirror_v(spec_mirror_v(s)) == s,
        spec_mirror_both(spec_mirror_both(s)) == s,
        spec_mirror_h(spec_mirror_v(s)) == spec_mirror_both(s),
        spec_mirror_v(spec_mirror_h(s)) == spec_mirror_both(s),
{
    lemma_mirror_h_twice(s);
    lemma_mirror_v_twice(s);
    lemma_mirror_both_twice(s);
    lemma_mirror_hv(s);
    lemma_mirror_vh(s);
}

// ---------------------------------------------------------------------------
// Edge compatibility
// ---------------------------------------------------------------------------

/// One-way rule for two tiles meeting across a block seam; `None` is the map edge.
pub open spec fn tile_matcher(t1: Option<TileType>, t2: Option<TileType>) -> bool {
    match (t1, t2) {
        (None, Some(TileType::Wall)) => true,
        (None, Some(TileType::Doorway)) => true,
        (None, Some(TileType::Window)) => true,
        (Some(TileType::Wall), Some(TileType::Wall)) => true,
        (Some(TileType::Wall), Some(TileType::Floor)) => true,
        (Some(TileType::Wall), Some(TileType::Fence)) => true,
        (Some(TileType::Wall), Some(TileType::Ground)) => true,
        (Some(TileType::Floor), Some(TileType::Floor)) => true,
        (Some(TileType::Floor), Some(TileType::Doorway)) => true,
        (Some(TileType::Ground), Some(TileType::Ground)) => true,
        (Some(TileType::Ground), Some(TileType::Doorway)) => true,
        (Some(TileType::Road), Some(TileType::Road)) => true,
        (Some(TileType::Road), Some(TileType::Doorway)) => true,
        (Some(TileType::Fence), Some(TileType::Fence)) => true,
        (Some(TileType::Window), _) => true,
        (_, _) => false,
    }
}

/// Two tiles may face each other across a seam when the rule allows them in
/// either order.
pub open spec fn spec_valid_neighbors(t1: Option<TileType>, t2: Option<TileType>) -> bool {
    tile_matcher(t1, t2) || tile_matcher(t2, t1)
}

fn matcher(t1: Option<TileType>, t2: Option<TileType>) -> (r: bool)
    ensures
        r == tile_matcher(t1, t2),
{
    match (t1, t2) {
        (None, Some(TileType::Wall)) => true,
        (None, Some(TileType::Doorway)) => true,
        (None, Some(TileType::Window)) => true,
        (Some(TileType::Wall), Some(TileType::Wall)) => true,
        (Some(TileType::Wall), Some(TileType::Floor)) => true,
        (Some(TileType::Wall), Some(TileType::Fence)) => true,
        (Some(TileType::Wall), Some(TileType::Ground)) => true,
        (Some(TileType::Floor), Some(TileType::Floor)) => true,
        (Some(TileType::Floor), Some(TileType::Doorway)) => true,
        (Some(TileType::Ground), Some(TileType::Ground)) => true,
        (Some(TileType::Ground), Some(TileType::Doorway)) => true,
        (Some(TileType::Road), Some(TileType::Road)) => true,
        (Some(TileType::Road), Some(TileType::Doorway)) => true,
        (Some(TileType::Fence), Some(TileType::Fence)) => true,
        (Some(TileType::Window), _) => true,
        (_, _) => false,
    }
}

/// Whether two tiles may be neighbours across blocks. `None` stands for the map edge.
pub fn valid_tile_neighbors(tile_1: Option<TileType>, tile_2: Option<TileType>) -> (r: bool)
    ensures
        r == spec_valid_neighbors(tile_1, tile_2),
{
    matcher(tile_1, tile_2) || matcher(tile_2, tile_1)
}

/// The seam rule does not depend on which tile is named first.
pub proof fn law_valid_neighbors_symmetric(t1: Option<TileType>, t2: Option<TileType>)
    ensures
        spec_valid_neighbors(t1, t2) == spec_valid_neighbors(t2, t1),
{
}

pub open spec fn is_cardinal(d: Direction) -> bool {
    d == Direction::Left || d == Direction::Right || d == Direction::Up || d == Direction::Down
}

/// The two tile indices that meet at position `i` of the seam when block 1 lies
/// in direction `d` of block 2: (index in block 1, index in block 2).
pub open spec fn seam_pair(d: Direction, i: int) -> (int, int) {
    match d {
        Direction::Left => (spec_block_idx(31, i), spec_block_idx(0, i)),
        Direction::Right => (spec_block_idx(0, i), spec_block_idx(31, i)),
        Direction::Up => (spec_block_idx(i, 31), spec_block_idx(i, 0)),
        _ => (spec_block_idx(i, 0), spec_block_idx(i, 31)),
    }
}

pub open spec fn opt_tiles(b: Option<&Block>) -> Option<Seq<TileType>> {
    match b {
        Some(bb) => Some(bb.tiles@),
        None => None,
    }
}

pub open spec fn tile_at(b: Option<Seq<TileType>>, k: int) -> Option<TileType> {
    match b {
        Some(s) => Some(s[k]),
        None => None,
    }
}

/// Block 1 may sit in direction `d` of block 2 (either may be the map edge).
pub open spec fn spec_blocks_fit(b1: Option<Seq<TileType>>, d: Direction, b2: Option<Seq<TileType>>) -> bool {
    forall|i: int|
        0 <= i < 32 ==> #[trigger] spec_valid_neighbors(
            tile_at(b1, seam_pair(d, i).0),
            tile_at(b2, seam_pair(d, i).1),
        )
}

pub open spec fn opt_block_wf(b: Option<&Block>) -> bool {
    match b {
        Some(bb) => bb.wf(),
        None => true,
    }
}

/// Whether placing `block_1` in `direction` of `block_2` is valid given the
/// tiles along their shared edge. `None` stands for the map edge.
pub fn is_block_valid(block_1: Option<&Block>, direction: Direction, block_2: Option<&Block>) -> (r: bool)
    requires
        opt_block_wf(block_1),
        opt_block_wf(block_2),
        is_cardinal(direction),
    ensures
        r == spec_blocks_fit(opt_tiles(block_1), direction, opt_tiles(block_2)),
{
    let mut i: usize = 0;
    while i < BLOCK_SIZE
        invariant
            i <= 32,
            opt_block_wf(block_1),
            opt_block_wf(block_2),
            is_cardinal(direction),
            forall|k: int|
                0 <= k < i ==> #[trigger] spec_valid_neighbors(
                    tile_at(opt_tiles(block_1), seam_pair(direction, k).0),
                    tile_at(opt_tiles(block_2), seam_pair(direction, k).1),
                ),
        decreases 32 - i,
    {
        let (tile1_idx, tile2_idx) = match direction {
            Direction::Left => (block_xy_idx(BLOCK_SIZE - 1, i), block_xy_idx(0, i)),
            Direction::Right => (block_xy_idx(0, i), block_xy_idx(BLOCK_SIZE - 1, i)),
            Direction::Up => (block_xy_idx(i, BLOCK_SIZE - 1), block_xy_idx(i, 0)),
            _ => (block_xy_idx(i, 0), block_xy_idx(i, BLOCK_SIZE - 1)),
        };
        let tile_1 = match block_1 {
            Some(block) => Some(block.tiles[tile1_idx]),
            None => None,
        };
        let tile_2 = match block_2 {
            Some(block) => Some(block.tiles[tile2_idx]),
            None => None,
        };
        assert(tile1_idx == seam_pair(direction, i as int).0 && tile2_idx == seam_pair(direction, i as int).1);
        assert(tile_1 == tile_at(opt_tiles(block_1), seam_pair(direction, i as int).0));
        assert(tile_2 == tile_at(opt_tiles(block_2), seam_pair(direction, i as int).1));
        if !valid_tile_neighbors(tile_1, tile_2) {
            return false;
        }
        i = i + 1;
    }
    true
}

/// The opposite of a cardinal direction.
pub open spec fn opposite(d: Direction) -> Direction {
    match d {
        Direction::Left => Direction::Right,
        Direction::Right => Direction::Left,
        Direction::Up => Direction::Down,
        Direction::Down => Direction::Up,
        Direction::UpRight => Direction::DownLeft,
        Direction::DownLeft => Direction::UpRight,
        Direction::DownRight => Direction::UpLeft,
        Direction::UpLeft => Direction::DownRight,
    }
}

/// Block A fits in direction d of block B exactly when B fits in the opposite
/// direction of A: the seam is judged the same from both sides.
pub proof fn law_blocks_fit_symmetric(a: Option<Seq<TileType>>, d: Direction, b: Option<Seq<TileType>>)
    requires
        is_cardinal(d),
    ensures
        spec_blocks_fit(a, d, b) == spec_blocks_fit(b, opposite(d), a),
{
    if spec_blocks_fit(a, d, b) {
        assert forall|i: int| 0 <= i < 32 implies #[trigger] spec_valid_neighbors(
            tile_at(b, seam_pair(opposite(d), i).0),
            tile_at(a, seam_pair(opposite(d), i).1),
        ) by {
            assert(spec_valid_neighbors(tile_at(a, seam_pair(d, i).0), tile_at(b, seam_pair(d, i).1)));
        }
    }
    if spec_blocks_fit(b, opposite(d), a) {
        assert forall|i: int| 0 <= i < 32 implies #[trigger] spec_valid_neighbors(
            tile_at(a, seam_pair(d, i).0),
            tile_at(b, seam_pair(d, i).1),
        ) by {
            assert(spec_valid_neighbors(
                tile_at(b, seam_pair(opposite(d), i).0),
                tile_at(a, seam_pair(opposite(d), i).1),
            ));
        }
    }
}

// ---------------------------------------------------------------------------
// Loading
// ---------------------------------------------------------------------------

/// The tile a character of a block file stands for; other characters
/// (line breaks among them) are skipped.
pub open spec fn tile_of_byte(c: u8) -> Option<TileType> {
    if c == 46 {
        Some(TileType::Ground)
    } else if c == 95 {
        Some(TileType::Road)
    } else if c == 45 {
        Some(TileType::Floor)
    } else if c == 87 {
        Some(TileType::Wall)
    } else if c == 120 {
        Some(TileType::Window)
    } else if c == 68 {
        Some(TileType::Doorway)
    } else if c == 32 {
        Some(TileType::Doorway)
    } else if c == 35 {
        Some(TileType::Fence)
    } else {
        None
    }
}

/// The tiles named by a block file, in order.
pub open spec fn parsed_tiles(b: Seq<u8>) -> Seq<TileType>
    decreases b.len(),
{
    if b.len() == 0 {
        Seq::empty()
    } else {
        let rest = parsed_tiles(b.drop_last());
        match tile_of_byte(b.last()) {
            Some(t) => rest.push(t),
            None => rest,
        }
    }
}

pub open spec fn grounds(n: nat) -> Seq<TileType> {
    Seq::new(n, |i: int| TileType::Ground)
}

/// The tile sequence of a loaded block: the file's tiles, then Ground.
pub open spec fn spec_loaded_tiles(b: Seq<u8>) -> Seq<TileType> {
    parsed_tiles(b) + grounds((1024 - parsed_tiles(b).len()) as nat)
}

fn byte_tile(c: u8) -> (r: Option<TileType>)
    ensures
        r == tile_of_byte(c),
{
    if c == 46 {
        Some(TileType::Ground)
    } else if c == 95 {
        Some(TileType::Road)
    } else if c == 45 {
        Some(TileType::Floor)
    } else if c == 87 {
        Some(TileType::Wall)
    } else if c == 120 {
        Some(TileType::Window)
    } else if c == 68 {
        Some(TileType::Doorway)
    } else if c == 32 {
        Some(TileType::Doorway)
    } else if c == 35 {
        Some(TileType::Fence)
    } else {
        None
    }
}

proof fn lemma_parsed_prefix_len(b: Seq<u8>, k: int)
    requires
        0 <= k <= b.len(),
    ensures
        parsed_tiles(b.take(k)).len() <= parsed_tiles(b).len(),
    decreases b.len(),
{
    if k < b.len() {
        assert(b.drop_last().take(k) =~= b.take(k));
        lemma_parsed_prefix_len(b.drop_last(), k);
    } else {
        assert(b.take(k) =~= b);
    }
}

/// Number of tile characters in a block file.
pub fn block_tile_count(data: &[u8]) -> (r: usize)
    ensures
        r == parsed_tiles(data@).len(),
{
    let mut count: usize = 0;
    let mut k: usize = 0;
    while k < data.len()
        invariant
            k <= data@.len(),
            count == parsed_tiles(data@.take(k as int)).len(),
            count <= k,
        decreases data@.len() - k,
    {
        assert(data@.take(k + 1).drop_last() =~= data@.take(k as int));
        if byte_tile(data[k]).is_some() {
            count = count + 1;
        }
        k = k + 1;
    }
    assert(data@.take(data@.len() as int) =~= data@);
    count
}

/// Loads one block from the bytes of a block file: tile characters fill the
/// block row by row; unknown characters are skipped; missing tiles stay Ground.
/// The file may name at most one block's worth of tiles.
pub fn parse_block(data: &[u8]) -> (r: Block)
    requires
        parsed_tiles(data@).len() <= 1024,
    ensures
        r.wf(),
        r.tiles@ == spec_loaded_tiles(data@),
{
    let mut tiles: Vec<TileType> = Vec::new();
    let mut j: usize = 0;
    while j < BLOCK_SIZE * BLOCK_SIZE
        invariant
            j <= 1024,
            tiles@ == grounds(j as nat),
        decreases 1024 - j,
    {
        tiles.push(TileType::Ground);
        j = j + 1;
        assert(tiles@ =~= grounds(j as nat));
    }
    let mut index: usize = 0;
    let mut k: usize = 0;
    while k < data.len()
        invariant
            k <= data@.len(),
            parsed_tiles(data@).len() <= 1024,
            index == parsed_tiles(data@.take(k as int)).len(),
            tiles@ == parsed_tiles(data@.take(k as int)) + grounds((1024 - index) as nat),
        decreases data@.len() - k,
    {
        assert(data@.take(k + 1).drop_last() =~= data@.take(k as int));
        proof {
            lemma_parsed_prefix_len(data@, k + 1);
        }
        match byte_tile(data[k]) {
            Some(t) => {
                tiles.set(index, t);
                index = index + 1;
                assert(tiles@ =~= parsed_tiles(data@.take(k + 1)) + grounds((1024 - index) as nat));
            },
            None => {},
        }
        k = k + 1;
    }
    assert(data@.take(data@.len() as int) =~= data@);
    Block { tiles }
}

/// The block turned clockwise `j` quarter turns.
pub open spec fn rot_n(s: Seq<TileType>, j: nat) -> Seq<TileType>
    decreases j,
{
    if j == 0 {
        s
    } else {
        spec_rotate(rot_n(s, (j - 1) as nat))
    }
}

/// Variant `k` of rotation `j`: left-right mirror, top-bottom mirror, both
/// mirrors, then the rotation itself.
pub open spec fn spec_variant(s: Seq<TileType>, j: nat, k: nat) -> Seq<TileType> {
    let base = rot_n(s, j);
    if k == 0 {
        spec_mirror_h(base)
    } else if k == 1 {
        spec_mirror_v(base)
    } else if k == 2 {
        spec_mirror_both(base)
    } else {
        base
    }
}

/// The sixteen variants a loaded block contributes: for each of the four
/// rotations, its three mirrored forms followed by the rotation itself.
pub fn block_variants(block: &Block) -> (r: Vec<Block>)
    requires
        block.wf(),
    ensures
        r@.len() == 16,
        forall|i: int| 0 <= i < 16 ==> (#[trigger] r@[i]).wf(),
        forall|i: int|
            0 <= i < 16 ==> (#[trigger] r@[i]).tiles@ == spec_variant(block.tiles@, (i / 4) as nat, (i % 4) as nat),
{
    let mut blocks: Vec<Block> = Vec::new();
    let mut base = block.clone();
    let mut j: usize = 0;
    while j < 4
        invariant
            j <= 4,
            block.wf(),
            base.wf(),
            base.tiles@ == rot_n(block.tiles@, j as nat),
            blocks@.len() == 4 * j,
            forall|i: int| 0 <= i < 4 * j ==> (#[trigger] blocks@[i]).wf(),
            forall|i: int|
                0 <= i < 4 * j ==> (#[trigger] blocks@[i]).tiles@ == spec_variant(block.tiles@, (i / 4) as nat, (i % 4) as nat),
        decreases 4 - j,
    {
        let next = rotate_block_90cw(&base);
        blocks.push(mirror_horizontal(&base));
        blocks.push(mirror_vertical(&base));
        blocks.push(mirror_both(&base));
        blocks.push(base);
        base = next;
        j = j + 1;
    }
    blocks
}

} // verus!
