//! Laying out the map as a square grid of blocks: block files are sorted into
//! corner, edge, base and middle pools, each grid cell gets the pool its place
//! calls for, and wave-function collapse picks one block per cell.
use vstd::prelude::*;
use crate::block::{
    Block, block_variants, is_block_valid, is_cardinal, parse_block, parsed_tiles, spec_blocks_fit,
    spec_loaded_tiles, spec_variant,
};
use crate::geom::Direction;
use crate::tile::TileType;
use crate::wfc::{
    all_nonempty, cands_in_range, compat_shape, grid_nbr, is_solution, consistent, lemma_nbr_in_range, wfc_propagate, wfc_solve,
};

verus! {

/// A block file as read from disk: its file name and its contents, as bytes.
pub struct BlockFile {
    pub name: Vec<u8>,
    pub data: Vec<u8>,
}

/// `pat` occurs in `name` as a contiguous run.
pub open spec fn name_contains(name: Seq<u8>, pat: Seq<u8>) -> bool {
    exists|i: int| 0 <= i && i + pat.len() <= name.len() && #[trigger] name.subrange(i, i + pat.len()) == pat
}

/// Whether `pat` occurs in `name`.
pub fn bytes_contain(name: &Vec<u8>, pat: &Vec<u8>) -> (r: bool)
    ensures
        r == name_contains(name@, pat@),
{
    let nl = name.len();
    let pl = pat.len();
    if pl > nl {
        return false;
    }
    if pl == 0 {
        assert(name@.subrange(0, 0 + pat@.len() as int) =~= pat@);
        return true;
    }
    let positions = nl - pl + 1;
    let mut i: usize = 0;
    while i < positions
        invariant
            nl == name@.len(),
            pl == pat@.len(),
            1 <= pl <= nl,
            positions == nl - pl + 1,
            i <= positions,
            forall|t: int| 0 <= t < i ==> #[trigger] name@.subrange(t, t + pat@.len()) != pat@,
        decreases positions - i,
    {
        let mut j: usize = 0;
        let mut same = true;
        while j < pl
            invariant
                nl == name@.len(),
                pl == pat@.len(),
                j <= pl,
                i + pl <= nl,
                same == (forall|t: int| 0 <= t < j ==> name@[i + t] == #[trigger] pat@[t]),
            decreases pl - j,
        {
            if name[i + j] != pat[j] {
                same = false;
            }
            j = j + 1;
        }
        if same {
            assert(name@.subrange(i as int, i + pat@.len()) =~= pat@);
            return true;
        }
        assert(name@.subrange(i as int, i + pat@.len()) != pat@) by {
            let t = choose|t: int| 0 <= t < pat@.len() && name@[i + t] != #[trigger] pat@[t];
            assert(name@.subrange(i as int, i + pat@.len())[t] == name@[i + t]);
        }
        i = i + 1;
    }
    false
}

/// The tile sequences of a list of blocks.
pub open spec fn tiles_of(bs: Seq<Block>) -> Seq<Seq<TileType>> {
    bs.map_values(|b: Block| b.tiles@)
}

/// The sixteen variants of one loaded block, in the order they are produced.
pub open spec fn variants_of(s: Seq<TileType>) -> Seq<Seq<TileType>> {
    Seq::new(16, |i: int| spec_variant(s, (i / 4) as nat, (i % 4) as nat))
}

/// The blocks loaded from the files whose name holds `pat`, in file order.
pub open spec fn spec_blocks_from(files: Seq<BlockFile>, pat: Seq<u8>) -> Seq<Seq<TileType>>
    decreases files.len(),
{
    if files.len() == 0 {
        Seq::empty()
    } else {
        let rest = spec_blocks_from(files.drop_last(), pat);
        if name_contains(files.last().name@, pat) {
            rest + variants_of(spec_loaded_tiles(files.last().data@))
        } else {
            rest
        }
    }
}

/// Every file whose name holds `pat` names at most one block's worth of tiles.
pub open spec fn files_loadable(files: Seq<BlockFile>, pat: Seq<u8>) -> bool {
    forall|i: int|
        0 <= i < files.len() && name_contains(files[i].name@, pat) ==> parsed_tiles(
            (#[trigger] files[i]).data@,
        ).len() <= 1024
}

proof fn lemma_blocks_from_len(files: Seq<BlockFile>, pat: Seq<u8>)
    ensures
        spec_blocks_from(files, pat).len() <= 16 * files.len(),
    decreases files.len(),
{
    if files.len() > 0 {
        lemma_blocks_from_len(files.drop_last(), pat);
    }
}

/// Loads every block file whose name holds `pat` and returns the sixteen
/// rotated and mirrored variants of each, in file order.
pub fn generate_blocks(files: &Vec<BlockFile>, pat: &Vec<u8>) -> (r: Vec<Block>)
    requires
        files_loadable(files@, pat@),
    ensures
        r@.len() == spec_blocks_from(files@, pat@).len(),
        tiles_of(r@) == spec_blocks_from(files@, pat@),
        forall|i: int| 0 <= i < r@.len() ==> (#[trigger] r@[i]).wf(),
        forall|i: int| 0 <= i < r@.len() ==> (#[trigger] r@[i]).tiles@ == spec_blocks_from(files@, pat@)[i],
{
    let mut blocks: Vec<Block> = Vec::new();
    let mut f: usize = 0;
    while f < files.len()
        invariant
            f <= files@.len(),
            files_loadable(files@, pat@),
            blocks@.len() == spec_blocks_from(files@.take(f as int), pat@).len(),
            forall|i: int| 0 <= i < blocks@.len() ==> (#[trigger] blocks@[i]).wf(),
            forall|i: int|
                0 <= i < blocks@.len() ==> (#[trigger] blocks@[i]).tiles@ == spec_blocks_from(
                    files@.take(f as int),
                    pat@,
                )[i],
        decreases files@.len() - f,
    {
        let ghost prefix = files@.take(f as int);
        assert(files@.take(f + 1).drop_last() =~= prefix);
        assert(files@.take(f + 1).last() == files@[f as int]);
        if bytes_contain(&files[f].name, pat) {
            let block = parse_block(files[f].data.as_slice());
            let variants = block_variants(&block);
            let ghost before = blocks@;
            let mut v: usize = 0;
            while v < 16
                invariant
                    v <= 16,
                    variants@.len() == 16,
                    forall|i: int| 0 <= i < 16 ==> (#[trigger] variants@[i]).wf(),
                    forall|i: int|
                        0 <= i < 16 ==> (#[trigger] variants@[i]).tiles@ == spec_variant(
                            block.tiles@,
                            (i / 4) as nat,
                            (i % 4) as nat,
                        ),
                    blocks@.len() == before.len() + v,
                    forall|i: int| 0 <= i < before.len() ==> blocks@[i] == before[i],
                    forall|i: int| 0 <= i < blocks@.len() ==> (#[trigger] blocks@[i]).wf(),
                    forall|i: int|
                        before.len() <= i < blocks@.len() ==> (#[trigger] blocks@[i]).tiles@ == spec_variant(
                            block.tiles@,
                            ((i - before.len()) / 4) as nat,
                            ((i - before.len()) % 4) as nat,
                        ),
                decreases 16 - v,
            {
                blocks.push(variants[v].clone());
                v = v + 1;
            }
            assert forall|i: int| 0 <= i < blocks@.len() implies (#[trigger] blocks@[i]).tiles@ == spec_blocks_from(
                files@.take(f + 1),
                pat@,
            )[i] by {
                if i < before.len() {
                    assert(blocks@[i] == before[i]);
                }
            }
        }
        f = f + 1;
    }
    assert(files@.take(files@.len() as int) =~= files@);
    assert(tiles_of(blocks@) =~= spec_blocks_from(files@, pat@));
    blocks
}

// ---------------------------------------------------------------------------
// Cell categories
// ---------------------------------------------------------------------------

pub open spec fn inner_min(size: int) -> int {
    size / 4
}

pub open spec fn inner_max(size: int) -> int {
    size - 1 - size / 4
}

pub open spec fn has_inner_ring(size: int) -> bool {
    size / 4 > 0 && inner_min(size) < inner_max(size)
}

pub open spec fn is_outer_corner(size: int, x: int, y: int) -> bool {
    (x == 0 && y == 0) || (x == size - 1 && y == 0) || (x == size - 1 && y == size - 1) || (x == 0 && y == size - 1)
}

pub open spec fn is_outer_edge(size: int, x: int, y: int) -> bool {
    !is_outer_corner(size, x, y) && (x == 0 || x == size - 1 || y == 0 || y == size - 1)
}

pub open spec fn on_inner_ring(size: int, x: int, y: int) -> bool {
    has_inner_ring(size) && inner_min(size) <= x <= inner_max(size) && inner_min(size) <= y <= inner_max(size) && (x
        == inner_min(size) || x == inner_max(size) || y == inner_min(size) || y == inner_max(size))
}

pub open spec fn is_inner_corner(size: int, x: int, y: int) -> bool {
    on_inner_ring(size, x, y) && (x == inner_min(size) || x == inner_max(size)) && (y == inner_min(size) || y
        == inner_max(size))
}

/// Which pool a cell draws from: 0 = corner blocks (outer and inner-ring
/// corners), 1 = edge blocks (outer edges and the inner ring), 2 = base blocks.
pub open spec fn cell_category(size: int, x: int, y: int) -> int {
    if is_outer_corner(size, x, y) || is_inner_corner(size, x, y) {
        0
    } else if is_outer_edge(size, x, y) || on_inner_ring(size, x, y) {
        1
    } else {
        2
    }
}

/// A block that sits at the map boundary of a cell shows a wall-like face there.
pub open spec fn fits_map_edge(size: int, x: int, y: int, b: Seq<TileType>) -> bool {
    &&& (x == 0 ==> spec_blocks_fit(None, Direction::Left, Some(b)))
    &&& (x == size - 1 ==> spec_blocks_fit(None, Direction::Right, Some(b)))
    &&& (y == 0 ==> spec_blocks_fit(None, Direction::Up, Some(b)))
    &&& (y == size - 1 ==> spec_blocks_fit(None, Direction::Down, Some(b)))
}

pub open spec fn grid_center(size: int) -> int {
    (size / 2) * size + size / 2
}

pub open spec fn dir_of_row(d: int) -> Direction {
    if d == 0 {
        Direction::Left
    } else if d == 1 {
        Direction::Right
    } else if d == 2 {
        Direction::Up
    } else {
        Direction::Down
    }
}

pub open spec fn all_wf(blocks: Seq<Block>) -> bool {
    forall|i: int| 0 <= i < blocks.len() ==> (#[trigger] blocks[i]).wf()
}

/// `t[a * nb + b]` tells whether block `a` may sit in direction `dir` of block `b`.
fn compat_table(all: &Vec<Block>, dir: Direction) -> (t: Vec<bool>)
    requires
        all_wf(all@),
        is_cardinal(dir),
        all@.len() * all@.len() <= usize::MAX,
    ensures
        t@.len() == all@.len() * all@.len(),
        forall|a: int, b: int|
            0 <= a < all@.len() && 0 <= b < all@.len() ==> #[trigger] t@[a * all@.len() + b] == spec_blocks_fit(
                Some(all@[a].tiles@),
                dir,
                Some(all@[b].tiles@),
            ),
{
    let nb = all.len();
    let mut t: Vec<bool> = Vec::new();
    let mut a: usize = 0;
    while a < nb
        invariant
            nb == all@.len(),
            nb * nb <= usize::MAX,
            a <= nb,
            all_wf(all@),
            is_cardinal(dir),
            t@.len() == a * nb,
            forall|a2: int, b2: int|
                0 <= a2 < a && 0 <= b2 < nb ==> #[trigger] t@[a2 * nb + b2] == spec_blocks_fit(
                    Some(all@[a2].tiles@),
                    dir,
                    Some(all@[b2].tiles@),
                ),
        decreases nb - a,
    {
        let mut b: usize = 0;
        while b < nb
            invariant
                nb == all@.len(),
                nb * nb <= usize::MAX,
                a < nb,
                b <= nb,
                all_wf(all@),
                is_cardinal(dir),
                t@.len() == a * nb + b,
                forall|a2: int, b2: int|
                    0 <= a2 < a && 0 <= b2 < nb ==> #[trigger] t@[a2 * nb + b2] == spec_blocks_fit(
                        Some(all@[a2].tiles@),
                        dir,
                        Some(all@[b2].tiles@),
                    ),
                forall|b2: int|
                    0 <= b2 < b ==> #[trigger] t@[a * nb + b2] == spec_blocks_fit(
                        Some(all@[a as int].tiles@),
                        dir,
                        Some(all@[b2].tiles@),
                    ),
            decreases nb - b,
        {
            proof {
                assert(a * nb + b < nb * nb) by (nonlinear_arith)
                    requires
                        a < nb,
                        b < nb,
                ;
            }
            let ok = is_block_valid(Some(&all[a]), dir, Some(&all[b]));
            t.push(ok);
            proof {
                assert forall|a2: int, b2: int|
                    0 <= a2 < a && 0 <= b2 < nb implies #[trigger] t@[a2 * nb + b2] == spec_blocks_fit(
                    Some(all@[a2].tiles@),
                    dir,
                    Some(all@[b2].tiles@),
                ) by {
                    assert(a2 * nb + b2 < a * nb) by (nonlinear_arith)
                        requires
                            a2 < a,
                            b2 < nb,
                            0 <= a2,
                    ;
                }
            }
            b = b + 1;
        }
        proof {
            assert((a + 1) * nb == a * nb + nb) by (nonlinear_arith);
            assert forall|a2: int, b2: int|
                0 <= a2 < a + 1 && 0 <= b2 < nb implies #[trigger] t@[a2 * nb + b2] == spec_blocks_fit(
                Some(all@[a2].tiles@),
                dir,
                Some(all@[b2].tiles@),
            ) by {
                if a2 == a {
                    assert(t@[a * nb + b2] == spec_blocks_fit(Some(all@[a as int].tiles@), dir, Some(all@[b2].tiles@)));
                }
            }
        }
        a = a + 1;
    }
    t
}

/// `t[b]` tells whether block `b` may face the map edge that lies in direction `dir` of it.
fn edge_table(all: &Vec<Block>, dir: Direction) -> (t: Vec<bool>)
    requires
        all_wf(all@),
        is_cardinal(dir),
    ensures
        t@.len() == all@.len(),
        forall|b: int| 0 <= b < all@.len() ==> #[trigger] t@[b] == spec_blocks_fit(None, dir, Some(all@[b].tiles@)),
{
    let mut t: Vec<bool> = Vec::new();
    let mut b: usize = 0;
    while b < all.len()
        invariant
            b <= all@.len(),
            all_wf(all@),
            is_cardinal(dir),
            t@.len() == b,
            forall|b2: int| 0 <= b2 < b ==> #[trigger] t@[b2] == spec_blocks_fit(None, dir, Some(all@[b2].tiles@)),
        decreases all@.len() - b,
    {
        t.push(is_block_valid(None, dir, Some(&all[b])));
        b = b + 1;
    }
    t
}

/// Block index `k` may go to cell (x, y): it is in `lo..hi` and its faces on
/// the map boundary are wall-like.
pub open spec fn pool_member(all: Seq<Block>, size: int, x: int, y: int, lo: int, hi: int, k: int) -> bool {
    lo <= k < hi && fits_map_edge(size, x, y, all[k].tiles@)
}

/// The candidate pool of cell (x, y): the blocks of `lo..hi` that fit the map
/// boundary there, in increasing order.
fn cell_pool(
    all: &Vec<Block>,
    edge: &Vec<Vec<bool>>,
    size: usize,
    x: usize,
    y: usize,
    lo: usize,
    hi: usize,
) -> (r: Vec<usize>)
    requires
        all_wf(all@),
        edge@.len() == 4,
        forall|d: int|
            0 <= d < 4 ==> (#[trigger] edge@[d])@.len() == all@.len() && forall|b: int|
                0 <= b < all@.len() ==> edge@[d]@[b] == spec_blocks_fit(None, dir_of_row(d), Some(all@[b].tiles@)),
        lo <= hi <= all@.len(),
        size >= 1,
    ensures
        forall|j: int| 0 <= j < r@.len() ==> pool_member(all@, size as int, x as int, y as int, lo as int, hi as int, #[trigger] r@[j] as int),
        forall|k: int| pool_member(all@, size as int, x as int, y as int, lo as int, hi as int, k) ==> r@.contains(k as usize),
{
    let mut pool: Vec<usize> = Vec::new();
    let mut k: usize = lo;
    while k < hi
        invariant
            lo <= k <= hi,
            hi <= all@.len(),
            all_wf(all@),
            size >= 1,
            edge@.len() == 4,
            forall|d: int|
                0 <= d < 4 ==> (#[trigger] edge@[d])@.len() == all@.len() && forall|b: int|
                    0 <= b < all@.len() ==> edge@[d]@[b] == spec_blocks_fit(None, dir_of_row(d), Some(all@[b].tiles@)),
            forall|j: int| 0 <= j < pool@.len() ==> pool_member(all@, size as int, x as int, y as int, lo as int, hi as int, #[trigger] pool@[j] as int),
            forall|k2: int| lo <= k2 < k && pool_member(all@, size as int, x as int, y as int, lo as int, hi as int, k2) ==> pool@.contains(k2 as usize),
        decreases hi - k,
    {
        let keep = (x != 0 || edge[0][k]) && (x != size - 1 || edge[1][k]) && (y != 0 || edge[2][k]) && (y
            != size - 1 || edge[3][k]);
        assert(keep == fits_map_edge(size as int, x as int, y as int, all@[k as int].tiles@)) by {
            assert(edge@[0]@[k as int] == spec_blocks_fit(None, Direction::Left, Some(all@[k as int].tiles@)));
            assert(edge@[1]@[k as int] == spec_blocks_fit(None, Direction::Right, Some(all@[k as int].tiles@)));
            assert(edge@[2]@[k as int] == spec_blocks_fit(None, Direction::Up, Some(all@[k as int].tiles@)));
            assert(edge@[3]@[k as int] == spec_blocks_fit(None, Direction::Down, Some(all@[k as int].tiles@)));
        }
        let ghost before = pool@;
        if keep {
            pool.push(k);
            assert(pool@[pool@.len() - 1] == k);
        }
        assert forall|k2: int|
            lo <= k2 < k + 1 && pool_member(all@, size as int, x as int, y as int, lo as int, hi as int, k2) implies pool@.contains(
            k2 as usize,
        ) by {
            if k2 < k {
                let w = choose|w: int| 0 <= w < before.len() && before[w] == k2 as usize;
                assert(pool@[w] == before[w]);
            }
        }
        k = k + 1;
    }
    pool
}

// ---------------------------------------------------------------------------
// The grid
// ---------------------------------------------------------------------------

/// File name fragments that sort block files into pools.
pub open spec fn pat_corner() -> Seq<u8> {
    seq![99u8, 111, 114, 110, 101, 114]
}

pub open spec fn pat_edge() -> Seq<u8> {
    seq![101u8, 100, 103, 101]
}

pub open spec fn pat_road() -> Seq<u8> {
    seq![114u8, 111, 97, 100]
}

pub open spec fn pat_building() -> Seq<u8> {
    seq![98u8, 117, 105, 108, 100, 105, 110, 103]
}

pub open spec fn pat_middle() -> Seq<u8> {
    seq![109u8, 105, 100, 100, 108, 101, 98, 108, 111, 99, 107]
}

/// The blocks of one pool: 0 = corner, 1 = edge, 2 = base (road then
/// building files), 3 = middle.
pub open spec fn pool_blocks(files: Seq<BlockFile>, cat: int) -> Seq<Seq<TileType>> {
    if cat == 0 {
        spec_blocks_from(files, pat_corner())
    } else if cat == 1 {
        spec_blocks_from(files, pat_edge())
    } else if cat == 2 {
        spec_blocks_from(files, pat_road()) + spec_blocks_from(files, pat_building())
    } else {
        spec_blocks_from(files, pat_middle())
    }
}

/// Every pool's files can be loaded.
pub open spec fn grid_files_ok(files: Seq<BlockFile>) -> bool {
    &&& files_loadable(files, pat_corner())
    &&& files_loadable(files, pat_edge())
    &&& files_loadable(files, pat_road())
    &&& files_loadable(files, pat_building())
    &&& files_loadable(files, pat_middle())
}

/// The pool cell `i` draws from: the middle pool at the centre when there are
/// middle blocks, else the pool of its place on the grid.
pub open spec fn cell_pool_kind(files: Seq<BlockFile>, size: int, i: int) -> int {
    if i == grid_center(size) && pool_blocks(files, 3).len() > 0 {
        3
    } else {
        cell_category(size, i % size, i / size)
    }
}

/// Index `k` of the combined list (corner, edge, base, middle) is allowed at cell `i`.
pub open spec fn allowed_index(all: Seq<Block>, size: int, nc: int, ne: int, ms: int, nb: int, i: int, k: int) -> bool {
    let x = i % size;
    let y = i / size;
    if i == grid_center(size) && nb > ms {
        ms <= k < nb
    } else {
        let cat = cell_category(size, x, y);
        if cat == 0 {
            pool_member(all, size, x, y, 0, nc, k)
        } else if cat == 1 {
            pool_member(all, size, x, y, nc, nc + ne, k)
        } else {
            pool_member(all, size, x, y, nc + ne, ms, k)
        }
    }
}

/// Every block of the layout `g` sits correctly beside each of its
/// neighbours on the `size` by `size` grid.
pub open spec fn layout_fits(g: Seq<Seq<TileType>>, size: int) -> bool {
    forall|c: int, k: int|
        0 <= c < size * size && 0 <= k < 4 ==> match #[trigger] grid_nbr(size, c, k) {
            Some((n, d)) => spec_blocks_fit(Some(g[c]), dir_of_row(d), Some(g[n])),
            None => true,
        }
}

/// `g` is a layout the generator may produce: one block per cell, drawn from
/// the cell's pool, showing wall-like faces on the map boundary (but at a
/// middle block), and fitting its neighbours.
pub open spec fn valid_layout(files: Seq<BlockFile>, size: int, g: Seq<Seq<TileType>>) -> bool {
    &&& g.len() == size * size
    &&& forall|i: int|
        0 <= i < size * size ==> {
            &&& pool_blocks(files, cell_pool_kind(files, size, i)).contains(#[trigger] g[i])
            &&& cell_pool_kind(files, size, i) != 3 ==> fits_map_edge(size, i % size, i / size, g[i])
        }
    &&& layout_fits(g, size)
}

/// Block index `k` is in the pool of cell `c`'s category and fits the map
/// boundary there.
spec fn category_member(all: Seq<Block>, size: int, nc: int, ne: int, ms: int, c: int, k: int) -> bool {
    let x = c % size;
    let y = c / size;
    let cat = cell_category(size, x, y);
    if cat == 0 {
        pool_member(all, size, x, y, 0, nc, k)
    } else if cat == 1 {
        pool_member(all, size, x, y, nc, nc + ne, k)
    } else {
        pool_member(all, size, x, y, nc + ne, ms, k)
    }
}

/// Where cell `i`'s block of the layout `g` stands in the combined block list
/// (corner, edge, base, middle blocks, with the given pool offsets).
spec fn layout_index(files: Seq<BlockFile>, size: int, g: Seq<Seq<TileType>>, i: int, nc: int, ne: int, ms: int) -> int {
    let kind = cell_pool_kind(files, size, i);
    let pool = pool_blocks(files, kind);
    let w = choose|w: int| 0 <= w < pool.len() && pool[w] == g[i];
    let off = if kind == 0 {
        0
    } else if kind == 1 {
        nc
    } else if kind == 2 {
        nc + ne
    } else {
        ms
    };
    off + w
}

spec fn layout_indices(files: Seq<BlockFile>, size: int, g: Seq<Seq<TileType>>, nc: int, ne: int, ms: int) -> Seq<usize> {
    Seq::new((size * size) as nat, |i: int| layout_index(files, size, g, i, nc, ne, ms) as usize)
}

/// A valid layout, read as block indices, solves the candidate lists that
/// admit every allowed index.
proof fn lemma_layout_solution(
    files: Seq<BlockFile>,
    size: int,
    g: Seq<Seq<TileType>>,
    all: Seq<Block>,
    compat: Seq<Vec<bool>>,
    nc: int,
    ne: int,
    ms: int,
    nb: int,
    init: Seq<Vec<usize>>,
)
    requires
        1 <= size,
        valid_layout(files, size, g),
        tiles_of(all) == pool_blocks(files, 0) + pool_blocks(files, 1) + pool_blocks(files, 2) + pool_blocks(files, 3),
        nc == pool_blocks(files, 0).len(),
        ne == pool_blocks(files, 1).len(),
        ms == nc + ne + pool_blocks(files, 2).len(),
        nb == all.len(),
        nb <= usize::MAX,
        compat.len() == 4,
        forall|d: int, a: int, b: int|
            0 <= d < 4 && 0 <= a < nb && 0 <= b < nb ==> #[trigger] compat[d]@[a * nb + b] == spec_blocks_fit(
                Some(all[a].tiles@),
                dir_of_row(d),
                Some(all[b].tiles@),
            ),
        init.len() == size * size,
        forall|c: int, k: int|
            0 <= c < size * size && #[trigger] allowed_index(all, size, nc, ne, ms, nb, c, k) ==> init[c]@.contains(
                k as usize,
            ),
    ensures
        is_solution(layout_indices(files, size, g, nc, ne, ms), init, compat, nb, size),
{
    let s = layout_indices(files, size, g, nc, ne, ms);
    let t = tiles_of(all);
    let p0 = pool_blocks(files, 0);
    let p1 = pool_blocks(files, 1);
    let p2 = pool_blocks(files, 2);
    let p3 = pool_blocks(files, 3);
    assert(t.len() == all.len());
    assert(t.len() == p0.len() + p1.len() + p2.len() + p3.len());
    assert forall|i: int| 0 <= i < size * size implies 0 <= #[trigger] layout_index(files, size, g, i, nc, ne, ms) < nb
        && all[layout_index(files, size, g, i, nc, ne, ms)].tiles@ == g[i] && allowed_index(
        all,
        size,
        nc,
        ne,
        ms,
        nb,
        i,
        layout_index(files, size, g, i, nc, ne, ms),
    ) by {
        let kind = cell_pool_kind(files, size, i);
        let pool = pool_blocks(files, kind);
        assert(pool.contains(g[i]));
        let w = choose|w: int| 0 <= w < pool.len() && pool[w] == g[i];
        let k = layout_index(files, size, g, i, nc, ne, ms);
        let q01 = p0 + p1;
        let q012 = q01 + p2;
        assert(t == q012 + p3);
        if kind == 0 {
            assert(k == w && w < p0.len());
            assert(q01[k] == p0[w]);
            assert(q012[k] == q01[k]);
            assert(t[k] == q012[k]);
        } else if kind == 1 {
            assert(k == nc + w && w < p1.len());
            assert(q01[k] == p1[w]);
            assert(q012[k] == q01[k]);
            assert(t[k] == q012[k]);
        } else if kind == 2 {
            assert(k == nc + ne + w && w < p2.len());
            assert(q012[k] == p2[w]);
            assert(t[k] == q012[k]);
        } else {
            assert(k == ms + w && w < p3.len());
            assert(t[k] == p3[w]);
        }
        assert(t[k] == all[k].tiles@);
        assert(all[k].tiles@ == g[i]);
    }
    assert forall|c: int| 0 <= c < init.len() implies init[c]@.contains(#[trigger] s[c]) by {
        assert(allowed_index(all, size, nc, ne, ms, nb, c, layout_index(files, size, g, c, nc, ne, ms)));
    }
    assert forall|c: int, k: int| 0 <= c < size * size && 0 <= k < 4 implies match #[trigger] grid_nbr(size, c, k) {
        Some((n, d)) => compat[d]@[s[c] * nb + s[n]],
        None => true,
    } by {
        lemma_nbr_in_range(size, c, k);
        match grid_nbr(size, c, k) {
            Some((n, d)) => {
                assert(0 <= layout_index(files, size, g, c, nc, ne, ms) < nb);
                assert(0 <= layout_index(files, size, g, n, nc, ne, ms) < nb);
                assert(compat[d]@[s[c] * nb + s[n]] == spec_blocks_fit(
                    Some(all[s[c] as int].tiles@),
                    dir_of_row(d),
                    Some(all[s[n] as int].tiles@),
                ));
            },
            None => {},
        }
    }
}

fn append_blocks(dst: &mut Vec<Block>, src: Vec<Block>)
    requires
        all_wf(old(dst)@),
        all_wf(src@),
    ensures
        all_wf(final(dst)@),
        tiles_of(final(dst)@) == tiles_of(old(dst)@) + tiles_of(src@),
{
    let ghost start = dst@;
    let mut i: usize = 0;
    while i < src.len()
        invariant
            i <= src@.len(),
            all_wf(src@),
            all_wf(dst@),
            dst@.len() == start.len() + i,
            tiles_of(dst@) == tiles_of(start) + tiles_of(src@.take(i as int)),
        decreases src@.len() - i,
    {
        let b = src[i].clone();
        let ghost before = dst@;
        dst.push(b);
        assert(dst@[dst@.len() - 1].tiles@ == src@[i as int].tiles@);
        assert(src@.take(i + 1)[i as int] == src@[i as int]);
        assert(tiles_of(before) =~= tiles_of(start) + tiles_of(src@.take(i as int)));
        proof {
            let lhs = tiles_of(dst@);
            let rhs = tiles_of(start) + tiles_of(src@.take(i + 1));
            assert(lhs.len() == rhs.len());
            assert forall|j: int| 0 <= j < lhs.len() implies lhs[j] == rhs[j] by {
                if j < before.len() {
                    assert(dst@[j] == before[j]);
                    assert(lhs[j] == tiles_of(before)[j]);
                    if j >= start.len() {
                        assert(src@.take(i + 1)[j - start.len()] == src@.take(i as int)[j - start.len()]);
                    }
                } else {
                    assert(lhs[j] == src@[i as int].tiles@);
                }
            }
            assert(lhs =~= rhs);
        }
        i = i + 1;
    }
    assert(src@.take(src@.len() as int) =~= src@);
}

/// How many blocks the four pools hold together.
pub open spec fn grid_block_count(files: Seq<BlockFile>) -> int {
    (pool_blocks(files, 0).len() + pool_blocks(files, 1).len() + pool_blocks(files, 2).len() + pool_blocks(files, 3).len()) as int
}

/// Lays out a `size` by `size` grid of blocks from the given block files.
///
/// Files whose name holds "corner", "edge", "road" or "building", and
/// "middleblock" form the corner, edge, base and middle pools (each file
/// giving sixteen variants). Outer and inner-ring corners draw from the corner
/// pool, outer edges and the inner ring from the edge pool, the rest from the
/// base pool; the centre takes a middle block when there is one. A block on the
/// map boundary must show a wall-like face there. Returns `None` when some cell
/// has no candidate, when the first propagation finds a contradiction, or when
/// the search runs out of candidates. A grid that comes back is a valid
/// layout (see [`valid_layout`]): every block from its cell's pool, wall-like
/// on the map boundary, and fitting each of its neighbours. The search is
/// exhaustive, so whenever such a layout exists, a grid comes back, whatever
/// the random draws.
pub fn generate_block_grid(files: &Vec<BlockFile>, size: usize, rng: &mut rltk::RandomNumberGenerator) -> (r: Option<Vec<Block>>)
    requires
        grid_files_ok(files@),
        1 <= size,
        size * size <= usize::MAX,
        grid_block_count(files@) * grid_block_count(files@) <= usize::MAX,
    ensures
        r matches Some(grid) ==> valid_layout(files@, size as int, tiles_of(grid@)),
        forall|g: Seq<Seq<TileType>>| #[trigger] valid_layout(files@, size as int, g) ==> r is Some,
{
    let corner_pat: Vec<u8> = vec![99u8, 111, 114, 110, 101, 114];
    let edge_pat: Vec<u8> = vec![101u8, 100, 103, 101];
    let road_pat: Vec<u8> = vec![114u8, 111, 97, 100];
    let building_pat: Vec<u8> = vec![98u8, 117, 105, 108, 100, 105, 110, 103];
    let middle_pat: Vec<u8> = vec![109u8, 105, 100, 100, 108, 101, 98, 108, 111, 99, 107];
    assert(corner_pat@ =~= pat_corner());
    assert(edge_pat@ =~= pat_edge());
    assert(road_pat@ =~= pat_road());
    assert(building_pat@ =~= pat_building());
    assert(middle_pat@ =~= pat_middle());

    let corner_blocks = generate_blocks(files, &corner_pat);
    let edge_blocks = generate_blocks(files, &edge_pat);
    let mut base_blocks = generate_blocks(files, &road_pat);
    let building_blocks = generate_blocks(files, &building_pat);
    append_blocks(&mut base_blocks, building_blocks);
    let middle_variants = generate_blocks(files, &middle_pat);
    proof {
        lemma_blocks_from_len(files@, pat_corner());
        lemma_blocks_from_len(files@, pat_edge());
        lemma_blocks_from_len(files@, pat_road());
        lemma_blocks_from_len(files@, pat_building());
        lemma_blocks_from_len(files@, pat_middle());
    }

    let nc = corner_blocks.len();
    let ne = edge_blocks.len();

    let mut all_blocks: Vec<Block> = corner_blocks;
    append_blocks(&mut all_blocks, edge_blocks);
    append_blocks(&mut all_blocks, base_blocks);
    let middle_start = all_blocks.len();
    let n_middle = middle_variants.len();
    append_blocks(&mut all_blocks, middle_variants);
    let nb = all_blocks.len();
    let ghost all_tiles = pool_blocks(files@, 0) + pool_blocks(files@, 1) + pool_blocks(files@, 2) + pool_blocks(files@, 3);
    assert(tiles_of(all_blocks@) =~= all_tiles);
    assert(nb == grid_block_count(files@));

    let mut compat: Vec<Vec<bool>> = Vec::new();
    compat.push(compat_table(&all_blocks, Direction::Left));
    compat.push(compat_table(&all_blocks, Direction::Right));
    compat.push(compat_table(&all_blocks, Direction::Up));
    compat.push(compat_table(&all_blocks, Direction::Down));
    let mut edge_compat: Vec<Vec<bool>> = Vec::new();
    edge_compat.push(edge_table(&all_blocks, Direction::Left));
    edge_compat.push(edge_table(&all_blocks, Direction::Right));
    edge_compat.push(edge_table(&all_blocks, Direction::Up));
    edge_compat.push(edge_table(&all_blocks, Direction::Down));
    assert(compat_shape(compat@, nb as int));
    assert forall|d: int|
        0 <= d < 4 implies (#[trigger] edge_compat@[d])@.len() == all_blocks@.len() && forall|b: int|
            0 <= b < all_blocks@.len() ==> edge_compat@[d]@[b] == spec_blocks_fit(
                None,
                dir_of_row(d),
                Some(all_blocks@[b].tiles@),
            ) by {
        if d == 0 {
        } else if d == 1 {
        } else if d == 2 {
        } else {
        }
    }

    let inner_margin = size / 4;
    let inner_lo = inner_margin;
    let inner_hi = size - 1 - inner_margin;
    let has_inner = inner_margin > 0 && inner_lo < inner_hi;

    let n = size * size;
    let mut candidates: Vec<Vec<usize>> = Vec::new();
    let mut idx: usize = 0;
    while idx < n
        invariant
            n == size * size,
            1 <= size,
            idx <= n,
            nb == all_blocks@.len(),
            nc + ne <= middle_start <= nb,
            all_wf(all_blocks@),
            inner_lo == inner_min(size as int),
            inner_hi == inner_max(size as int),
            has_inner == has_inner_ring(size as int),
            edge_compat@.len() == 4,
            forall|d: int|
                0 <= d < 4 ==> (#[trigger] edge_compat@[d])@.len() == all_blocks@.len() && forall|b: int|
                    0 <= b < all_blocks@.len() ==> edge_compat@[d]@[b] == spec_blocks_fit(
                        None,
                        dir_of_row(d),
                        Some(all_blocks@[b].tiles@),
                    ),
            candidates@.len() == idx,
            forall|c: int, j: int|
                0 <= c < idx && 0 <= j < candidates@[c]@.len() ==> {
                    let x = c % size as int;
                    let y = c / size as int;
                    let cat = cell_category(size as int, x, y);
                    if cat == 0 {
                        pool_member(all_blocks@, size as int, x, y, 0, nc as int, #[trigger] candidates@[c]@[j] as int)
                    } else if cat == 1 {
                        pool_member(all_blocks@, size as int, x, y, nc as int, (nc + ne) as int, candidates@[c]@[j] as int)
                    } else {
                        pool_member(all_blocks@, size as int, x, y, (nc + ne) as int, middle_start as int, candidates@[c]@[j] as int)
                    }
                },
            forall|c: int, k: int|
                0 <= c < idx && #[trigger] category_member(
                    all_blocks@,
                    size as int,
                    nc as int,
                    ne as int,
                    middle_start as int,
                    c,
                    k,
                ) ==> candidates@[c]@.contains(k as usize),
        decreases n - idx,
    {
        let x = idx % size;
        let y = idx / size;
        let is_outer_corner_c = (x == 0 && y == 0) || (x == size - 1 && y == 0) || (x == size - 1 && y == size - 1) || (x
            == 0 && y == size - 1);
        let is_outer_edge_c = !is_outer_corner_c && (x == 0 || x == size - 1 || y == 0 || y == size - 1);
        let on_inner = has_inner && x >= inner_lo && x <= inner_hi && y >= inner_lo && y <= inner_hi && (x == inner_lo
            || x == inner_hi || y == inner_lo || y == inner_hi);
        let is_inner_corner_c = on_inner && (x == inner_lo || x == inner_hi) && (y == inner_lo || y == inner_hi);
        let (lo, hi) = if is_outer_corner_c || is_inner_corner_c {
            (0, nc)
        } else if is_outer_edge_c || on_inner {
            (nc, nc + ne)
        } else {
            (nc + ne, middle_start)
        };
        let pool = cell_pool(&all_blocks, &edge_compat, size, x, y, lo, hi);
        let ghost before = candidates@;
        candidates.push(pool);
        proof {
            assert forall|c: int, k: int|
                0 <= c < idx + 1 && #[trigger] category_member(
                    all_blocks@,
                    size as int,
                    nc as int,
                    ne as int,
                    middle_start as int,
                    c,
                    k,
                ) implies candidates@[c]@.contains(k as usize) by {
                if c < idx {
                    assert(candidates@[c] == before[c]);
                } else {
                    assert(candidates@[c] == pool);
                    assert(pool_member(all_blocks@, size as int, x as int, y as int, lo as int, hi as int, k));
                }
            }
        }
        idx = idx + 1;
    }

    assert((size / 2) * size + (size / 2) < size * size) by (nonlinear_arith)
        requires
            size >= 1,
    ;
    let center = (size / 2) * size + (size / 2);
    let ghost built = candidates@;
    if n_middle > 0 {
        let mut mid: Vec<usize> = Vec::new();
        let mut k: usize = middle_start;
        while k < nb
            invariant
                middle_start <= k <= nb,
                forall|j: int| 0 <= j < mid@.len() ==> middle_start <= #[trigger] mid@[j] < nb,
                mid@.len() == k - middle_start,
                forall|k2: usize| middle_start <= k2 < k ==> #[trigger] mid@.contains(k2),
            decreases nb - k,
        {
            let ghost before_mid = mid@;
            mid.push(k);
            proof {
                assert(mid@ == before_mid.push(k));
                assert forall|k2: usize| middle_start <= k2 < k + 1 implies #[trigger] mid@.contains(k2) by {
                    if k2 < k {
                        assert(before_mid.contains(k2));
                        let w = choose|w: int| 0 <= w < before_mid.len() && before_mid[w] == k2;
                        assert(mid@[w] == before_mid[w]);
                    } else {
                        assert(mid@[mid@.len() - 1] == k);
                    }
                }
            }
            k = k + 1;
        }
        candidates.set(center, mid);
    }
    let ghost init = candidates@;
    proof {
        assert(center == grid_center(size as int));
        assert(nb == middle_start + n_middle);
        assert forall|c: int, k: int|
            0 <= c < n && #[trigger] allowed_index(
                all_blocks@,
                size as int,
                nc as int,
                ne as int,
                middle_start as int,
                nb as int,
                c,
                k,
            ) implies init[c]@.contains(k as usize) by {
            if c == center && nb > middle_start {
                assert(middle_start <= k < nb);
                assert(init[c]@.contains(k as usize));
            } else {
                assert(category_member(all_blocks@, size as int, nc as int, ne as int, middle_start as int, c, k));
                assert(built[c]@.contains(k as usize));
                assert(init[c] == built[c]);
            }
        }
        assert forall|d: int, a: int, b: int|
            0 <= d < 4 && 0 <= a < nb && 0 <= b < nb implies #[trigger] compat@[d]@[a * nb + b] == spec_blocks_fit(
                Some(all_blocks@[a].tiles@),
                dir_of_row(d),
                Some(all_blocks@[b].tiles@),
            ) by {
            if d == 0 {
            } else if d == 1 {
            } else if d == 2 {
            } else {
            }
        }
        assert(nc == pool_blocks(files@, 0).len());
        assert(ne == pool_blocks(files@, 1).len());
        assert(middle_start == nc + ne + pool_blocks(files@, 2).len());
        assert forall|g: Seq<Seq<TileType>>| #[trigger] valid_layout(files@, size as int, g) implies is_solution(
            layout_indices(files@, size as int, g, nc as int, ne as int, middle_start as int),
            init,
            compat@,
            nb as int,
            size as int,
        ) by {
            lemma_layout_solution(
                files@,
                size as int,
                g,
                all_blocks@,
                compat@,
                nc as int,
                ne as int,
                middle_start as int,
                nb as int,
                init,
            );
        }
    }
    assert forall|c: int, j: int|
        0 <= c < n && 0 <= j < init[c]@.len() implies allowed_index(
        all_blocks@,
        size as int,
        nc as int,
        ne as int,
        middle_start as int,
        nb as int,
        c,
        #[trigger] init[c]@[j] as int,
    ) by {
    }

    let mut any_empty = false;
    let mut c: usize = 0;
    while c < n
        invariant
            c <= n,
            candidates@.len() == n,
            any_empty == exists|c2: int| 0 <= c2 < c && (#[trigger] candidates@[c2])@.len() == 0,
        decreases n - c,
    {
        if candidates[c].len() == 0 {
            any_empty = true;
        }
        c = c + 1;
    }
    if any_empty {
        proof {
            assert forall|g: Seq<Seq<TileType>>| #[trigger] valid_layout(files@, size as int, g) implies false by {
                let sol = layout_indices(files@, size as int, g, nc as int, ne as int, middle_start as int);
                assert(is_solution(sol, init, compat@, nb as int, size as int));
                let c2 = choose|c2: int| 0 <= c2 < n && (#[trigger] candidates@[c2])@.len() == 0;
                assert(init[c2]@.contains(sol[c2]));
            }
        }
        return None;
    }

    let mut seeds: Vec<usize> = Vec::new();
    let mut s: usize = 0;
    while s < n
        invariant
            s <= n,
            n == size * size,
            forall|j: int| 0 <= j < seeds@.len() ==> #[trigger] seeds@[j] < n,
        decreases n - s,
    {
        let x = s % size;
        let y = s / size;
        let on_outer = x == 0 || x == size - 1 || y == 0 || y == size - 1;
        let on_inner = has_inner && x >= inner_lo && x <= inner_hi && y >= inner_lo && y <= inner_hi && (x == inner_lo
            || x == inner_hi || y == inner_lo || y == inner_hi);
        if on_outer || on_inner {
            seeds.push(s);
        }
        s = s + 1;
    }
    if n_middle > 0 {
        seeds.push(center);
    }

    assert(cands_in_range(candidates@, nb as int));
    assert(candidates@ == init);
    match wfc_propagate(&seeds, &mut candidates, size, nb, &compat) {
        Ok(()) => {},
        Err(()) => {
            proof {
                assert forall|g: Seq<Seq<TileType>>| #[trigger] valid_layout(files@, size as int, g) implies false by {
                    let sol = layout_indices(files@, size as int, g, nc as int, ne as int, middle_start as int);
                    assert(is_solution(sol, init, compat@, nb as int, size as int));
                }
            }
            return None;
        },
    }
    let ghost propagated = candidates@;
    proof {
        assert forall|g: Seq<Seq<TileType>>| #[trigger] valid_layout(files@, size as int, g) implies is_solution(
            layout_indices(files@, size as int, g, nc as int, ne as int, middle_start as int),
            propagated,
            compat@,
            nb as int,
            size as int,
        ) by {
            let sol = layout_indices(files@, size as int, g, nc as int, ne as int, middle_start as int);
            assert(is_solution(sol, init, compat@, nb as int, size as int));
        }
    }
    match wfc_solve(size, nb, &compat, candidates, rng) {
        None => {
            proof {
                assert forall|g: Seq<Seq<TileType>>| #[trigger] valid_layout(files@, size as int, g) implies false by {
                    let sol = layout_indices(files@, size as int, g, nc as int, ne as int, middle_start as int);
                    assert(is_solution(sol, propagated, compat@, nb as int, size as int));
                }
            }
            None
        },
        Some(indices) => {
            let mut grid: Vec<Block> = Vec::new();
            let mut i: usize = 0;
            while i < n
                invariant
                    i <= n,
                    n == size * size,
                    is_solution(indices@, propagated, compat@, nb as int, size as int),
                    indices@.len() == n,
                    nb == all_blocks@.len(),
                    forall|c2: int| 0 <= c2 < n ==> #[trigger] indices@[c2] < nb,
                    forall|c2: int| 0 <= c2 < n ==> propagated[c2]@.contains(#[trigger] indices@[c2]),
                    grid@.len() == i,
                    forall|c2: int| 0 <= c2 < i ==> (#[trigger] grid@[c2]).tiles@ == all_blocks@[indices@[c2] as int].tiles@,
                decreases n - i,
            {
                grid.push(all_blocks[indices[i]].clone());
                i = i + 1;
            }
            proof {
                assert forall|i2: int| 0 <= i2 < size * size implies {
                    &&& pool_blocks(files@, cell_pool_kind(files@, size as int, i2)).contains((#[trigger] grid@[i2]).tiles@)
                    &&& cell_pool_kind(files@, size as int, i2) != 3 ==> fits_map_edge(
                        size as int,
                        i2 % size as int,
                        i2 / size as int,
                        grid@[i2].tiles@,
                    )
                } by {
                    let k = indices@[i2] as int;
                    assert(propagated[i2]@.contains(indices@[i2]));
                    let w = choose|w: int| 0 <= w < propagated[i2]@.len() && propagated[i2]@[w] == indices@[i2];
                    assert(init[i2]@.contains(propagated[i2]@[w]));
                    let w2 = choose|w2: int| 0 <= w2 < init[i2]@.len() && init[i2]@[w2] == indices@[i2];
                    assert(allowed_index(
                        all_blocks@,
                        size as int,
                        nc as int,
                        ne as int,
                        middle_start as int,
                        nb as int,
                        i2,
                        init[i2]@[w2] as int,
                    ));
                    assert(grid@[i2].tiles@ == all_tiles[k]);
                    let kind = cell_pool_kind(files@, size as int, i2);
                    let pool = pool_blocks(files@, kind);
                    let wk = if kind == 3 {
                        k - middle_start
                    } else if kind == 0 {
                        k
                    } else if kind == 1 {
                        k - nc
                    } else {
                        k - nc - ne
                    };
                    assert(0 <= wk < pool.len());
                    assert(all_tiles[k] == pool[wk]);
                    assert(grid@[i2].tiles@ == pool[wk]);
                }
                let g = tiles_of(grid@);
                assert forall|c2: int, k: int| 0 <= c2 < size * size && 0 <= k < 4 implies match #[trigger] grid_nbr(
                    size as int,
                    c2,
                    k,
                ) {
                    Some((m, d)) => spec_blocks_fit(Some(g[c2]), dir_of_row(d), Some(g[m])),
                    None => true,
                } by {
                    lemma_nbr_in_range(size as int, c2, k);
                    match grid_nbr(size as int, c2, k) {
                        Some((m, d)) => {
                            assert(consistent(indices@, compat@, nb as int, size as int));
                            assert(compat@[d]@[indices@[c2] * nb + indices@[m]]);
                            assert(compat@[d]@[indices@[c2] * nb + indices@[m]] == spec_blocks_fit(
                                Some(all_blocks@[indices@[c2] as int].tiles@),
                                dir_of_row(d),
                                Some(all_blocks@[indices@[m] as int].tiles@),
                            ));
                            assert(g[c2] == grid@[c2].tiles@);
                            assert(g[m] == grid@[m].tiles@);
                        },
                        None => {},
                    }
                }
                assert(layout_fits(g, size as int));
                assert forall|i2: int| 0 <= i2 < size * size implies {
                    &&& pool_blocks(files@, cell_pool_kind(files@, size as int, i2)).contains(#[trigger] g[i2])
                    &&& cell_pool_kind(files@, size as int, i2) != 3 ==> fits_map_edge(
                        size as int,
                        i2 % size as int,
                        i2 / size as int,
                        g[i2],
                    )
                } by {
                    assert(g[i2] == grid@[i2].tiles@);
                }
            }
            Some(grid)
        },
    }
}

} // verus!
