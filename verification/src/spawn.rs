//! Spawn analysis of a generated map: passable regions and their spawn
//! candidates, structural zones separated by doorways, and where tanks fit.
use vstd::prelude::*;
use crate::geom::Point;
use crate::map::{TileMap, law_idx_pos_of_xy_idx, law_xy_idx_of_idx_pos};
use crate::tile::TileType;
use crate::rng::rng_range_i32;

verus! {

/// Minimum number of tiles for a connected region to be treated as a room
/// rather than a corridor or stub.
pub const MIN_ROOM_SIZE: usize = 16;

// ---------------------------------------------------------------------------
// Tiles and neighbours
// ---------------------------------------------------------------------------

pub open spec fn spec_passable(t: TileType) -> bool {
    t == TileType::Floor || t == TileType::Ground || t == TileType::Road
}

/// Returns true for tile types that entities can stand on.
pub fn tile_passable(tile: TileType) -> (r: bool)
    ensures
        r == spec_passable(tile),
{
    matches!(tile, TileType::Floor | TileType::Ground | TileType::Road)
}

/// Passable for zone analysis: Doorway counts as a wall so it forms zone
/// boundaries.
pub fn zone_passable(tile: TileType) -> (r: bool)
    ensures
        r == spec_passable(tile),
{
    matches!(tile, TileType::Floor | TileType::Ground | TileType::Road)
}

/// Tiles an entity may be placed on.
pub fn is_spawnable(tile: TileType) -> (r: bool)
    ensures
        r == spec_passable(tile),
{
    matches!(tile, TileType::Floor | TileType::Ground | TileType::Road)
}

/// The four cardinal offsets in the order the analysis visits them: north,
/// south, west, east.
pub open spec fn card_delta(k: int) -> (int, int) {
    if k == 0 {
        (0, -1)
    } else if k == 1 {
        (0, 1)
    } else if k == 2 {
        (-1, 0)
    } else {
        (1, 0)
    }
}

/// The opposite cardinal offset.
pub open spec fn card_opposite(k: int) -> int {
    if k == 0 {
        1
    } else if k == 1 {
        0
    } else if k == 2 {
        3
    } else {
        2
    }
}

/// Index of the `k`-th cardinal neighbour of tile `i`, if it lies on the map.
pub open spec fn nbr(m: &TileMap, i: int, k: int) -> Option<int> {
    let w = m.width as int;
    let x = i % w + card_delta(k).0;
    let y = i / w + card_delta(k).1;
    if 0 <= x < w && 0 <= y < m.height {
        Some(y * w + x)
    } else {
        None
    }
}

/// Map whose tiles can be scanned by index, with coordinates that fit in i32.
pub open spec fn scan_map(m: &TileMap) -> bool {
    m.wf() && m.width > 0 && m.height > 0
}

/// Neighbour links are symmetric, and a neighbour is a tile of the map.
pub proof fn lemma_nbr(m: &TileMap, i: int, k: int)
    requires
        scan_map(m),
        0 <= i < m.len(),
        0 <= k < 4,
    ensures
        nbr(m, i, k) matches Some(j) ==> 0 <= j < m.len() && nbr(m, j, card_opposite(k)) == Some(i),
{
    let w = m.width as int;
    assert(i / w < m.height) by (nonlinear_arith)
        requires
            0 <= i < w * m.height,
            w > 0,
    ;
    assert(i == (i / w) * w + i % w && 0 <= i % w < w && 0 <= i / w) by (nonlinear_arith)
        requires
            w > 0,
            i >= 0,
    ;
    if let Some(j) = nbr(m, i, k) {
        let x = i % w + card_delta(k).0;
        let y = i / w + card_delta(k).1;
        assert(0 <= y * w + x < w * m.height) by (nonlinear_arith)
            requires
                0 <= x < w,
                0 <= y < m.height,
        ;
        law_idx_pos_of_xy_idx(m, x, y);
    }
}

/// Index of the `k`-th cardinal neighbour of tile `idx`, if it lies on the map.
fn neighbour(m: &TileMap, idx: usize, k: usize) -> (r: Option<usize>)
    requires
        scan_map(m),
        idx < m.len(),
        k < 4,
    ensures
        r is Some <==> nbr(m, idx as int, k as int) is Some,
        r matches Some(j) ==> nbr(m, idx as int, k as int) == Some(j as int) && j < m.len(),
{
    proof {
        lemma_nbr(m, idx as int, k as int);
        let w = m.width as int;
        assert(idx as int / w < m.height) by (nonlinear_arith)
            requires
                0 <= idx < w * m.height,
                w > 0,
        ;
    }
    let p = m.idx_pos(idx);
    let (dx, dy): (i32, i32) = if k == 0 {
        (0, -1)
    } else if k == 1 {
        (0, 1)
    } else if k == 2 {
        (-1, 0)
    } else {
        (1, 0)
    };
    let nx = p.x + dx;
    let ny = p.y + dy;
    if nx >= 0 && ny >= 0 && nx < m.width as i32 && ny < m.height as i32 {
        proof {
            assert(0 <= ny * m.width + nx < m.len()) by (nonlinear_arith)
                requires
                    0 <= nx < m.width,
                    0 <= ny < m.height,
            ;
        }
        Some(m.xy_idx(nx, ny))
    } else {
        None
    }
}

/// Whether the `k`-th neighbour of tile `i` exists and is passable.
pub open spec fn passable_nbr(m: &TileMap, i: int, k: int) -> bool {
    nbr(m, i, k) matches Some(j) && spec_passable(m.tiles@[j])
}

/// Number of passable cardinal neighbours of tile `i`.
pub open spec fn spec_degree(m: &TileMap, i: int) -> int {
    (if passable_nbr(m, i, 0) { 1int } else { 0int }) + (if passable_nbr(m, i, 1) { 1int } else { 0int }) + (
    if passable_nbr(m, i, 2) { 1int } else { 0int }) + (if passable_nbr(m, i, 3) { 1int } else { 0int })
}

/// Count how many of the four cardinal neighbours of `idx` are passable.
pub fn cardinal_passable_count(m: &TileMap, idx: usize) -> (r: u8)
    requires
        scan_map(m),
        idx < m.len(),
    ensures
        r == spec_degree(m, idx as int),
{
    let mut count: u8 = 0;
    let mut k: usize = 0;
    while k < 4
        invariant
            scan_map(m),
            idx < m.len(),
            k <= 4,
            count == (if k > 0 && passable_nbr(m, idx as int, 0) { 1int } else { 0int }) + (if k > 1
                && passable_nbr(m, idx as int, 1) { 1int } else { 0int }) + (if k > 2 && passable_nbr(
                m,
                idx as int,
                2,
            ) { 1int } else { 0int }) + (if k > 3 && passable_nbr(m, idx as int, 3) { 1int } else { 0int }),
        decreases 4 - k,
    {
        match neighbour(m, idx, k) {
            Some(ni) => {
                if tile_passable(m.tiles[ni]) {
                    count = count + 1;
                }
            },
            None => {},
        }
        k = k + 1;
    }
    count
}

// ---------------------------------------------------------------------------
// Flood fill
// ---------------------------------------------------------------------------

/// A sequence of distinct indices below `n` has at most `n` elements.
pub proof fn lemma_distinct_bounded(s: Seq<usize>, n: nat)
    requires
        s.no_duplicates(),
        forall|i: int| 0 <= i < s.len() ==> s[i] < n,
    ensures
        s.len() <= n,
    decreases n,
{
    if n == 0 {
        if s.len() > 0 {
            assert(s[0] < 0);
        }
    } else {
        let top = (n - 1) as usize;
        if s.contains(top) {
            let k = choose|k: int| 0 <= k < s.len() && s[k] == top;
            let t = s.remove(k);
            assert forall|i: int| 0 <= i < t.len() implies t[i] < n - 1 by {
                if i < k {
                    assert(t[i] == s[i]);
                } else {
                    assert(t[i] == s[i + 1]);
                }
            }
            assert(t.no_duplicates()) by {
                assert forall|i: int, j: int| 0 <= i < t.len() && 0 <= j < t.len() && i != j implies t[i]
                    != t[j] by {
                    let si = if i < k { i } else { i + 1 };
                    let sj = if j < k { j } else { j + 1 };
                    assert(t[i] == s[si] && t[j] == s[sj]);
                }
            }
            lemma_distinct_bounded(t, (n - 1) as nat);
        } else {
            assert forall|i: int| 0 <= i < s.len() implies s[i] < n - 1 by {
                if s[i] == top {
                    assert(s.contains(top));
                }
            }
            lemma_distinct_bounded(s, (n - 1) as nat);
        }
    }
}

/// Every tile after the first has an earlier cardinal neighbour in the
/// sequence: the tiles grow from the first one as a tree.
pub open spec fn grown_from_first(m: &TileMap, tiles: Seq<usize>) -> bool {
    forall|q: int| 1 <= q < tiles.len() ==> #[trigger] has_parent(m, tiles, q)
}

/// Tile `q` of the sequence is a cardinal neighbour of an earlier one.
pub open spec fn has_parent(m: &TileMap, tiles: Seq<usize>, q: int) -> bool {
    exists|p: int, k: int| 0 <= p < q && 0 <= k < 4 && #[trigger] nbr(m, tiles[p] as int, k) == Some(tiles[q] as int)
}

/// All of `tiles` are distinct passable tiles of the map.
pub open spec fn passable_set(m: &TileMap, tiles: Seq<usize>) -> bool {
    &&& tiles.no_duplicates()
    &&& forall|q: int| 0 <= q < tiles.len() ==> (#[trigger] tiles[q]) < m.len() && spec_passable(m.tiles@[tiles[q] as int])
}

/// Labels changed by a fill: exactly `tiles` got label `label`, which no tile
/// had before; every other label stayed.
pub open spec fn labelled_exactly(old: Seq<Option<usize>>, new: Seq<Option<usize>>, tiles: Seq<usize>, label: usize) -> bool {
    &&& new.len() == old.len()
    &&& forall|i: int| 0 <= i < new.len() ==> (#[trigger] new[i] == Some(label) <==> tiles.contains(i as usize))
    &&& forall|i: int| 0 <= i < new.len() && !tiles.contains(i as usize) ==> #[trigger] new[i] == old[i]
    &&& forall|q: int| 0 <= q < tiles.len() ==> old[#[trigger] tiles[q] as int] is None
}

/// Flood-fills the passable tiles 4-connected to `start` that have no label
/// yet, giving them `label`; returns them in breadth-first order.
fn flood_fill(m: &TileMap, start: usize, label: usize, labels: &mut Vec<Option<usize>>) -> (tiles: Vec<usize>)
    requires
        scan_map(m),
        old(labels)@.len() == m.len(),
        start < m.len(),
        spec_passable(m.tiles@[start as int]),
        old(labels)@[start as int] is None,
        forall|i: int| 0 <= i < m.len() ==> #[trigger] old(labels)@[i] != Some(label),
    ensures
        tiles@.len() >= 1,
        tiles@[0] == start,
        passable_set(m, tiles@),
        grown_from_first(m, tiles@),
        labelled_exactly(old(labels)@, final(labels)@, tiles@, label),
        forall|q: int, k: int|
            0 <= q < tiles@.len() && 0 <= k < 4 && #[trigger] passable_nbr(m, tiles@[q] as int, k) ==> (tiles@.contains(
                nbr(m, tiles@[q] as int, k)->0 as usize,
            ) || old(labels)@[nbr(m, tiles@[q] as int, k)->0] is Some),
{
    let ghost old_labels = labels@;
    let mut queue: Vec<usize> = Vec::new();
    queue.push(start);
    labels.set(start, Some(label));
    let mut qi: usize = 0;
    proof {
        assert(labelled_exactly(old_labels, labels@, queue@, label)) by {
            assert forall|i: int| 0 <= i < labels@.len() implies (#[trigger] labels@[i] == Some(label) <==> queue@.contains(i as usize)) by {
                if i == start as int {
                    assert(queue@[0] == start);
                }
            }
        }
    }
    while qi < queue.len()
        invariant
            scan_map(m),
            old_labels.len() == m.len(),
            labels@.len() == m.len(),
            1 <= queue@.len() <= m.len(),
            queue@[0] == start,
            qi <= queue@.len(),
            passable_set(m, queue@),
            grown_from_first(m, queue@),
            labelled_exactly(old_labels, labels@, queue@, label),
            forall|q: int, k: int|
                0 <= q < qi && 0 <= k < 4 && #[trigger] passable_nbr(m, queue@[q] as int, k) ==> labels@[nbr(m, queue@[q] as int, k)->0] is Some,
        decreases m.len() - qi,
    {
        let current = queue[qi];
        let ghost cq = qi as int;
        qi = qi + 1;
        let mut k: usize = 0;
        while k < 4
            invariant
                scan_map(m),
                old_labels.len() == m.len(),
                labels@.len() == m.len(),
                1 <= queue@.len() <= m.len(),
                queue@[0] == start,
                0 <= cq < qi <= queue@.len(),
                queue@[cq] == current,
                current < m.len(),
                k <= 4,
                passable_set(m, queue@),
                grown_from_first(m, queue@),
                labelled_exactly(old_labels, labels@, queue@, label),
                forall|q: int, j: int|
                    0 <= q < cq && 0 <= j < 4 && #[trigger] passable_nbr(m, queue@[q] as int, j) ==> labels@[nbr(m, queue@[q] as int, j)->0] is Some,
                forall|j: int|
                    0 <= j < k && #[trigger] passable_nbr(m, current as int, j) ==> labels@[nbr(m, current as int, j)->0] is Some,
            decreases 4 - k,
        {
            match neighbour(m, current, k) {
                Some(ni) => {
                    if labels[ni].is_none() && zone_passable(m.tiles[ni]) {
                        let ghost before = queue@;
                        let ghost lbefore = labels@;
                        labels.set(ni, Some(label));
                        queue.push(ni);
                        proof {
                            assert(queue@ == before.push(ni));
                            assert forall|a: int, b: int| 0 <= a < queue@.len() && 0 <= b < queue@.len() && a != b implies queue@[a] != queue@[b] by {
                                if a == before.len() as int && b < before.len() {
                                    assert(lbefore[before[b] as int] == Some(label));
                                }
                                if b == before.len() as int && a < before.len() {
                                    assert(lbefore[before[a] as int] == Some(label));
                                }
                            }
                            assert(nbr(m, queue@[cq] as int, k as int) == Some(queue@[before.len() as int] as int));
                            lemma_distinct_bounded(queue@, m.len() as nat);
                            assert forall|q: int, j: int|
                                0 <= q < cq && 0 <= j < 4 && #[trigger] passable_nbr(m, queue@[q] as int, j) implies labels@[nbr(m, queue@[q] as int, j)->0] is Some by {
                                assert(queue@[q] == before[q]);
                                lemma_nbr(m, before[q] as int, j);
                                assert(lbefore[nbr(m, before[q] as int, j)->0] is Some);
                            }
                            assert forall|j: int|
                                0 <= j < k && #[trigger] passable_nbr(m, current as int, j) implies labels@[nbr(m, current as int, j)->0] is Some by {
                                lemma_nbr(m, current as int, j);
                                assert(lbefore[nbr(m, current as int, j)->0] is Some);
                            }
                            assert forall|q: int| 1 <= q < queue@.len() implies #[trigger] has_parent(m, queue@, q) by {
                                if q < before.len() {
                                    assert(queue@[q] == before[q]);
                                    assert(has_parent(m, before, q));
                                    let (p, j) = choose|p: int, j: int| 0 <= p < q && 0 <= j < 4 && #[trigger] nbr(m, before[p] as int, j) == Some(before[q] as int);
                                    assert(queue@[p] == before[p]);
                                    assert(nbr(m, queue@[p] as int, j) == Some(queue@[q] as int));
                                } else {
                                    assert(nbr(m, queue@[cq] as int, k as int) == Some(queue@[q] as int));
                                    assert(0 <= cq < q);
                                }
                            }
                            assert forall|i: int| 0 <= i < labels@.len() implies (#[trigger] labels@[i] == Some(label) <==> queue@.contains(i as usize)) by {
                                if i == ni as int {
                                    assert(queue@[before.len() as int] == ni);
                                } else {
                                    if queue@.contains(i as usize) {
                                        let q = choose|q: int| 0 <= q < queue@.len() && queue@[q] == i as usize;
                                        assert(q < before.len());
                                        assert(before.contains(i as usize));
                                    }
                                    if before.contains(i as usize) {
                                        let q = choose|q: int| 0 <= q < before.len() && before[q] == i as usize;
                                        assert(queue@[q] == i as usize);
                                    }
                                }
                            }
                            assert forall|i: int| 0 <= i < labels@.len() && !queue@.contains(i as usize) implies #[trigger] labels@[i] == old_labels[i] by {
                                if i != ni as int {
                                    if before.contains(i as usize) {
                                        let q = choose|q: int| 0 <= q < before.len() && before[q] == i as usize;
                                        assert(queue@[q] == i as usize);
                                    }
                                } else {
                                    assert(queue@[before.len() as int] == ni);
                                }
                            }
                            assert forall|q: int| 0 <= q < queue@.len() implies old_labels[#[trigger] queue@[q] as int] is None by {
                                if q < before.len() {
                                    assert(queue@[q] == before[q]);
                                } else {
                                    assert(!before.contains(ni)) by {
                                        if before.contains(ni) {
                                            let p = choose|p: int| 0 <= p < before.len() && before[p] == ni;
                                            assert(lbefore[before[p] as int] == Some(label));
                                        }
                                    }
                                    assert(lbefore[ni as int] == old_labels[ni as int]);
                                }
                            }
                        }
                    }
                },
                None => {},
            }
            k = k + 1;
        }
    }
    proof {
        assert forall|q: int, k: int|
            0 <= q < queue@.len() && 0 <= k < 4 && #[trigger] passable_nbr(m, queue@[q] as int, k) implies (queue@.contains(
                nbr(m, queue@[q] as int, k)->0 as usize,
            ) || old_labels[nbr(m, queue@[q] as int, k)->0] is Some) by {
            lemma_nbr(m, queue@[q] as int, k);
            let j = nbr(m, queue@[q] as int, k)->0;
            if labels@[j] == Some(label) {
                assert(queue@.contains(j as usize));
            } else if !queue@.contains(j as usize) {
                assert(labels@[j] == old_labels[j]);
            }
        }
    }
    queue
}


// ---------------------------------------------------------------------------
// Regions
// ---------------------------------------------------------------------------

/// A contiguous group of passable tiles (4-connected).
#[derive(Clone, Debug)]
pub struct Region {
    /// All tile indices that belong to this region.
    pub tiles: Vec<usize>,
    /// Index of the tile closest to the centroid of the region.
    pub center_idx: usize,
    /// True when the region is large enough to be treated as a room and is indoors.
    pub is_room: bool,
}

/// Sum of the columns (`axis` 0) or rows (`axis` 1) of `tiles`.
pub open spec fn coord_sum(m: &TileMap, tiles: Seq<usize>, axis: int) -> int
    decreases tiles.len(),
{
    if tiles.len() == 0 {
        0
    } else {
        coord_sum(m, tiles.drop_last(), axis) + (if axis == 0 {
            tiles.last() as int % (m.width as int)
        } else {
            tiles.last() as int / (m.width as int)
        })
    }
}

/// Manhattan distance from tile `t` to (cx, cy).
pub open spec fn manhattan_to(m: &TileMap, t: int, cx: int, cy: int) -> int {
    crate::map::abs_i(t % (m.width as int) - cx) + crate::map::abs_i(t / (m.width as int) - cy)
}

/// The tile of a region nearest (Manhattan) to the integer centroid of its
/// tiles; the first such tile in the region's order.
pub open spec fn is_center(m: &TileMap, tiles: Seq<usize>, c: usize) -> bool {
    let cx = coord_sum(m, tiles, 0) / (tiles.len() as int);
    let cy = coord_sum(m, tiles, 1) / (tiles.len() as int);
    exists|q: int|
        0 <= q < tiles.len() && tiles[q] == c && (forall|p: int|
            0 <= p < tiles.len() ==> manhattan_to(m, tiles[p] as int, cx, cy) >= manhattan_to(m, c as int, cx, cy)
                && (p < q ==> manhattan_to(m, tiles[p] as int, cx, cy) > manhattan_to(m, c as int, cx, cy)))
}

/// Map small enough that sums of coordinates over all its tiles fit in i32.
pub open spec fn sums_fit(m: &TileMap) -> bool {
    m.len() * m.width <= i32::MAX && m.len() * m.height <= i32::MAX && m.width + m.height <= i32::MAX
}

proof fn lemma_coord_bounds(m: &TileMap, t: int)
    requires
        scan_map(m),
        0 <= t < m.len(),
    ensures
        0 <= t % (m.width as int) < m.width,
        0 <= t / (m.width as int) < m.height,
{
    let w = m.width as int;
    assert(0 <= t % w < w && 0 <= t / w < m.height) by (nonlinear_arith)
        requires
            w > 0,
            0 <= t < w * m.height,
    ;
}

/// The tile of `tiles` nearest (Manhattan) to their integer centroid, the
/// first one on a tie.
fn region_center(m: &TileMap, tiles: &Vec<usize>) -> (c: usize)
    requires
        scan_map(m),
        sums_fit(m),
        1 <= tiles@.len() <= m.len(),
        forall|q: int| 0 <= q < tiles@.len() ==> #[trigger] tiles@[q] < m.len(),
    ensures
        is_center(m, tiles@, c),
{
    let ghost w = m.width as int;
    let mut sx: i32 = 0;
    let mut sy: i32 = 0;
    let mut i: usize = 0;
    while i < tiles.len()
        invariant
            scan_map(m),
            sums_fit(m),
            1 <= tiles@.len() <= m.len(),
            forall|q: int| 0 <= q < tiles@.len() ==> #[trigger] tiles@[q] < m.len(),
            i <= tiles@.len(),
            sx == coord_sum(m, tiles@.take(i as int), 0),
            sy == coord_sum(m, tiles@.take(i as int), 1),
            0 <= sx <= i * (m.width - 1),
            0 <= sy <= i * (m.height - 1),
        decreases tiles@.len() - i,
    {
        let t = tiles[i];
        proof {
            lemma_coord_bounds(m, t as int);
            assert(tiles@.take(i + 1).drop_last() =~= tiles@.take(i as int));
            assert((i + 1) * (m.width - 1) == i * (m.width - 1) + m.width - 1) by (nonlinear_arith);
            assert((i + 1) * (m.height - 1) == i * (m.height - 1) + m.height - 1) by (nonlinear_arith);
            assert((i + 1) * (m.width - 1) <= m.len() * m.width) by (nonlinear_arith)
                requires
                    i + 1 <= m.len(),
                    m.width >= 1,
            ;
            assert((i + 1) * (m.height - 1) <= m.len() * m.height) by (nonlinear_arith)
                requires
                    i + 1 <= m.len(),
                    m.height >= 1,
            ;
        }
        let p = m.idx_pos(t);
        sx = sx + p.x;
        sy = sy + p.y;
        i = i + 1;
    }
    assert(tiles@.take(tiles@.len() as int) =~= tiles@);
    assert(m.len() <= m.len() * m.width) by (nonlinear_arith)
        requires
            m.width >= 1,
            m.len() >= 0,
    ;
    let ghost gl = tiles@.len() as int;
    let ghost gsx = sx as int;
    let ghost gsy = sy as int;
    assert(0 <= gsx / gl <= m.width - 1 && 0 <= gsy / gl <= m.height - 1) by (nonlinear_arith)
        requires
            gl >= 1,
            0 <= gsx <= gl * (m.width - 1),
            0 <= gsy <= gl * (m.height - 1),
    ;
    let len = tiles.len() as i32;
    let cx = sx / len;
    let cy = sy / len;
    let ghost gx = cx as int;
    let ghost gy = cy as int;
    assert(gx == coord_sum(m, tiles@, 0) / (tiles@.len() as int));
    assert(gy == coord_sum(m, tiles@, 1) / (tiles@.len() as int));
    let mut best: usize = tiles[0];
    let ghost mut bq: int = 0;
    let mut best_d: i32 = {
        proof {
            lemma_coord_bounds(m, tiles@[0] as int);
        }
        let p = m.idx_pos(tiles[0]);
        let ddx = if p.x >= cx { p.x - cx } else { cx - p.x };
        let ddy = if p.y >= cy { p.y - cy } else { cy - p.y };
        ddx + ddy
    };
    let mut j: usize = 1;
    while j < tiles.len()
        invariant
            scan_map(m),
            sums_fit(m),
            1 <= tiles@.len() <= m.len(),
            forall|q: int| 0 <= q < tiles@.len() ==> #[trigger] tiles@[q] < m.len(),
            1 <= j <= tiles@.len(),
            0 <= cx < m.width,
            0 <= cy < m.height,
            gx == cx,
            gy == cy,
            0 <= bq < j,
            tiles@[bq] == best,
            best_d == manhattan_to(m, best as int, gx, gy),
            forall|p: int|
                0 <= p < j ==> manhattan_to(m, #[trigger] tiles@[p] as int, gx, gy) >= best_d && (p < bq
                    ==> manhattan_to(m, tiles@[p] as int, gx, gy) > best_d),
        decreases tiles@.len() - j,
    {
        proof {
            lemma_coord_bounds(m, tiles@[j as int] as int);
        }
        let p = m.idx_pos(tiles[j]);
        let ddx = if p.x >= cx { p.x - cx } else { cx - p.x };
        let ddy = if p.y >= cy { p.y - cy } else { cy - p.y };
        let d = ddx + ddy;
        if d < best_d {
            best = tiles[j];
            best_d = d;
            proof {
                bq = j as int;
            }
        }
        j = j + 1;
    }
    best
}

/// One component: distinct passable tiles grown from the first, which is the
/// smallest.
pub open spec fn component_ok(m: &TileMap, t: Seq<usize>) -> bool {
    &&& t.len() >= 1
    &&& passable_set(m, t)
    &&& grown_from_first(m, t)
    &&& forall|q: int| 0 <= q < t.len() ==> #[trigger] t[q] >= t[0]
}

/// The 4-connected components of the passable tiles: each is a set of
/// distinct passable tiles grown from its first tile, which is its smallest;
/// no passable tile next to a component lies outside it; components are
/// disjoint, cover every passable tile, and come in the order of their first
/// tiles.
pub open spec fn components_of(m: &TileMap, cs: Seq<Seq<usize>>) -> bool {
    &&& forall|r: int| 0 <= r < cs.len() ==> #[trigger] component_ok(m, cs[r])
    &&& forall|r: int, q: int, k: int|
        0 <= r < cs.len() && 0 <= q < cs[r].len() && 0 <= k < 4 && #[trigger] passable_nbr(m, cs[r][q] as int, k)
            ==> cs[r].contains(nbr(m, cs[r][q] as int, k)->0 as usize)
    &&& forall|r1: int, r2: int, q1: int, q2: int|
        0 <= r1 < cs.len() && 0 <= r2 < cs.len() && r1 != r2 && 0 <= q1 < cs[r1].len() && 0 <= q2 < cs[r2].len()
            ==> #[trigger] cs[r1][q1] != #[trigger] cs[r2][q2]
    &&& forall|i: int|
        0 <= i < m.len() && spec_passable(#[trigger] m.tiles@[i]) ==> exists|r: int|
            0 <= r < cs.len() && #[trigger] cs[r].contains(i as usize)
    &&& forall|r1: int, r2: int| 0 <= r1 < r2 < cs.len() ==> #[trigger] cs[r1][0] < #[trigger] cs[r2][0]
}

/// Labels of the tiles match the components: a tile is labelled with the
/// component holding it, and only such tiles are labelled.
pub open spec fn labels_match(m: &TileMap, cs: Seq<Seq<usize>>, labels: Seq<Option<usize>>) -> bool {
    &&& labels.len() == m.len()
    &&& forall|i: int|
        0 <= i < m.len() ==> (#[trigger] labels[i] matches Some(r) ==> r < cs.len() && cs[r as int].contains(
            i as usize,
        ))
    &&& forall|r: int, q: int|
        0 <= r < cs.len() && 0 <= q < cs[r].len() ==> labels[#[trigger] cs[r][q] as int] == Some(r as usize)
}

/// Flood-fill all passable tiles into 4-connected components, scanning for
/// unlabelled starts in index order; also returns each tile's component.
fn find_components(m: &TileMap) -> (r: (Vec<Vec<usize>>, Vec<Option<usize>>))
    requires
        scan_map(m),
    ensures
        components_of(m, views(r.0@)),
        labels_match(m, views(r.0@), r.1@),
{
    let n = m.width * m.height;
    let mut labels: Vec<Option<usize>> = Vec::new();
    let mut i: usize = 0;
    while i < n
        invariant
            n == m.len(),
            i <= n,
            labels@ == Seq::new(i as nat, |k: int| None::<usize>),
        decreases n - i,
    {
        labels.push(None);
        i = i + 1;
        assert(labels@ =~= Seq::new(i as nat, |k: int| None::<usize>));
    }
    let mut comps: Vec<Vec<usize>> = Vec::new();
    let mut start: usize = 0;
    while start < n
        invariant
            scan_map(m),
            n == m.len(),
            start <= n,
            labels_match(m, views(comps@), labels@),
            comps@.len() <= start,
            forall|r: int| 0 <= r < comps@.len() ==> #[trigger] component_ok(m, comps@[r]@),
            forall|r: int| 0 <= r < comps@.len() ==> #[trigger] comps@[r]@[0] < start,
            forall|r: int, q: int, k: int|
                0 <= r < comps@.len() && 0 <= q < comps@[r]@.len() && 0 <= k < 4 && #[trigger] passable_nbr(
                    m,
                    comps@[r]@[q] as int,
                    k,
                ) ==> comps@[r]@.contains(nbr(m, comps@[r]@[q] as int, k)->0 as usize),
            forall|i: int| 0 <= i < start && spec_passable(#[trigger] m.tiles@[i]) ==> labels@[i] is Some,
            forall|r1: int, r2: int|
                0 <= r1 < r2 < comps@.len() ==> #[trigger] comps@[r1]@[0] < #[trigger] comps@[r2]@[0],
        decreases n - start,
    {
        if labels[start].is_some() || !zone_passable(m.tiles[start]) {
            start = start + 1;
            continue;
        }
        let label = comps.len();
        let ghost old_labels = labels@;
        let ghost old_comps = comps@;
        proof {
            assert forall|i: int| 0 <= i < m.len() implies #[trigger] old_labels[i] != Some(label) by {
                if old_labels[i] == Some(label) {
                    assert(label < comps@.len());
                }
            }
        }
        let tiles = flood_fill(m, start, label, &mut labels);
        proof {
            assert forall|q: int| 0 <= q < tiles@.len() implies #[trigger] tiles@[q] >= start by {
                if tiles@[q] < start {
                    assert(spec_passable(m.tiles@[tiles@[q] as int]));
                }
            }
        }
        comps.push(tiles);
        proof {
            assert(comps@[label as int]@ == tiles@);
            assert forall|r: int| 0 <= r < comps@.len() implies #[trigger] component_ok(m, comps@[r]@) by {
                if r < label {
                    assert(comps@[r] == old_comps[r]);
                }
            }
            // closure of the new component: a labelled neighbour would put one
            // of its tiles in an earlier component
            assert forall|r: int, q: int, k: int|
                0 <= r < comps@.len() && 0 <= q < comps@[r]@.len() && 0 <= k < 4 && #[trigger] passable_nbr(
                    m,
                    comps@[r]@[q] as int,
                    k,
                ) implies comps@[r]@.contains(nbr(m, comps@[r]@[q] as int, k)->0 as usize) by {
                if r < label {
                    assert(comps@[r] == old_comps[r]);
                } else {
                    let t = tiles@[q];
                    lemma_nbr(m, t as int, k);
                    let j = nbr(m, t as int, k)->0;
                    if !tiles@.contains(j as usize) {
                        assert(old_labels[j] is Some);
                        let r2 = old_labels[j]->0 as int;
                        assert(old_comps[r2]@.contains(j as usize));
                        let q2 = choose|q2: int| 0 <= q2 < old_comps[r2]@.len() && old_comps[r2]@[q2] == j as usize;
                        let kk = card_opposite(k);
                        assert(nbr(m, j, kk) == Some(t as int));
                        assert(passable_nbr(m, old_comps[r2]@[q2] as int, kk));
                        assert(comps@[r2] == old_comps[r2]);
                        assert(old_comps[r2]@.contains(t));
                        let q3 = choose|q3: int| 0 <= q3 < old_comps[r2]@.len() && old_comps[r2]@[q3] == t;
                        assert(old_labels[old_comps[r2]@[q3] as int] == Some(r2 as usize));
                    }
                }
            }
            assert forall|i: int| 0 <= i < m.len() implies (#[trigger] labels@[i] matches Some(r) ==> r < comps@.len()
                && comps@[r as int]@.contains(i as usize)) by {
                if labels@[i] == Some(label) {
                    assert(tiles@.contains(i as usize));
                } else if labels@[i] is Some {
                    if tiles@.contains(i as usize) {
                        assert(labels@[i] == Some(label));
                    }
                    assert(labels@[i] == old_labels[i]);
                    let r = old_labels[i]->0 as int;
                    assert(comps@[r] == old_comps[r]);
                }
            }
            assert forall|r: int, q: int| 0 <= r < comps@.len() && 0 <= q < comps@[r]@.len() implies labels@[#[trigger] comps@[r]@[q] as int] == Some(r as usize) by {
                if r < label {
                    assert(comps@[r] == old_comps[r]);
                    assert(component_ok(m, old_comps[r]@));
                    let t = old_comps[r]@[q];
                    assert(views(old_comps)[r] == old_comps[r]@);
                    assert(old_labels[views(old_comps)[r][q] as int] == Some(r as usize));
                    assert(old_labels[t as int] == Some(r as usize));
                    if tiles@.contains(t) {
                        let q2 = choose|q2: int| 0 <= q2 < tiles@.len() && tiles@[q2] == t;
                        assert(old_labels[tiles@[q2] as int] is None);
                    }
                } else {
                    assert(tiles@.contains(tiles@[q]));
                    assert(tiles@[q] < m.len());
                }
            }
            assert forall|i: int| 0 <= i < start + 1 && spec_passable(#[trigger] m.tiles@[i]) implies labels@[i] is Some by {
                if i == start as int {
                    assert(tiles@[0] == start);
                    assert(tiles@.contains(start));
                } else if !tiles@.contains(i as usize) {
                    assert(labels@[i] == old_labels[i]);
                }
            }
        }
        start = start + 1;
    }
    proof {
        let cs = views(comps@);
        assert forall|r: int| 0 <= r < cs.len() implies #[trigger] component_ok(m, cs[r]) by {
            assert(cs[r] == comps@[r]@);
        }
        assert forall|r: int, q: int, k: int|
            0 <= r < cs.len() && 0 <= q < cs[r].len() && 0 <= k < 4 && #[trigger] passable_nbr(m, cs[r][q] as int, k)
                implies cs[r].contains(nbr(m, cs[r][q] as int, k)->0 as usize) by {
            assert(cs[r] == comps@[r]@);
        }
        assert forall|r1: int, r2: int, q1: int, q2: int|
            0 <= r1 < cs.len() && 0 <= r2 < cs.len() && r1 != r2 && 0 <= q1 < cs[r1].len() && 0 <= q2 < cs[r2].len()
                implies #[trigger] cs[r1][q1] != #[trigger] cs[r2][q2] by {
            assert(labels@[cs[r1][q1] as int] == Some(r1 as usize));
            assert(labels@[cs[r2][q2] as int] == Some(r2 as usize));
        }
        assert forall|i: int| 0 <= i < m.len() && spec_passable(#[trigger] m.tiles@[i]) implies exists|r: int|
            0 <= r < cs.len() && #[trigger] cs[r].contains(i as usize) by {
            assert(labels@[i] is Some);
            let r = labels@[i]->0 as int;
            assert(cs[r].contains(i as usize));
        }
        assert forall|r1: int, r2: int| 0 <= r1 < r2 < cs.len() implies #[trigger] cs[r1][0] < #[trigger] cs[r2][0] by {
            assert(cs[r1] == comps@[r1]@ && cs[r2] == comps@[r2]@);
        }
    }
    (comps, labels)
}

/// The views of a sequence of vectors.
pub open spec fn views(cs: Seq<Vec<usize>>) -> Seq<Seq<usize>> {
    Seq::new(cs.len(), |r: int| cs[r]@)
}

/// The tile sequences of regions.
pub open spec fn region_tiles(rs: Seq<Region>) -> Seq<Seq<usize>> {
    Seq::new(rs.len(), |r: int| rs[r].tiles@)
}

/// The regions are the 4-connected components of the passable tiles (see
/// [`components_of`]), each with its centre as [`is_center`] says and marked a
/// room when it has at least [`MIN_ROOM_SIZE`] tiles and its first tile is
/// Floor.
pub open spec fn regions_of(m: &TileMap, rs: Seq<Region>) -> bool {
    &&& components_of(m, region_tiles(rs))
    &&& forall|r: int| 0 <= r < rs.len() ==> #[trigger] region_extras_ok(m, rs[r])
}

pub open spec fn region_extras_ok(m: &TileMap, r: Region) -> bool {
    &&& is_center(m, r.tiles@, r.center_idx)
    &&& r.is_room == (r.tiles@.len() >= MIN_ROOM_SIZE && m.tiles@[r.tiles@[0] as int] == TileType::Floor)
}

/// Flood-fill all passable tiles into regions; also returns each tile's region.
fn find_labelled_regions(m: &TileMap) -> (r: (Vec<Region>, Vec<Option<usize>>))
    requires
        scan_map(m),
        sums_fit(m),
    ensures
        regions_of(m, r.0@),
        labels_match(m, region_tiles(r.0@), r.1@),
{
    let (comps, labels) = find_components(m);
    let mut regions: Vec<Region> = Vec::new();
    let mut i: usize = 0;
    while i < comps.len()
        invariant
            scan_map(m),
            sums_fit(m),
            components_of(m, views(comps@)),
            i <= comps@.len(),
            regions@.len() == i,
            forall|r: int| 0 <= r < i ==> (#[trigger] regions@[r]).tiles@ == comps@[r]@,
            forall|r: int| 0 <= r < i ==> #[trigger] region_extras_ok(m, regions@[r]),
        decreases comps@.len() - i,
    {
        let tiles = comps[i].clone();
        proof {
            assert(views(comps@)[i as int] == comps@[i as int]@);
            assert(component_ok(m, comps@[i as int]@));
            assert(tiles@ =~= comps@[i as int]@);
            lemma_distinct_bounded(tiles@, m.len() as nat);
        }
        let center_idx = region_center(m, &tiles);
        let is_room = tiles.len() >= MIN_ROOM_SIZE && m.tiles[tiles[0]] == TileType::Floor;
        regions.push(Region { tiles, center_idx, is_room });
        i = i + 1;
    }
    assert(region_tiles(regions@) =~= views(comps@));
    (regions, labels)
}

/// Flood-fill all passable tiles into 4-connected regions.
pub fn find_regions(m: &TileMap) -> (r: Vec<Region>)
    requires
        scan_map(m),
        sums_fit(m),
    ensures
        regions_of(m, r@),
{
    let (regions, _labels) = find_labelled_regions(m);
    regions
}

// ---------------------------------------------------------------------------
// Spawn points
// ---------------------------------------------------------------------------

/// Semantic classification of a spawn candidate.
#[derive(Clone, Copy, PartialEq, Eq, Structural, Debug)]
pub enum SpawnCategory {
    /// Exactly one passable cardinal neighbour: the end of a passage.
    /// Good for item placement and ambush positions.
    DeadEnd,
    /// Three or more passable cardinal neighbours, outside rooms: a corridor
    /// crossing or T-junction. Good for stationary guards.
    Junction,
    /// All four cardinal neighbours are passable and the tile is inside a
    /// room. Good for roaming AI or scattered items.
    RoomInterior,
}

/// A single candidate position for placing an entity or item.
#[derive(Clone, Copy, PartialEq, Eq, Structural, Debug)]
pub struct SpawnPoint {
    pub idx: usize,
    pub pos: Point,
    pub category: SpawnCategory,
}

/// Output of the spawn analysis pass.
pub struct SpawnMap {
    pub spawn_points: Vec<SpawnPoint>,
    pub regions: Vec<Region>,
}

/// Whether tile `i` lies in a region that is a room.
pub open spec fn in_room(rs: Seq<Region>, i: int) -> bool {
    exists|r: int| 0 <= r < rs.len() && #[trigger] rs[r].tiles@.contains(i as usize) && rs[r].is_room
}

/// The category of a passable tile with `degree` passable neighbours.
pub open spec fn spec_category(degree: int, room: bool) -> Option<SpawnCategory> {
    if degree == 1 {
        Some(SpawnCategory::DeadEnd)
    } else if (degree == 3 || degree == 4) && !room {
        Some(SpawnCategory::Junction)
    } else if degree == 4 && room {
        Some(SpawnCategory::RoomInterior)
    } else {
        None
    }
}

/// The spawn candidates among tiles `0..k`, in index order.
pub open spec fn spawn_points_upto(m: &TileMap, rs: Seq<Region>, k: int) -> Seq<SpawnPoint>
    decreases k,
{
    if k <= 0 {
        Seq::empty()
    } else {
        let rest = spawn_points_upto(m, rs, k - 1);
        let i = k - 1;
        if spec_passable(m.tiles@[i]) {
            match spec_category(spec_degree(m, i), in_room(rs, i)) {
                Some(c) => rest.push(
                    SpawnPoint {
                        idx: i as usize,
                        pos: Point { x: (i % (m.width as int)) as i32, y: (i / (m.width as int)) as i32 },
                        category: c,
                    },
                ),
                None => rest,
            }
        } else {
            rest
        }
    }
}

fn category_of(degree: u8, room: bool) -> (r: Option<SpawnCategory>)
    ensures
        r == spec_category(degree as int, room),
{
    match degree {
        1 => Some(SpawnCategory::DeadEnd),
        3..=4 if !room => Some(SpawnCategory::Junction),
        4 if room => Some(SpawnCategory::RoomInterior),
        _ => None,
    }
}

/// Analyse the map and return classified spawn candidates and connected
/// regions.
pub fn analyze(m: &TileMap) -> (r: SpawnMap)
    requires
        scan_map(m),
        sums_fit(m),
    ensures
        regions_of(m, r.regions@),
        r.spawn_points@ == spawn_points_upto(m, r.regions@, m.len()),
{
    let (regions, tile_region) = find_labelled_regions(m);
    let n = m.width * m.height;
    let mut spawn_points: Vec<SpawnPoint> = Vec::new();
    let mut idx: usize = 0;
    while idx < n
        invariant
            scan_map(m),
            sums_fit(m),
            n == m.len(),
            idx <= n,
            regions_of(m, regions@),
            labels_match(m, region_tiles(regions@), tile_region@),
            spawn_points@ == spawn_points_upto(m, regions@, idx as int),
        decreases n - idx,
    {
        if !tile_passable(m.tiles[idx]) {
            idx = idx + 1;
            continue;
        }
        let degree = cardinal_passable_count(m, idx);
        let room = match tile_region[idx] {
            Some(ri) => regions[ri].is_room,
            None => false,
        };
        proof {
            let i = idx as int;
            let cs = region_tiles(regions@);
            assert(tile_region@[i] is Some) by {
                let r = choose|r: int| 0 <= r < cs.len() && #[trigger] cs[r].contains(i as usize);
                let q = choose|q: int| 0 <= q < cs[r].len() && cs[r][q] == i as usize;
                assert(tile_region@[cs[r][q] as int] == Some(r as usize));
            }
            let ri = tile_region@[i]->0 as int;
            assert(cs[ri].contains(idx));
            if in_room(regions@, i) {
                let r = choose|r: int| 0 <= r < regions@.len() && #[trigger] regions@[r].tiles@.contains(i as usize) && regions@[r].is_room;
                assert(cs[r] == regions@[r].tiles@);
                let q = choose|q: int| 0 <= q < cs[r].len() && cs[r][q] == i as usize;
                assert(tile_region@[cs[r][q] as int] == Some(r as usize));
            }
            assert(cs[ri] == regions@[ri].tiles@);
            assert(room == in_room(regions@, i));
            assert(i / (m.width as int) < m.height) by (nonlinear_arith)
                requires
                    0 <= i < m.width * m.height,
                    m.width > 0,
            ;
        }
        let category = category_of(degree, room);
        if let Some(category) = category {
            let pos = m.idx_pos(idx);
            spawn_points.push(SpawnPoint { idx, pos, category });
        }
        idx = idx + 1;
    }
    SpawnMap { spawn_points, regions }
}

/// Whether (x, y) lies on the map and its tile is passable.
pub open spec fn passable_at(m: &TileMap, x: int, y: int) -> bool {
    0 <= x < m.width && 0 <= y < m.height && spec_passable(m.tiles@[m.idx_of(x, y)])
}

/// How many of the tiles north, south, west and east of (x, y) are on the
/// map and passable.
pub open spec fn open_sides(m: &TileMap, x: int, y: int) -> int {
    (if passable_at(m, x, y - 1) { 1int } else { 0int }) + (if passable_at(m, x, y + 1) { 1int } else { 0int })
        + (if passable_at(m, x - 1, y) { 1int } else { 0int }) + (if passable_at(m, x + 1, y) { 1int } else { 0int })
}

/// The neighbour count of the analysis is the number of open sides of the
/// tile's position.
proof fn lemma_degree_is_open_sides(m: &TileMap, x: int, y: int)
    requires
        scan_map(m),
        0 <= x < m.width,
        0 <= y < m.height,
    ensures
        spec_degree(m, m.idx_of(x, y)) == open_sides(m, x, y),
{
    law_idx_pos_of_xy_idx(m, x, y);
}

/// Once a passable tile with a category is scanned, its spawn point stays
/// among the candidates.
proof fn lemma_spawn_point_kept(m: &TileMap, rs: Seq<Region>, i: int, k: int)
    requires
        scan_map(m),
        0 <= i < k <= m.len(),
        spec_passable(m.tiles@[i]),
        spec_category(spec_degree(m, i), in_room(rs, i)) is Some,
    ensures
        spawn_points_upto(m, rs, k).contains(
            SpawnPoint {
                idx: i as usize,
                pos: Point { x: (i % (m.width as int)) as i32, y: (i / (m.width as int)) as i32 },
                category: spec_category(spec_degree(m, i), in_room(rs, i))->0,
            },
        ),
    decreases k,
{
    let sp = SpawnPoint {
        idx: i as usize,
        pos: Point { x: (i % (m.width as int)) as i32, y: (i / (m.width as int)) as i32 },
        category: spec_category(spec_degree(m, i), in_room(rs, i))->0,
    };
    let rest = spawn_points_upto(m, rs, k - 1);
    if k - 1 == i {
        assert(spawn_points_upto(m, rs, k) == rest.push(sp));
        assert(rest.push(sp)[rest.len() as int] == sp);
    } else {
        lemma_spawn_point_kept(m, rs, i, k - 1);
        let j = choose|j: int| 0 <= j < rest.len() && rest[j] == sp;
        let cur = spawn_points_upto(m, rs, k);
        if cur != rest {
            let p = cur[rest.len() as int];
            assert(cur == rest.push(p));
            assert(cur[j] == sp);
        }
        assert(cur[j] == sp);
    }
}

/// A passable tile with exactly one open side is the end of a passage: the
/// analysis lists it as a dead-end spawn point at its own position, whatever
/// region it lies in.
pub proof fn law_dead_ends_are_spawn_points(m: &TileMap, rs: Seq<Region>, x: i32, y: i32)
    requires
        scan_map(m),
        0 <= x < m.width,
        0 <= y < m.height,
        spec_passable(m.tiles@[m.idx_of(x as int, y as int)]),
        open_sides(m, x as int, y as int) == 1,
    ensures
        spawn_points_upto(m, rs, m.len()).contains(
            SpawnPoint {
                idx: m.idx_of(x as int, y as int) as usize,
                pos: Point { x, y },
                category: SpawnCategory::DeadEnd,
            },
        ),
{
    let i = m.idx_of(x as int, y as int);
    lemma_degree_is_open_sides(m, x as int, y as int);
    law_idx_pos_of_xy_idx(m, x as int, y as int);
    assert(0 <= i < m.len()) by (nonlinear_arith)
        requires
            i == y * m.width + x,
            0 <= x < m.width,
            0 <= y < m.height,
    ;
    lemma_spawn_point_kept(m, rs, i, m.len());
}

/// A passable tile with at least three open sides outside any room is a
/// junction spawn point, and one open on all four sides inside a room is a
/// room-interior spawn point, each at its own position.
pub proof fn law_junctions_and_room_interiors_are_spawn_points(m: &TileMap, rs: Seq<Region>, x: i32, y: i32)
    requires
        scan_map(m),
        0 <= x < m.width,
        0 <= y < m.height,
        spec_passable(m.tiles@[m.idx_of(x as int, y as int)]),
    ensures
        open_sides(m, x as int, y as int) >= 3 && !in_room(rs, m.idx_of(x as int, y as int)) ==> spawn_points_upto(
            m,
            rs,
            m.len(),
        ).contains(
            SpawnPoint {
                idx: m.idx_of(x as int, y as int) as usize,
                pos: Point { x, y },
                category: SpawnCategory::Junction,
            },
        ),
        open_sides(m, x as int, y as int) == 4 && in_room(rs, m.idx_of(x as int, y as int)) ==> spawn_points_upto(
            m,
            rs,
            m.len(),
        ).contains(
            SpawnPoint {
                idx: m.idx_of(x as int, y as int) as usize,
                pos: Point { x, y },
                category: SpawnCategory::RoomInterior,
            },
        ),
{
    let i = m.idx_of(x as int, y as int);
    lemma_degree_is_open_sides(m, x as int, y as int);
    law_idx_pos_of_xy_idx(m, x as int, y as int);
    assert(0 <= i < m.len()) by (nonlinear_arith)
        requires
            i == y * m.width + x,
            0 <= x < m.width,
            0 <= y < m.height,
    ;
    let sides = open_sides(m, x as int, y as int);
    if (sides >= 3 && !in_room(rs, i)) || (sides == 4 && in_room(rs, i)) {
        lemma_spawn_point_kept(m, rs, i, m.len());
    }
}

/// A spawn point lies on a passable tile of the map at its own position, and
/// its category follows from the tile's open sides: one for a dead end,
/// three or more outside rooms for a junction, four inside a room for a room
/// interior.
pub open spec fn fits_category(m: &TileMap, rs: Seq<Region>, sp: SpawnPoint) -> bool {
    let x = sp.pos.x as int;
    let y = sp.pos.y as int;
    &&& 0 <= x < m.width && 0 <= y < m.height
    &&& sp.idx as int == m.idx_of(x, y)
    &&& spec_passable(m.tiles@[sp.idx as int])
    &&& match sp.category {
        SpawnCategory::DeadEnd => open_sides(m, x, y) == 1,
        SpawnCategory::Junction => open_sides(m, x, y) >= 3 && !in_room(rs, sp.idx as int),
        SpawnCategory::RoomInterior => open_sides(m, x, y) == 4 && in_room(rs, sp.idx as int),
    }
}

/// Every spawn point the analysis lists is a passable tile at its own
/// position whose category its open sides call for; tiles with no or two
/// open sides are never listed.
pub proof fn law_spawn_points_fit_their_category(m: &TileMap, rs: Seq<Region>, k: int)
    requires
        scan_map(m),
        0 <= k <= m.len(),
    ensures
        forall|j: int| 0 <= j < spawn_points_upto(m, rs, k).len() ==> #[trigger] fits_category(
            m,
            rs,
            spawn_points_upto(m, rs, k)[j],
        ),
    decreases k,
{
    if k > 0 {
        law_spawn_points_fit_their_category(m, rs, k - 1);
        let rest = spawn_points_upto(m, rs, k - 1);
        let cur = spawn_points_upto(m, rs, k);
        let i = k - 1;
        let w = m.width as int;
        if cur != rest {
            let x = i % w;
            let y = i / w;
            assert(0 <= x < w && 0 <= y < m.height) by (nonlinear_arith)
                requires
                    w > 0,
                    0 <= i < w * m.height,
                    x == i % w,
                    y == i / w,
            ;
            law_xy_idx_of_idx_pos(m, i);
            lemma_degree_is_open_sides(m, x, y);
            assert(fits_category(m, rs, cur[rest.len() as int]));
            assert forall|j: int| 0 <= j < cur.len() implies #[trigger] fits_category(m, rs, cur[j]) by {
                if j < rest.len() {
                    assert(cur[j] == rest[j]);
                }
            }
        }
    }
}


// ---------------------------------------------------------------------------
// Zones
// ---------------------------------------------------------------------------

/// A set of doorway tiles that fully separates two structural zones.
#[derive(Clone, Debug)]
pub struct ZoneBoundary {
    pub zone_a: usize,
    pub zone_b: usize,
    /// Tile indices of every Doorway tile on this boundary.
    pub door_tiles: Vec<usize>,
}

/// Output of zone analysis.
pub struct ZoneMap {
    /// Tile index to zone index; None for walls, fences and doorway tiles.
    pub tile_zone: Vec<Option<usize>>,
    /// Zone index to all tile indices in that zone.
    pub zones: Vec<Vec<usize>>,
    /// Every boundary between a pair of zones.
    pub boundaries: Vec<ZoneBoundary>,
}

/// The distinct zones of the first `k` cardinal neighbours of tile `i`, in
/// the order met.
pub open spec fn adjacent_zones_upto(m: &TileMap, labels: Seq<Option<usize>>, i: int, k: int) -> Seq<usize>
    decreases k,
{
    if k <= 0 {
        Seq::empty()
    } else {
        let prev = adjacent_zones_upto(m, labels, i, k - 1);
        match nbr(m, i, k - 1) {
            Some(j) => match labels[j] {
                Some(z) => if prev.contains(z) {
                    prev
                } else {
                    prev.push(z)
                },
                None => prev,
            },
            None => prev,
        }
    }
}

/// The pair of zones (smaller first) a doorway tile separates: a Doorway
/// whose cardinal neighbours touch exactly two distinct zones.
pub open spec fn door_key(m: &TileMap, labels: Seq<Option<usize>>, i: int) -> Option<(usize, usize)> {
    let zs = adjacent_zones_upto(m, labels, i, 4);
    if m.tiles@[i] == TileType::Doorway && zs.len() == 2 {
        Some(
            (
                if zs[0] <= zs[1] { zs[0] } else { zs[1] },
                if zs[0] <= zs[1] { zs[1] } else { zs[0] },
            ),
        )
    } else {
        None
    }
}

/// The doorway tiles among `0..k` on the boundary `key`, in index order.
pub open spec fn doors_with_key(m: &TileMap, labels: Seq<Option<usize>>, key: (usize, usize), k: int) -> Seq<usize>
    decreases k,
{
    if k <= 0 {
        Seq::empty()
    } else {
        let prev = doors_with_key(m, labels, key, k - 1);
        if door_key(m, labels, k - 1) == Some(key) {
            prev.push((k - 1) as usize)
        } else {
            prev
        }
    }
}

/// The doorway tiles among `0..k` on some boundary, each with its key, in
/// index order.
pub open spec fn keyed_doors_upto(m: &TileMap, labels: Seq<Option<usize>>, k: int) -> Seq<(usize, usize, usize)>
    decreases k,
{
    if k <= 0 {
        Seq::empty()
    } else {
        let prev = keyed_doors_upto(m, labels, k - 1);
        match door_key(m, labels, k - 1) {
            Some(key) => prev.push((key.0, key.1, (k - 1) as usize)),
            None => prev,
        }
    }
}

/// The tiles of the entries of `pairs` with key `key`, in order.
pub open spec fn tiles_with_key(pairs: Seq<(usize, usize, usize)>, key: (usize, usize)) -> Seq<usize>
    decreases pairs.len(),
{
    if pairs.len() == 0 {
        Seq::empty()
    } else {
        let prev = tiles_with_key(pairs.drop_last(), key);
        if (pairs.last().0, pairs.last().1) == key {
            prev.push(pairs.last().2)
        } else {
            prev
        }
    }
}

proof fn lemma_tiles_with_key(m: &TileMap, labels: Seq<Option<usize>>, key: (usize, usize), k: int)
    requires
        0 <= k,
    ensures
        tiles_with_key(keyed_doors_upto(m, labels, k), key) == doors_with_key(m, labels, key, k),
    decreases k,
{
    if k > 0 {
        lemma_tiles_with_key(m, labels, key, k - 1);
        let prev = keyed_doors_upto(m, labels, k - 1);
        match door_key(m, labels, k - 1) {
            Some(kk) => {
                assert(keyed_doors_upto(m, labels, k).drop_last() =~= prev);
            },
            None => {},
        }
    }
}

/// The boundaries are exactly the doorway groups: one per pair of zones some
/// doorway separates (no pair twice), each listing all doorway tiles that
/// separate that pair, in index order.
pub open spec fn boundaries_of(m: &TileMap, labels: Seq<Option<usize>>, bs: Seq<ZoneBoundary>) -> bool {
    &&& forall|b: int|
        0 <= b < bs.len() ==> (#[trigger] bs[b]).door_tiles@ == doors_with_key(
            m,
            labels,
            (bs[b].zone_a, bs[b].zone_b),
            m.len(),
        ) && bs[b].door_tiles@.len() > 0
    &&& forall|b1: int, b2: int|
        0 <= b1 < bs.len() && 0 <= b2 < bs.len() && b1 != b2 ==> (#[trigger] bs[b1].zone_a, bs[b1].zone_b) != (
            #[trigger] bs[b2].zone_a,
            bs[b2].zone_b,
        )
    &&& forall|i: int|
        0 <= i < m.len() && #[trigger] door_key(m, labels, i) is Some ==> exists|b: int|
            0 <= b < bs.len() && door_key(m, labels, i) == Some((#[trigger] bs[b].zone_a, bs[b].zone_b))
}

/// The distinct zones next to tile `idx`, in the order north, south, west, east.
fn adjacent_zones(m: &TileMap, tile_zone: &Vec<Option<usize>>, idx: usize) -> (r: Vec<usize>)
    requires
        scan_map(m),
        tile_zone@.len() == m.len(),
        idx < m.len(),
    ensures
        r@ == adjacent_zones_upto(m, tile_zone@, idx as int, 4),
{
    let mut zs: Vec<usize> = Vec::new();
    let mut k: usize = 0;
    while k < 4
        invariant
            scan_map(m),
            tile_zone@.len() == m.len(),
            idx < m.len(),
            k <= 4,
            zs@ == adjacent_zones_upto(m, tile_zone@, idx as int, k as int),
            zs@.len() <= k,
        decreases 4 - k,
    {
        match neighbour(m, idx, k) {
            Some(ni) => {
                if let Some(z) = tile_zone[ni] {
                    let mut found = false;
                    let mut t: usize = 0;
                    while t < zs.len()
                        invariant
                            t <= zs@.len(),
                            found == exists|u: int| 0 <= u < t && zs@[u] == z,
                        decreases zs@.len() - t,
                    {
                        if zs[t] == z {
                            found = true;
                        }
                        t = t + 1;
                    }
                    if !found {
                        zs.push(z);
                    }
                }
            },
            None => {},
        }
        k = k + 1;
    }
    zs
}

/// Flood-fill the map treating Doorway tiles as walls to find structural
/// zones, then identify the doorway tiles that separate each pair of
/// adjacent zones.
pub fn find_zones(m: &TileMap) -> (zm: ZoneMap)
    requires
        m.wf(),
    ensures
        components_of(m, views(zm.zones@)),
        labels_match(m, views(zm.zones@), zm.tile_zone@),
        boundaries_of(m, zm.tile_zone@, zm.boundaries@),
{
    if m.width == 0 || m.height == 0 {
        let zm = ZoneMap { tile_zone: Vec::new(), zones: Vec::new(), boundaries: Vec::new() };
        proof {
            assert(m.len() == 0) by (nonlinear_arith)
                requires
                    m.width == 0 || m.height == 0,
                    m.len() == m.width * m.height,
            ;
            assert(views(zm.zones@) =~= Seq::<Seq<usize>>::empty());
        }
        return zm;
    }
    let (zones, tile_zone) = find_components(m);
    let n = m.width * m.height;
    // Every doorway on a boundary, with its pair of zones, in index order.
    let mut pairs: Vec<(usize, usize, usize)> = Vec::new();
    let mut keys: Vec<(usize, usize)> = Vec::new();
    let mut idx: usize = 0;
    while idx < n
        invariant
            scan_map(m),
            n == m.len(),
            tile_zone@.len() == m.len(),
            idx <= n,
            pairs@ == keyed_doors_upto(m, tile_zone@, idx as int),
            keys@.no_duplicates(),
            forall|u: int| 0 <= u < keys@.len() ==> #[trigger] tiles_with_key(pairs@, keys@[u]).len() > 0,
            forall|i: int| 0 <= i < idx && #[trigger] door_key(m, tile_zone@, i) is Some ==> keys@.contains(door_key(m, tile_zone@, i)->0),
        decreases n - idx,
    {
        if m.tiles[idx] != TileType::Doorway {
            idx = idx + 1;
            continue;
        }
        let adjacent = adjacent_zones(m, &tile_zone, idx);
        if adjacent.len() == 2 {
            let a = if adjacent[0] <= adjacent[1] { adjacent[0] } else { adjacent[1] };
            let b = if adjacent[0] <= adjacent[1] { adjacent[1] } else { adjacent[0] };
            let ghost old_pairs = pairs@;
            pairs.push((a, b, idx));
            let mut found = false;
            let mut t: usize = 0;
            while t < keys.len()
                invariant
                    t <= keys@.len(),
                    found == exists|v: int| 0 <= v < t && keys@[v] == (a, b),
                decreases keys@.len() - t,
            {
                if keys[t].0 == a && keys[t].1 == b {
                    found = true;
                }
                t = t + 1;
            }
            proof {
                assert(pairs@.drop_last() =~= old_pairs);
                assert forall|u: int| 0 <= u < keys@.len() implies #[trigger] tiles_with_key(pairs@, keys@[u]).len() > 0 by {
                    assert(tiles_with_key(old_pairs, keys@[u]).len() > 0);
                }
            }
            if !found {
                let ghost old_keys = keys@;
                keys.push((a, b));
                proof {
                    assert forall|u: int| 0 <= u < keys@.len() implies #[trigger] tiles_with_key(pairs@, keys@[u]).len() > 0 by {
                        if u < old_keys.len() {
                            assert(keys@[u] == old_keys[u]);
                        }
                    }
                    assert forall|i: int| 0 <= i < idx && #[trigger] door_key(m, tile_zone@, i) is Some implies keys@.contains(door_key(m, tile_zone@, i)->0) by {
                        assert(old_keys.contains(door_key(m, tile_zone@, i)->0));
                        let u = choose|u: int| 0 <= u < old_keys.len() && old_keys[u] == door_key(m, tile_zone@, i)->0;
                        assert(keys@[u] == old_keys[u]);
                    }
                    assert(keys@[old_keys.len() as int] == (a, b));
                }
            }
        }
        idx = idx + 1;
    }
    let mut boundaries: Vec<ZoneBoundary> = Vec::new();
    let mut u: usize = 0;
    while u < keys.len()
        invariant
            scan_map(m),
            n == m.len(),
            tile_zone@.len() == m.len(),
            pairs@ == keyed_doors_upto(m, tile_zone@, n as int),
            keys@.no_duplicates(),
            forall|v: int| 0 <= v < keys@.len() ==> #[trigger] tiles_with_key(pairs@, keys@[v]).len() > 0,
            u <= keys@.len(),
            boundaries@.len() == u,
            forall|b: int| 0 <= b < u ==> (#[trigger] boundaries@[b]).zone_a == keys@[b].0 && boundaries@[b].zone_b == keys@[b].1 && boundaries@[b].door_tiles@ == tiles_with_key(pairs@, keys@[b]),
        decreases keys@.len() - u,
    {
        let key = keys[u];
        let mut door_tiles: Vec<usize> = Vec::new();
        let mut p: usize = 0;
        while p < pairs.len()
            invariant
                p <= pairs@.len(),
                door_tiles@ == tiles_with_key(pairs@.take(p as int), key),
            decreases pairs@.len() - p,
        {
            assert(pairs@.take(p + 1).drop_last() =~= pairs@.take(p as int));
            let (a, b, i) = pairs[p];
            if a == key.0 && b == key.1 {
                door_tiles.push(i);
            }
            p = p + 1;
        }
        assert(pairs@.take(pairs@.len() as int) =~= pairs@);
        boundaries.push(ZoneBoundary { zone_a: key.0, zone_b: key.1, door_tiles });
        u = u + 1;
    }
    proof {
        let bs = boundaries@;
        let labels = tile_zone@;
        assert forall|b: int| 0 <= b < bs.len() implies (#[trigger] bs[b]).door_tiles@ == doors_with_key(m, labels, (bs[b].zone_a, bs[b].zone_b), m.len()) && bs[b].door_tiles@.len() > 0 by {
            lemma_tiles_with_key(m, labels, keys@[b], m.len() as int);
        }
        assert forall|i: int| 0 <= i < m.len() && #[trigger] door_key(m, labels, i) is Some implies exists|b: int|
            0 <= b < bs.len() && door_key(m, labels, i) == Some((#[trigger] bs[b].zone_a, bs[b].zone_b)) by {
            let b = choose|b: int| 0 <= b < keys@.len() && keys@[b] == door_key(m, labels, i)->0;
            assert(bs[b].zone_a == keys@[b].0);
        }
    }
    ZoneMap { tile_zone, zones, boundaries }
}


// ---------------------------------------------------------------------------
// Zone graph
// ---------------------------------------------------------------------------

/// Boundary `b` links zone `u` to zone `v` (either way round).
pub open spec fn links(bs: Seq<ZoneBoundary>, b: int, u: int, v: int) -> bool {
    (bs[b].zone_a == u && bs[b].zone_b == v) || (bs[b].zone_b == u && bs[b].zone_a == v)
}

/// Every boundary names zones that exist.
pub open spec fn boundaries_in_range(bs: Seq<ZoneBoundary>, n: int) -> bool {
    forall|b: int| 0 <= b < bs.len() ==> (#[trigger] bs[b]).zone_a < n && bs[b].zone_b < n
}

/// Breadth-first depths over the zone graph from `start`: the start has
/// depth 0; every other reached zone has depth one more than a reached zone
/// it borders; across every boundary, a reached zone's neighbour is reached
/// with depth at most one more; unreached zones have `usize::MAX`.
pub open spec fn bfs_depths(bs: Seq<ZoneBoundary>, n: int, start: int, d: Seq<usize>) -> bool {
    &&& d.len() == n
    &&& d[start] == 0
    &&& forall|v: int| 0 <= v < n && d[v] != usize::MAX ==> #[trigger] d[v] < n
    &&& forall|v: int|
        0 <= v < n && v != start && #[trigger] d[v] != usize::MAX ==> exists|b: int, u: int|
            0 <= b < bs.len() && #[trigger] links(bs, b, u, v) && d[u] != usize::MAX && d[u] + 1 == d[v]
    &&& forall|b: int|
        0 <= b < bs.len() ==> (d[(#[trigger] bs[b]).zone_a as int] != usize::MAX ==> d[bs[b].zone_b as int] != usize::MAX
            && d[bs[b].zone_b as int] <= d[bs[b].zone_a as int] + 1) && (d[bs[b].zone_b as int] != usize::MAX
            ==> d[bs[b].zone_a as int] != usize::MAX && d[bs[b].zone_a as int] <= d[bs[b].zone_b as int] + 1)
}

/// BFS over the zone graph to compute how many boundaries separate each zone
/// from `start_zone`. Unreachable zones get `usize::MAX`.
#[verifier::rlimit(40)]
pub fn zone_depths(zone_map: &ZoneMap, start_zone: usize) -> (depth: Vec<usize>)
    requires
        start_zone < zone_map.zones@.len() ==> boundaries_in_range(zone_map.boundaries@, zone_map.zones@.len() as int),
    ensures
        depth@.len() == zone_map.zones@.len(),
        start_zone >= zone_map.zones@.len() ==> forall|v: int| 0 <= v < depth@.len() ==> #[trigger] depth@[v] == usize::MAX,
        start_zone < zone_map.zones@.len() ==> bfs_depths(zone_map.boundaries@, zone_map.zones@.len() as int, start_zone as int, depth@),
{
    let n = zone_map.zones.len();
    let mut depth: Vec<usize> = Vec::new();
    let mut i: usize = 0;
    while i < n
        invariant
            i <= n,
            depth@ == Seq::new(i as nat, |k: int| usize::MAX),
        decreases n - i,
    {
        depth.push(usize::MAX);
        i = i + 1;
        assert(depth@ =~= Seq::new(i as nat, |k: int| usize::MAX));
    }
    if start_zone >= n {
        return depth;
    }
    let ghost bs = zone_map.boundaries@;
    depth.set(start_zone, 0);
    let mut queue: Vec<usize> = Vec::new();
    queue.push(start_zone);
    let mut qi: usize = 0;
    proof {
        assert forall|v: int| 0 <= v < n implies (#[trigger] depth@[v] != usize::MAX <==> queue@.contains(v as usize)) by {
            if v == start_zone as int {
                assert(queue@[0] == start_zone);
            } else if queue@.contains(v as usize) {
                let j = choose|j: int| 0 <= j < queue@.len() && queue@[j] == v as usize;
                assert(j == 0);
            }
        }
    }
    while qi < queue.len()
        invariant
            n == zone_map.zones@.len(),
            bs == zone_map.boundaries@,
            boundaries_in_range(bs, n as int),
            start_zone < n,
            depth@.len() == n,
            depth@[start_zone as int] == 0,
            1 <= queue@.len() <= n,
            queue@[0] == start_zone,
            qi <= queue@.len(),
            queue@.no_duplicates(),
            forall|j: int| 0 <= j < queue@.len() ==> (#[trigger] queue@[j]) < n && depth@[queue@[j] as int] <= j,
            forall|v: int| 0 <= v < n ==> (#[trigger] depth@[v] != usize::MAX <==> queue@.contains(v as usize)),
            forall|a: int, c: int| 0 <= a <= c < queue@.len() ==> depth@[#[trigger] queue@[a] as int] <= depth@[#[trigger] queue@[c] as int],
            qi < queue@.len() ==> depth@[queue@.last() as int] <= depth@[queue@[qi as int] as int] + 1,
            forall|v: int|
                0 <= v < n && v != start_zone && #[trigger] depth@[v] != usize::MAX ==> exists|b: int, u: int|
                    0 <= b < bs.len() && #[trigger] links(bs, b, u, v) && depth@[u] != usize::MAX && depth@[u] + 1 == depth@[v],
            forall|b: int, j: int|
                0 <= b < bs.len() && 0 <= j < qi && #[trigger] links(bs, b, queue@[j] as int, bs[b].zone_b as int) ==> depth@[bs[b].zone_b as int] != usize::MAX && depth@[bs[b].zone_b as int] <= depth@[#[trigger] queue@[j] as int] + 1,
            forall|b: int, j: int|
                0 <= b < bs.len() && 0 <= j < qi && #[trigger] links(bs, b, queue@[j] as int, bs[b].zone_a as int) ==> depth@[bs[b].zone_a as int] != usize::MAX && depth@[bs[b].zone_a as int] <= depth@[#[trigger] queue@[j] as int] + 1,
        decreases n - qi,
    {
        let cur = queue[qi];
        let ghost cq = qi as int;
        qi = qi + 1;
        let mut bi: usize = 0;
        while bi < zone_map.boundaries.len()
            invariant
                n == zone_map.zones@.len(),
                bs == zone_map.boundaries@,
                boundaries_in_range(bs, n as int),
                start_zone < n,
                depth@.len() == n,
                depth@[start_zone as int] == 0,
                1 <= queue@.len() <= n,
                queue@[0] == start_zone,
                0 <= cq < qi <= queue@.len(),
                queue@[cq] == cur,
                bi <= bs.len(),
                queue@.no_duplicates(),
                forall|j: int| 0 <= j < queue@.len() ==> (#[trigger] queue@[j]) < n && depth@[queue@[j] as int] <= j,
                forall|v: int| 0 <= v < n ==> (#[trigger] depth@[v] != usize::MAX <==> queue@.contains(v as usize)),
                forall|a: int, c: int| 0 <= a <= c < queue@.len() ==> depth@[#[trigger] queue@[a] as int] <= depth@[#[trigger] queue@[c] as int],
                depth@[queue@.last() as int] <= depth@[cur as int] + 1,
                forall|v: int|
                    0 <= v < n && v != start_zone && #[trigger] depth@[v] != usize::MAX ==> exists|b: int, u: int|
                        0 <= b < bs.len() && #[trigger] links(bs, b, u, v) && depth@[u] != usize::MAX && depth@[u] + 1 == depth@[v],
                forall|b: int, j: int|
                    0 <= b < bs.len() && 0 <= j < cq && #[trigger] links(bs, b, queue@[j] as int, bs[b].zone_b as int) ==> depth@[bs[b].zone_b as int] != usize::MAX && depth@[bs[b].zone_b as int] <= depth@[#[trigger] queue@[j] as int] + 1,
                forall|b: int, j: int|
                    0 <= b < bs.len() && 0 <= j < cq && #[trigger] links(bs, b, queue@[j] as int, bs[b].zone_a as int) ==> depth@[bs[b].zone_a as int] != usize::MAX && depth@[bs[b].zone_a as int] <= depth@[#[trigger] queue@[j] as int] + 1,
                forall|b: int|
                    0 <= b < bi && bs[b].zone_a == cur ==> depth@[(#[trigger] bs[b]).zone_b as int] != usize::MAX && depth@[bs[b].zone_b as int] <= depth@[cur as int] + 1,
                forall|b: int|
                    0 <= b < bi && bs[b].zone_b == cur ==> depth@[(#[trigger] bs[b]).zone_a as int] != usize::MAX && depth@[bs[b].zone_a as int] <= depth@[cur as int] + 1,
            decreases bs.len() - bi,
        {
            let b = &zone_map.boundaries[bi];
            let mut k: usize = 0;
            while k < 2
                invariant
                    n == zone_map.zones@.len(),
                    bs == zone_map.boundaries@,
                    boundaries_in_range(bs, n as int),
                    start_zone < n,
                    depth@.len() == n,
                    depth@[start_zone as int] == 0,
                    1 <= queue@.len() <= n,
                    queue@[0] == start_zone,
                    0 <= cq < qi <= queue@.len(),
                    queue@[cq] == cur,
                    bi < bs.len(),
                    *b == bs[bi as int],
                    k <= 2,
                    queue@.no_duplicates(),
                    forall|j: int| 0 <= j < queue@.len() ==> (#[trigger] queue@[j]) < n && depth@[queue@[j] as int] <= j,
                    forall|v: int| 0 <= v < n ==> (#[trigger] depth@[v] != usize::MAX <==> queue@.contains(v as usize)),
                    forall|a: int, c: int| 0 <= a <= c < queue@.len() ==> depth@[#[trigger] queue@[a] as int] <= depth@[#[trigger] queue@[c] as int],
                    depth@[queue@.last() as int] <= depth@[cur as int] + 1,
                    forall|v: int|
                        0 <= v < n && v != start_zone && #[trigger] depth@[v] != usize::MAX ==> exists|bb: int, u: int|
                            0 <= bb < bs.len() && #[trigger] links(bs, bb, u, v) && depth@[u] != usize::MAX && depth@[u] + 1 == depth@[v],
                    forall|bb: int, j: int|
                        0 <= bb < bs.len() && 0 <= j < cq && #[trigger] links(bs, bb, queue@[j] as int, bs[bb].zone_b as int) ==> depth@[bs[bb].zone_b as int] != usize::MAX && depth@[bs[bb].zone_b as int] <= depth@[#[trigger] queue@[j] as int] + 1,
                    forall|bb: int, j: int|
                        0 <= bb < bs.len() && 0 <= j < cq && #[trigger] links(bs, bb, queue@[j] as int, bs[bb].zone_a as int) ==> depth@[bs[bb].zone_a as int] != usize::MAX && depth@[bs[bb].zone_a as int] <= depth@[#[trigger] queue@[j] as int] + 1,
                    forall|bb: int|
                        0 <= bb < bi && bs[bb].zone_a == cur ==> depth@[(#[trigger] bs[bb]).zone_b as int] != usize::MAX && depth@[bs[bb].zone_b as int] <= depth@[cur as int] + 1,
                    forall|bb: int|
                        0 <= bb < bi && bs[bb].zone_b == cur ==> depth@[(#[trigger] bs[bb]).zone_a as int] != usize::MAX && depth@[bs[bb].zone_a as int] <= depth@[cur as int] + 1,
                    k >= 1 && b.zone_a == cur ==> depth@[b.zone_b as int] != usize::MAX && depth@[b.zone_b as int] <= depth@[cur as int] + 1,
                    k >= 2 && b.zone_b == cur ==> depth@[b.zone_a as int] != usize::MAX && depth@[b.zone_a as int] <= depth@[cur as int] + 1,
                decreases 2 - k,
            {
                let (from, to) = if k == 0 { (b.zone_a, b.zone_b) } else { (b.zone_b, b.zone_a) };
                if from == cur && depth[to] == usize::MAX {
                    let ghost before = queue@;
                    let ghost dbefore = depth@;
                    proof {
                        assert(queue@.contains(cur));
                        assert(depth@[cur as int] <= cq);
                    }
                    let nd = depth[cur] + 1;
                    depth.set(to, nd);
                    queue.push(to);
                    proof {
                        assert(!before.contains(to));
                        assert forall|a: int, c: int| 0 <= a < c < queue@.len() implies queue@[a] != queue@[c] by {
                            if c == before.len() as int {
                                assert(before[a] != to) by {
                                    if before[a] == to {
                                        assert(before.contains(to));
                                    }
                                }
                            }
                        }
                        assert(queue@.no_duplicates());
                        lemma_distinct_bounded(queue@, n as nat);
                        assert forall|j: int| 0 <= j < queue@.len() implies (#[trigger] queue@[j]) < n && depth@[queue@[j] as int] <= j by {
                            if j < before.len() {
                                assert(queue@[j] == before[j]);
                                assert(before[j] != to) by {
                                    if before[j] == to {
                                        assert(before.contains(to));
                                    }
                                }
                            }
                        }
                        assert forall|v: int| 0 <= v < n implies (#[trigger] depth@[v] != usize::MAX <==> queue@.contains(v as usize)) by {
                            if v != to as int {
                                assert(depth@[v] == dbefore[v]);
                                if queue@.contains(v as usize) {
                                    let j = choose|j: int| 0 <= j < queue@.len() && queue@[j] == v as usize;
                                    assert(j < before.len());
                                    assert(before[j] == v as usize);
                                }
                                if before.contains(v as usize) {
                                    let j = choose|j: int| 0 <= j < before.len() && before[j] == v as usize;
                                    assert(queue@[j] == v as usize);
                                }
                            } else {
                                assert(queue@[before.len() as int] == to);
                            }
                        }
                        assert forall|a: int, c: int| 0 <= a <= c < queue@.len() implies depth@[#[trigger] queue@[a] as int] <= depth@[#[trigger] queue@[c] as int] by {
                            if c == before.len() as int {
                                if a < before.len() {
                                    assert(dbefore[before[a] as int] <= dbefore[before.last() as int]);
                                    assert(before[a] != to) by {
                                        if before[a] == to {
                                            assert(before.contains(to));
                                        }
                                    }
                                }
                            } else {
                                assert(queue@[a] == before[a] && queue@[c] == before[c]);
                                assert(before[a] != to && before[c] != to) by {
                                    if before[a] == to {
                                        assert(before.contains(to));
                                    }
                                    if before[c] == to {
                                        assert(before.contains(to));
                                    }
                                }
                            }
                        }
                        assert(links(bs, bi as int, cur as int, to as int));
                        assert forall|v: int|
                            0 <= v < n && v != start_zone && #[trigger] depth@[v] != usize::MAX implies exists|bb: int, u: int|
                                0 <= bb < bs.len() && #[trigger] links(bs, bb, u, v) && depth@[u] != usize::MAX && depth@[u] + 1 == depth@[v] by {
                            if v == to as int {
                                assert(links(bs, bi as int, cur as int, v));
                                assert(cur != to);
                            } else {
                                assert(depth@[v] == dbefore[v]);
                                let (bb, u) = choose|bb: int, u: int| 0 <= bb < bs.len() && #[trigger] links(bs, bb, u, v) && dbefore[u] != usize::MAX && dbefore[u] + 1 == dbefore[v];
                                assert(u != to as int);
                                assert(links(bs, bb, u, v));
                            }
                        }
                    }
                }
                k = k + 1;
            }
            bi = bi + 1;
        }
        proof {
            assert forall|b: int, j: int|
                0 <= b < bs.len() && 0 <= j < qi && #[trigger] links(bs, b, queue@[j] as int, bs[b].zone_b as int) implies depth@[bs[b].zone_b as int] != usize::MAX && depth@[bs[b].zone_b as int] <= depth@[#[trigger] queue@[j] as int] + 1 by {
                if j == cq {
                    if bs[b].zone_a != cur {
                        assert(bs[b].zone_b == cur);
                    }
                }
            }
            assert forall|b: int, j: int|
                0 <= b < bs.len() && 0 <= j < qi && #[trigger] links(bs, b, queue@[j] as int, bs[b].zone_a as int) implies depth@[bs[b].zone_a as int] != usize::MAX && depth@[bs[b].zone_a as int] <= depth@[#[trigger] queue@[j] as int] + 1 by {
                if j == cq {
                    if bs[b].zone_b != cur {
                        assert(bs[b].zone_a == cur);
                    }
                }
            }
            if qi < queue@.len() {
                assert(depth@[queue@[cq] as int] <= depth@[queue@[qi as int] as int]);
            }
        }
    }
    proof {
        assert forall|v: int| 0 <= v < n && depth@[v] != usize::MAX implies #[trigger] depth@[v] < n by {
            let j = choose|j: int| 0 <= j < queue@.len() && queue@[j] == v as usize;
        }
        assert forall|b: int| 0 <= b < bs.len() implies (depth@[(#[trigger] bs[b]).zone_a as int] != usize::MAX ==> depth@[bs[b].zone_b as int] != usize::MAX
            && depth@[bs[b].zone_b as int] <= depth@[bs[b].zone_a as int] + 1) && (depth@[bs[b].zone_b as int] != usize::MAX
            ==> depth@[bs[b].zone_a as int] != usize::MAX && depth@[bs[b].zone_a as int] <= depth@[bs[b].zone_b as int] + 1) by {
            if depth@[bs[b].zone_a as int] != usize::MAX {
                let j = choose|j: int| 0 <= j < queue@.len() && queue@[j] == bs[b].zone_a;
                assert(links(bs, b, queue@[j] as int, bs[b].zone_b as int));
            }
            if depth@[bs[b].zone_b as int] != usize::MAX {
                let j = choose|j: int| 0 <= j < queue@.len() && queue@[j] == bs[b].zone_b;
                assert(links(bs, b, queue@[j] as int, bs[b].zone_a as int));
            }
        }
    }
    depth
}


/// Zone `v` can be reached from `start` crossing at most `k` boundaries.
pub open spec fn reach_le(bs: Seq<ZoneBoundary>, start: int, v: int, k: nat) -> bool
    decreases k,
{
    v == start || (k > 0 && exists|b: int, u: int|
        0 <= b < bs.len() && #[trigger] links(bs, b, u, v) && reach_le(bs, start, u, (k - 1) as nat))
}

/// The depths `zone_depths` computes are distances in the zone graph: a zone
/// has a finite depth exactly when it can be reached from the start, and its
/// depth is then the least number of boundaries to cross to reach it.
pub proof fn law_zone_depths_are_distances(bs: Seq<ZoneBoundary>, n: int, start: int, d: Seq<usize>, v: int, k: nat)
    requires
        boundaries_in_range(bs, n),
        0 <= start < n,
        bfs_depths(bs, n, start, d),
        0 <= v < n,
    ensures
        d[v] != usize::MAX ==> reach_le(bs, start, v, d[v] as nat),
        reach_le(bs, start, v, k) ==> d[v] != usize::MAX && d[v] <= k,
{
    if d[v] != usize::MAX {
        lemma_depth_sound(bs, n, start, d, v);
    }
    if reach_le(bs, start, v, k) {
        lemma_depth_complete(bs, n, start, d, v, k);
    }
}

proof fn lemma_depth_sound(bs: Seq<ZoneBoundary>, n: int, start: int, d: Seq<usize>, v: int)
    requires
        boundaries_in_range(bs, n),
        0 <= start < n,
        bfs_depths(bs, n, start, d),
        0 <= v < n,
        d[v] != usize::MAX,
    ensures
        reach_le(bs, start, v, d[v] as nat),
    decreases d[v],
{
    if v != start {
        let (b, u) = choose|b: int, u: int|
            0 <= b < bs.len() && #[trigger] links(bs, b, u, v) && d[u] != usize::MAX && d[u] + 1 == d[v];
        assert(0 <= u < n) by {
            assert(bs[b].zone_a < n && bs[b].zone_b < n);
        }
        lemma_depth_sound(bs, n, start, d, u);
        assert(links(bs, b, u, v) && reach_le(bs, start, u, (d[v] - 1) as nat));
    }
}

proof fn lemma_depth_complete(bs: Seq<ZoneBoundary>, n: int, start: int, d: Seq<usize>, v: int, k: nat)
    requires
        boundaries_in_range(bs, n),
        0 <= start < n,
        bfs_depths(bs, n, start, d),
        0 <= v < n,
        reach_le(bs, start, v, k),
    ensures
        d[v] != usize::MAX && d[v] <= k,
    decreases k,
{
    if v != start {
        let (b, u) = choose|b: int, u: int|
            0 <= b < bs.len() && #[trigger] links(bs, b, u, v) && reach_le(bs, start, u, (k - 1) as nat);
        assert(0 <= u < n) by {
            assert(bs[b].zone_a < n && bs[b].zone_b < n);
        }
        lemma_depth_complete(bs, n, start, d, u, (k - 1) as nat);
        assert(bs[b] == bs[b]);
    }
}


/// A zone-graph edge `adj[u][e]` may be crossed: its door is unlocked, or it
/// has no lock.
pub open spec fn edge_open(unlocked: Set<usize>, color: Option<usize>) -> bool {
    match color {
        Some(c) => unlocked.contains(c),
        None => true,
    }
}

/// Zone `v` can be reached from `start` over at most `k` open edges.
pub open spec fn open_reach(adj: Seq<Vec<(usize, Option<usize>)>>, unlocked: Set<usize>, start: int, v: int, k: nat) -> bool
    decreases k,
{
    v == start || (k > 0 && exists|u: int, e: int|
        0 <= u < adj.len() && 0 <= e < adj[u]@.len() && #[trigger] adj[u]@[e].0 == v && edge_open(unlocked, adj[u]@[e].1)
            && open_reach(adj, unlocked, start, u, (k - 1) as nat))
}

/// Every edge of the zone graph leads to a zone of the graph.
pub open spec fn adj_in_range(adj: Seq<Vec<(usize, Option<usize>)>>, n: int) -> bool {
    adj.len() == n && forall|u: int, e: int| 0 <= u < n && 0 <= e < adj[u]@.len() ==> (#[trigger] adj[u]@[e]).0 < n
}

proof fn lemma_closed_contains_reach(
    adj: Seq<Vec<(usize, Option<usize>)>>,
    unlocked: Set<usize>,
    start: int,
    r: Seq<bool>,
    v: int,
    k: nat,
)
    requires
        adj_in_range(adj, r.len() as int),
        0 <= start < r.len(),
        r[start],
        forall|u: int, e: int|
            0 <= u < r.len() && 0 <= e < adj[u]@.len() && r[u] && edge_open(unlocked, (#[trigger] adj[u]@[e]).1) ==> r[adj[u]@[e].0 as int],
        0 <= v < r.len(),
        open_reach(adj, unlocked, start, v, k),
    ensures
        r[v],
    decreases k,
{
    if v != start {
        let (u, e) = choose|u: int, e: int|
            0 <= u < adj.len() && 0 <= e < adj[u]@.len() && #[trigger] adj[u]@[e].0 == v && edge_open(unlocked, adj[u]@[e].1)
                && open_reach(adj, unlocked, start, u, (k - 1) as nat);
        lemma_closed_contains_reach(adj, unlocked, start, r, u, (k - 1) as nat);
    }
}

/// BFS over the zone graph treating locked doors (whose colour is not in
/// `unlocked`) as impassable walls. Returns which zones the player can reach.
pub fn reachable_zones(
    adj: &[Vec<(usize, Option<usize>)>],
    start_zone: usize,
    n_zones: usize,
    unlocked: &std::collections::HashSet<usize>,
) -> (reachable: Vec<bool>)
    requires
        adj_in_range(adj@, n_zones as int),
    ensures
        reachable@.len() == n_zones,
        start_zone >= n_zones ==> forall|v: int| 0 <= v < n_zones ==> !#[trigger] reachable@[v],
        start_zone < n_zones ==> forall|v: int|
            0 <= v < n_zones ==> (#[trigger] reachable@[v] ==> exists|k: nat| open_reach(adj@, unlocked@, start_zone as int, v, k)),
        start_zone < n_zones ==> forall|v: int, k: nat|
            0 <= v < n_zones && #[trigger] open_reach(adj@, unlocked@, start_zone as int, v, k) ==> reachable@[v],
{
    broadcast use vstd::std_specs::hash::group_hash_axioms;

    let mut reachable: Vec<bool> = Vec::new();
    let mut i: usize = 0;
    while i < n_zones
        invariant
            i <= n_zones,
            reachable@ == Seq::new(i as nat, |k: int| false),
        decreases n_zones - i,
    {
        reachable.push(false);
        i = i + 1;
        assert(reachable@ =~= Seq::new(i as nat, |k: int| false));
    }
    if start_zone >= n_zones {
        return reachable;
    }
    let ghost g = adj@;
    let ghost un = unlocked@;
    reachable.set(start_zone, true);
    let mut queue: Vec<usize> = Vec::new();
    queue.push(start_zone);
    let mut qi: usize = 0;
    proof {
        assert forall|v: int| 0 <= v < n_zones implies (#[trigger] reachable@[v] <==> queue@.contains(v as usize)) by {
            if v == start_zone as int {
                assert(queue@[0] == start_zone);
            } else if queue@.contains(v as usize) {
                let j = choose|j: int| 0 <= j < queue@.len() && queue@[j] == v as usize;
                assert(j == 0);
            }
        }
        assert(open_reach(g, un, start_zone as int, start_zone as int, 0));
    }
    while qi < queue.len()
        invariant
            g == adj@,
            un == unlocked@,
            adj_in_range(g, n_zones as int),
            start_zone < n_zones,
            reachable@.len() == n_zones,
            reachable@[start_zone as int],
            1 <= queue@.len() <= n_zones,
            qi <= queue@.len(),
            queue@.no_duplicates(),
            forall|j: int| 0 <= j < queue@.len() ==> (#[trigger] queue@[j]) < n_zones,
            forall|v: int| 0 <= v < n_zones ==> (#[trigger] reachable@[v] <==> queue@.contains(v as usize)),
            forall|v: int| 0 <= v < n_zones && #[trigger] reachable@[v] ==> exists|k: nat| open_reach(g, un, start_zone as int, v, k),
            forall|j: int, e: int|
                0 <= j < qi && 0 <= e < g[queue@[j] as int]@.len() && edge_open(un, (#[trigger] g[#[trigger] queue@[j] as int]@[e]).1)
                    ==> reachable@[g[queue@[j] as int]@[e].0 as int],
        decreases n_zones - qi,
    {
        let cur = queue[qi];
        let ghost cq = qi as int;
        qi = qi + 1;
        let edges = &adj[cur];
        let mut e: usize = 0;
        while e < edges.len()
            invariant
                g == adj@,
                un == unlocked@,
                adj_in_range(g, n_zones as int),
                start_zone < n_zones,
                reachable@.len() == n_zones,
                reachable@[start_zone as int],
                1 <= queue@.len() <= n_zones,
                0 <= cq < qi <= queue@.len(),
                queue@[cq] == cur,
                cur < n_zones,
                *edges == g[cur as int],
                e <= edges@.len(),
                queue@.no_duplicates(),
                forall|j: int| 0 <= j < queue@.len() ==> (#[trigger] queue@[j]) < n_zones,
                forall|v: int| 0 <= v < n_zones ==> (#[trigger] reachable@[v] <==> queue@.contains(v as usize)),
                forall|v: int| 0 <= v < n_zones && #[trigger] reachable@[v] ==> exists|k: nat| open_reach(g, un, start_zone as int, v, k),
                forall|j: int, f: int|
                    0 <= j < cq && 0 <= f < g[queue@[j] as int]@.len() && edge_open(un, (#[trigger] g[#[trigger] queue@[j] as int]@[f]).1)
                        ==> reachable@[g[queue@[j] as int]@[f].0 as int],
                forall|f: int| 0 <= f < e && edge_open(un, (#[trigger] edges@[f]).1) ==> reachable@[edges@[f].0 as int],
            decreases edges@.len() - e,
        {
            let (nb, color_opt) = edges[e];
            proof {
                assert(g[cur as int]@[e as int] == edges@[e as int]);
            }
            if !reachable[nb] {
                let open = match color_opt {
                    Some(c) => unlocked.contains(&c),
                    None => true,
                };
                if open {
                    let ghost before = queue@;
                    proof {
                        assert(reachable@[cur as int]);
                        let k = choose|k: nat| open_reach(g, un, start_zone as int, cur as int, k);
                        assert(open_reach(g, un, start_zone as int, nb as int, k + 1)) by {
                            assert(g[cur as int]@[e as int].0 == nb);
                        }
                    }
                    reachable.set(nb, true);
                    queue.push(nb);
                    proof {
                        assert(!before.contains(nb));
                        assert forall|a: int, c: int| 0 <= a < c < queue@.len() implies queue@[a] != queue@[c] by {
                            if c == before.len() as int {
                                assert(before[a] != nb) by {
                                    if before[a] == nb {
                                        assert(before.contains(nb));
                                    }
                                }
                            }
                        }
                        lemma_distinct_bounded(queue@, n_zones as nat);
                        assert forall|v: int| 0 <= v < n_zones implies (#[trigger] reachable@[v] <==> queue@.contains(v as usize)) by {
                            if v != nb as int {
                                if queue@.contains(v as usize) {
                                    let j = choose|j: int| 0 <= j < queue@.len() && queue@[j] == v as usize;
                                    assert(j < before.len());
                                    assert(before[j] == v as usize);
                                }
                                if before.contains(v as usize) {
                                    let j = choose|j: int| 0 <= j < before.len() && before[j] == v as usize;
                                    assert(queue@[j] == v as usize);
                                }
                            } else {
                                assert(queue@[before.len() as int] == nb);
                            }
                        }
                        assert forall|j: int, f: int|
                            0 <= j < cq && 0 <= f < g[queue@[j] as int]@.len() && edge_open(un, (#[trigger] g[#[trigger] queue@[j] as int]@[f]).1)
                                implies reachable@[g[queue@[j] as int]@[f].0 as int] by {
                            assert(queue@[j] == before[j]);
                        }
                    }
                }
            }
            e = e + 1;
        }
        proof {
            assert forall|j: int, f: int|
                0 <= j < qi && 0 <= f < g[queue@[j] as int]@.len() && edge_open(un, (#[trigger] g[#[trigger] queue@[j] as int]@[f]).1)
                    implies reachable@[g[queue@[j] as int]@[f].0 as int] by {
                if j == cq {
                    assert(g[queue@[j] as int]@[f] == edges@[f]);
                }
            }
        }
    }
    proof {
        assert forall|v: int, k: nat|
            0 <= v < n_zones && #[trigger] open_reach(g, un, start_zone as int, v, k) implies reachable@[v] by {
            assert forall|u: int, e: int|
                0 <= u < reachable@.len() && 0 <= e < g[u]@.len() && reachable@[u] && edge_open(un, (#[trigger] g[u]@[e]).1)
                    implies reachable@[g[u]@[e].0 as int] by {
                let j = choose|j: int| 0 <= j < queue@.len() && queue@[j] == u as usize;
                assert(g[queue@[j] as int]@[e] == g[u]@[e]);
            }
            lemma_closed_contains_reach(g, un, start_zone as int, reachable@, v, k);
        }
    }
    reachable
}


// ---------------------------------------------------------------------------
// Tank spawns
// ---------------------------------------------------------------------------

/// A door at least this many tiles wide is considered a hangar entrance.
pub const MIN_HANGAR_DOOR_WIDTH: usize = 3;

/// Candidate tile indices for tank placement.
pub struct TankSpawnMap {
    /// Open road tiles (not dead-end stubs).
    pub road_tiles: Vec<usize>,
    /// Floor tiles inside rooms that have a wide enough entrance door.
    pub hangar_tiles: Vec<usize>,
}

/// Progress still possible when walking from (x, y) by (dx, dy): the
/// distance to the far edge on each moving axis.
pub open spec fn walk_measure(m: &TileMap, x: int, y: int, dx: int, dy: int) -> int {
    (if dx > 0 { m.width - x } else if dx < 0 { x + 1 } else { 0 }) + (if dy > 0 { m.height - y } else if dy < 0 {
        y + 1
    } else {
        0
    })
}

pub open spec fn unit_step(dx: int, dy: int) -> bool {
    -1 <= dx <= 1 && -1 <= dy <= 1 && (dx != 0 || dy != 0)
}

/// Number of consecutive Doorway tiles starting at (x, y) and stepping by
/// (dx, dy), up to the map's edge.
pub open spec fn doors_from(m: &TileMap, x: int, y: int, dx: int, dy: int) -> nat
    decreases walk_measure(m, x, y, dx, dy),
{
    if unit_step(dx, dy) && 0 <= x < m.width && 0 <= y < m.height && m.tiles@[m.idx_of(x, y)] == TileType::Doorway {
        1 + doors_from(m, x + dx, y + dy, dx, dy)
    } else {
        0
    }
}

/// Count consecutive Doorway tiles through `(sx, sy)` along axis `(dx, dy)`,
/// scanning in both directions from the starting tile (inclusive).
pub fn doorway_run(m: &TileMap, sx: i32, sy: i32, dx: i32, dy: i32) -> (r: usize)
    requires
        scan_map(m),
        0 <= sx < m.width,
        0 <= sy < m.height,
        unit_step(dx as int, dy as int),
    ensures
        r == 1 + doors_from(m, sx + dx, sy + dy, dx as int, dy as int) + doors_from(m, sx - dx, sy - dy, -dx, -dy),
{
    let ghost m1 = walk_measure(m, sx + dx, sy + dy, dx as int, dy as int);
    let ghost m2 = walk_measure(m, sx - dx, sy - dy, -dx, -dy);
    assert(m1 + m2 + 1 <= m.width + m.height);
    let mut len: usize = 1;
    let mut si: usize = 0;
    while si < 2
        invariant
            scan_map(m),
            0 <= sx < m.width,
            0 <= sy < m.height,
            unit_step(dx as int, dy as int),
            m1 == walk_measure(m, sx + dx, sy + dy, dx as int, dy as int),
            m2 == walk_measure(m, sx - dx, sy - dy, -dx, -dy),
            m1 + m2 + 1 <= m.width + m.height,
            si <= 2,
            len == 1 + (if si >= 1 { doors_from(m, sx + dx, sy + dy, dx as int, dy as int) } else { 0 }) + (if si
                >= 2 { doors_from(m, sx - dx, sy - dy, -dx, -dy) } else { 0 }),
            len + (if si == 0 { m1 + m2 } else if si == 1 { m2 } else { 0 }) <= m.width + m.height,
        decreases 2 - si,
    {
        let sign: i32 = if si == 0 { 1 } else { -1 };
        let sdx = dx * sign;
        let sdy = dy * sign;
        let mut x = sx + sdx;
        let mut y = sy + sdy;
        let ghost total = doors_from(m, x as int, y as int, sdx as int, sdy as int);
        let ghost m0 = walk_measure(m, x as int, y as int, sdx as int, sdy as int);
        let mut run: usize = 0;
        loop
            invariant
                scan_map(m),
                unit_step(sdx as int, sdy as int),
                -1 <= x <= m.width,
                -1 <= y <= m.height,
                run + doors_from(m, x as int, y as int, sdx as int, sdy as int) == total,
                run + walk_measure(m, x as int, y as int, sdx as int, sdy as int) <= m0,
                m0 <= m.width + m.height,
            ensures
                run == total,
                run <= m0,
            decreases walk_measure(m, x as int, y as int, sdx as int, sdy as int),
        {
            if !(x >= 0 && y >= 0 && x < m.width as i32 && y < m.height as i32) {
                break;
            }
            proof {
                assert(0 <= y * m.width + x < m.len()) by (nonlinear_arith)
                    requires
                        0 <= x < m.width,
                        0 <= y < m.height,
                ;
            }
            if m.tiles[m.xy_idx(x, y)] == TileType::Doorway {
                run = run + 1;
                x = x + sdx;
                y = y + sdy;
            } else {
                break;
            }
        }
        len = len + run;
        si = si + 1;
    }
    len
}


/// Tile `j` is a Doorway lying in a run of at least [`MIN_HANGAR_DOOR_WIDTH`]
/// doorways along a row or a column.
pub open spec fn wide_door_at(m: &TileMap, j: int) -> bool {
    let w = m.width as int;
    let x = j % w;
    let y = j / w;
    m.tiles@[j] == TileType::Doorway && (1 + doors_from(m, x + 1, y, 1, 0) + doors_from(m, x - 1, y, -1, 0)
        >= MIN_HANGAR_DOOR_WIDTH || 1 + doors_from(m, x, y + 1, 0, 1) + doors_from(m, x, y - 1, 0, -1)
        >= MIN_HANGAR_DOOR_WIDTH)
}

/// The `k`-th cardinal neighbour of tile `i` is on a wide doorway.
pub open spec fn nbr_wide(m: &TileMap, i: int, k: int) -> bool {
    nbr(m, i, k) matches Some(j) && wide_door_at(m, j)
}

/// Some tile of `tiles` has a cardinal neighbour on a wide doorway.
pub open spec fn has_wide_door(m: &TileMap, tiles: Seq<usize>) -> bool {
    exists|q: int, k: int| 0 <= q < tiles.len() && 0 <= k < 4 && #[trigger] nbr_wide(m, tiles[q] as int, k)
}

/// Returns true if any tile in the region is adjacent to a doorway run at
/// least [`MIN_HANGAR_DOOR_WIDTH`] tiles wide.
pub fn region_has_wide_door(m: &TileMap, region: &Region) -> (r: bool)
    requires
        scan_map(m),
        forall|q: int| 0 <= q < region.tiles@.len() ==> #[trigger] region.tiles@[q] < m.len(),
    ensures
        r == has_wide_door(m, region.tiles@),
{
    let ghost w = m.width as int;
    let mut t: usize = 0;
    while t < region.tiles.len()
        invariant
            scan_map(m),
            w == m.width,
            forall|q: int| 0 <= q < region.tiles@.len() ==> #[trigger] region.tiles@[q] < m.len(),
            t <= region.tiles@.len(),
            forall|q: int, k: int|
                0 <= q < t && 0 <= k < 4 ==> !#[trigger] nbr_wide(m, region.tiles@[q] as int, k),
        decreases region.tiles@.len() - t,
    {
        let tile_idx = region.tiles[t];
        let mut k: usize = 0;
        while k < 4
            invariant
                scan_map(m),
                w == m.width,
                forall|q: int| 0 <= q < region.tiles@.len() ==> #[trigger] region.tiles@[q] < m.len(),
                t < region.tiles@.len(),
                tile_idx == region.tiles@[t as int],
                k <= 4,
                forall|q: int, kk: int|
                    0 <= q < t && 0 <= kk < 4 ==> !#[trigger] nbr_wide(m, region.tiles@[q] as int, kk),
                forall|kk: int|
                    0 <= kk < k ==> !#[trigger] nbr_wide(m, tile_idx as int, kk),
            decreases 4 - k,
        {
            match neighbour(m, tile_idx, k) {
                Some(ni) => {
                    if m.tiles[ni] == TileType::Doorway {
                        proof {
                            assert(ni as int / w < m.height) by (nonlinear_arith)
                                requires
                                    0 <= ni < w * m.height,
                                    w > 0,
                            ;
                        }
                        let p = m.idx_pos(ni);
                        let h = doorway_run(m, p.x, p.y, 1, 0);
                        let v = doorway_run(m, p.x, p.y, 0, 1);
                        if h >= MIN_HANGAR_DOOR_WIDTH || v >= MIN_HANGAR_DOOR_WIDTH {
                            assert(nbr_wide(m, region.tiles@[t as int] as int, k as int));
                            return true;
                        }
                    }
                },
                None => {},
            }
            k = k + 1;
        }
        t = t + 1;
    }
    false
}

/// Road tiles among `0..k` with at least two passable cardinal neighbours,
/// in index order.
pub open spec fn open_roads_upto(m: &TileMap, k: int) -> Seq<usize>
    decreases k,
{
    if k <= 0 {
        Seq::empty()
    } else {
        let prev = open_roads_upto(m, k - 1);
        if m.tiles@[k - 1] == TileType::Road && spec_degree(m, k - 1) >= 2 {
            prev.push((k - 1) as usize)
        } else {
            prev
        }
    }
}

/// The passable tiles of `tiles`, in order.
pub open spec fn passable_tiles(m: &TileMap, tiles: Seq<usize>) -> Seq<usize>
    decreases tiles.len(),
{
    if tiles.len() == 0 {
        Seq::empty()
    } else {
        let prev = passable_tiles(m, tiles.drop_last());
        if spec_passable(m.tiles@[tiles.last() as int]) {
            prev.push(tiles.last())
        } else {
            prev
        }
    }
}

/// The passable tiles of the first `r` regions that are rooms with a wide
/// door, region by region.
pub open spec fn hangar_tiles_upto(m: &TileMap, rs: Seq<Region>, r: int) -> Seq<usize>
    decreases r,
{
    if r <= 0 {
        Seq::empty()
    } else {
        let prev = hangar_tiles_upto(m, rs, r - 1);
        if rs[r - 1].is_room && has_wide_door(m, rs[r - 1].tiles@) {
            prev + passable_tiles(m, rs[r - 1].tiles@)
        } else {
            prev
        }
    }
}

/// Find tiles suitable for spawning tanks: open road sections and hangars
/// (rooms whose widest adjacent doorway is at least
/// [`MIN_HANGAR_DOOR_WIDTH`] wide).
pub fn find_tank_spawns(m: &TileMap, regions: &[Region]) -> (r: TankSpawnMap)
    requires
        scan_map(m),
        forall|g: int, q: int| 0 <= g < regions@.len() && 0 <= q < regions@[g].tiles@.len() ==> #[trigger] regions@[g].tiles@[q] < m.len(),
    ensures
        r.road_tiles@ == open_roads_upto(m, m.len()),
        r.hangar_tiles@ == hangar_tiles_upto(m, regions@, regions@.len() as int),
{
    let n = m.width * m.height;
    let mut road_tiles: Vec<usize> = Vec::new();
    let mut idx: usize = 0;
    while idx < n
        invariant
            scan_map(m),
            n == m.len(),
            idx <= n,
            road_tiles@ == open_roads_upto(m, idx as int),
        decreases n - idx,
    {
        if m.tiles[idx] == TileType::Road && cardinal_passable_count(m, idx) >= 2 {
            road_tiles.push(idx);
        }
        idx = idx + 1;
    }
    let mut hangar_tiles: Vec<usize> = Vec::new();
    let mut g: usize = 0;
    while g < regions.len()
        invariant
            scan_map(m),
            forall|g2: int, q: int| 0 <= g2 < regions@.len() && 0 <= q < regions@[g2].tiles@.len() ==> #[trigger] regions@[g2].tiles@[q] < m.len(),
            g <= regions@.len(),
            hangar_tiles@ == hangar_tiles_upto(m, regions@, g as int),
        decreases regions@.len() - g,
    {
        let region = &regions[g];
        if region.is_room && region_has_wide_door(m, region) {
            let ghost before = hangar_tiles@;
            let mut t: usize = 0;
            while t < region.tiles.len()
                invariant
                    scan_map(m),
                    *region == regions@[g as int],
                    forall|q: int| 0 <= q < region.tiles@.len() ==> #[trigger] region.tiles@[q] < m.len(),
                    t <= region.tiles@.len(),
                    hangar_tiles@ == before + passable_tiles(m, region.tiles@.take(t as int)),
                decreases region.tiles@.len() - t,
            {
                assert(region.tiles@.take(t + 1).drop_last() =~= region.tiles@.take(t as int));
                let i = region.tiles[t];
                if tile_passable(m.tiles[i]) {
                    hangar_tiles.push(i);
                }
                t = t + 1;
                assert(hangar_tiles@ =~= before + passable_tiles(m, region.tiles@.take(t as int)));
            }
            assert(region.tiles@.take(region.tiles@.len() as int) =~= region.tiles@);
        }
        g = g + 1;
    }
    TankSpawnMap { road_tiles, hangar_tiles }
}


// ---------------------------------------------------------------------------
// Random passes
// ---------------------------------------------------------------------------

/// Shuffles `v` in place (Fisher-Yates, from the back).
pub fn fy_shuffle<T: Copy>(v: &mut Vec<T>, rng: &mut rltk::RandomNumberGenerator)
    requires
        old(v)@.len() <= i32::MAX,
    ensures
        final(v)@.to_multiset() == old(v)@.to_multiset(),
        final(v)@.len() == old(v)@.len(),
{
    broadcast use vstd::seq_lib::to_multiset_update;
    broadcast use vstd::multiset::group_multiset_axioms;

    let ghost orig = v@;
    let mut i: usize = v.len();
    while i > 1
        invariant
            i <= v@.len(),
            v@.len() == orig.len(),
            v@.len() <= i32::MAX,
            v@.to_multiset() == orig.to_multiset(),
        decreases i,
    {
        let k = i - 1;
        let j = rng_range_i32(rng, 0, (k + 1) as i32) as usize;
        let a = v[k];
        let b = v[j];
        let ghost s0 = v@;
        v.set(k, b);
        let ghost s1 = v@;
        v.set(j, a);
        proof {
            assert(s1 == s0.update(k as int, b));
            assert(v@ == s1.update(j as int, a));
            vstd::seq_lib::to_multiset_update(s0, k as int, b);
            vstd::seq_lib::to_multiset_update(s1, j as int, a);
            vstd::seq_lib::to_multiset_contains(s0, a);
            vstd::seq_lib::to_multiset_contains(s0, b);
            assert(s0[k as int] == a && s0[j as int] == b);
            assert(s1[j as int] == b);
            assert(s0.contains(a) && s0.contains(b));
            assert(v@.to_multiset() =~= s0.to_multiset());
        }
        i = k;
    }
}

/// How a zone boundary is locked, by where its doors lie.
#[derive(Clone, Copy, PartialEq, Eq, Structural, Debug)]
pub enum BoundaryKind {
    /// A door lies in the outermost ring of map blocks.
    OuterWall,
    /// A door lies in the inner ring of map blocks (and none in the outer).
    InnerWall,
    Regular,
}

/// Width of the map in blocks.
pub open spec fn blocks_wide(m: &TileMap) -> int {
    m.width as int / 32
}

/// Tile `t` lies in a block of the outermost ring of blocks.
pub open spec fn in_outer_ring(m: &TileMap, t: int) -> bool {
    let size = blocks_wide(m);
    let bi = (t % (m.width as int)) / 32;
    let bj = (t / (m.width as int)) / 32;
    bi == 0 || bi == size - 1 || bj == 0 || bj == size - 1
}

/// Tile `t` lies in a block of the inner ring: the ring a quarter of the map
/// in from each edge (when the map is large enough to have one).
pub open spec fn in_inner_ring(m: &TileMap, t: int) -> bool {
    let size = blocks_wide(m);
    let margin = size / 4;
    let inner_min = margin;
    let inner_max = size - 1 - margin;
    let bi = (t % (m.width as int)) / 32;
    let bj = (t / (m.width as int)) / 32;
    &&& margin > 0 && inner_min < inner_max
    &&& inner_min <= bi <= inner_max && inner_min <= bj <= inner_max
    &&& (bi == inner_min || bi == inner_max || bj == inner_min || bj == inner_max)
}

pub open spec fn spec_boundary_kind(m: &TileMap, doors: Seq<usize>) -> BoundaryKind {
    if exists|q: int| 0 <= q < doors.len() && #[trigger] in_outer_ring(m, doors[q] as int) {
        BoundaryKind::OuterWall
    } else if exists|q: int| 0 <= q < doors.len() && #[trigger] in_inner_ring(m, doors[q] as int) {
        BoundaryKind::InnerWall
    } else {
        BoundaryKind::Regular
    }
}

/// Whether a boundary is locked by the outer wall, the inner wall, or is a
/// regular internal door.
pub fn classify_boundary(m: &TileMap, boundary: &ZoneBoundary) -> (r: BoundaryKind)
    requires
        scan_map(m),
        m.width >= 32,
        forall|q: int| 0 <= q < boundary.door_tiles@.len() ==> #[trigger] boundary.door_tiles@[q] < m.len(),
    ensures
        r == spec_boundary_kind(m, boundary.door_tiles@),
{
    let size = m.width / 32;
    let inner_margin = size / 4;
    let inner_min = inner_margin;
    let inner_max = size - 1 - inner_margin;
    let has_inner_ring = inner_margin > 0 && inner_min < inner_max;
    let mut is_outer = false;
    let mut is_inner = false;
    let mut q: usize = 0;
    while q < boundary.door_tiles.len()
        invariant
            scan_map(m),
            m.width >= 32,
            forall|q2: int| 0 <= q2 < boundary.door_tiles@.len() ==> #[trigger] boundary.door_tiles@[q2] < m.len(),
            size == blocks_wide(m),
            inner_margin == size / 4,
            inner_min == inner_margin,
            inner_max == size - 1 - inner_margin,
            has_inner_ring == (inner_margin > 0 && inner_min < inner_max),
            q <= boundary.door_tiles@.len(),
            is_outer == exists|q2: int| 0 <= q2 < q && #[trigger] in_outer_ring(m, boundary.door_tiles@[q2] as int),
            is_inner == exists|q2: int| 0 <= q2 < q && #[trigger] in_inner_ring(m, boundary.door_tiles@[q2] as int),
        decreases boundary.door_tiles@.len() - q,
    {
        let t = boundary.door_tiles[q];
        proof {
            let w = m.width as int;
            assert(t as int / w < m.height) by (nonlinear_arith)
                requires
                    0 <= t < w * m.height,
                    w > 0,
            ;
        }
        let p = m.idx_pos(t);
        let bi = p.x as usize / 32;
        let bj = p.y as usize / 32;
        if bi == 0 || bi == size - 1 || bj == 0 || bj == size - 1 {
            is_outer = true;
        }
        if has_inner_ring && bi >= inner_min && bi <= inner_max && bj >= inner_min && bj <= inner_max && (bi
            == inner_min || bi == inner_max || bj == inner_min || bj == inner_max) {
            is_inner = true;
        }
        proof {
            assert(in_outer_ring(m, t as int) == (bi == 0 || bi == size - 1 || bj == 0 || bj == size - 1));
            assert(in_inner_ring(m, t as int) == (has_inner_ring && bi >= inner_min && bi <= inner_max && bj >= inner_min
                && bj <= inner_max && (bi == inner_min || bi == inner_max || bj == inner_min || bj == inner_max)));
        }
        q = q + 1;
    }
    if is_outer {
        BoundaryKind::OuterWall
    } else if is_inner {
        BoundaryKind::InnerWall
    } else {
        BoundaryKind::Regular
    }
}

/// Tile (x, y) lies in the first or last column or row of 32-tile blocks of a
/// map whose sides are whole blocks (rows counted in the map's block width).
pub open spec fn on_outer_blocks(m: &TileMap, x: int, y: int) -> bool {
    let w = m.width as int;
    x < 32 || w - 32 <= x || y < 32 || (w - 32 <= y && y < w)
}

/// Block arithmetic behind the outer ring: a block index is 0 or the last
/// one exactly when the coordinate lies in the first or last 32 tiles.
proof fn lemma_outer_ring_coords(m: &TileMap, t: int)
    requires
        m.width > 0,
        m.width % 32 == 0,
        0 <= t,
    ensures
        in_outer_ring(m, t) == on_outer_blocks(m, t % (m.width as int), t / (m.width as int)),
{
    let w = m.width as int;
    let size = w / 32;
    let x = t % w;
    let y = t / w;
    assert(0 <= x < w && 0 <= y) by (nonlinear_arith)
        requires
            w > 0,
            t >= 0,
            x == t % w,
            y == t / w,
    ;
    assert(w == 32 * size);
    assert((x / 32 == 0) == (x < 32) && (x / 32 == size - 1) == (w - 32 <= x)) by (nonlinear_arith)
        requires
            w == 32 * size,
            0 <= x < w,
    ;
    assert((y / 32 == 0) == (y < 32) && (y / 32 == size - 1) == (w - 32 <= y && y < w)) by (nonlinear_arith)
        requires
            w == 32 * size,
            0 <= y,
    ;
}

/// A boundary is locked by the outer wall exactly when one of its doors lies
/// in a block of the outermost ring: the first or last column or row of
/// blocks (on a map whose width is whole blocks).
pub proof fn law_outer_ring_doors_lock_outer_wall(m: &TileMap, doors: Seq<usize>)
    requires
        m.width > 0,
        m.width % 32 == 0,
    ensures
        (spec_boundary_kind(m, doors) == BoundaryKind::OuterWall) <==> exists|q: int|
            0 <= q < doors.len() && #[trigger] on_outer_blocks(
                m,
                doors[q] as int % (m.width as int),
                doors[q] as int / (m.width as int),
            ),
{
    let w = m.width as int;
    if spec_boundary_kind(m, doors) == BoundaryKind::OuterWall {
        let q = choose|q: int| 0 <= q < doors.len() && #[trigger] in_outer_ring(m, doors[q] as int);
        lemma_outer_ring_coords(m, doors[q] as int);
        assert(on_outer_blocks(m, doors[q] as int % w, doors[q] as int / w));
    }
    if exists|q: int| 0 <= q < doors.len() && #[trigger] on_outer_blocks(m, doors[q] as int % w, doors[q] as int / w) {
        let q = choose|q: int| 0 <= q < doors.len() && #[trigger] on_outer_blocks(m, doors[q] as int % w, doors[q] as int / w);
        lemma_outer_ring_coords(m, doors[q] as int);
        assert(in_outer_ring(m, doors[q] as int));
    }
}

/// The tile mirrored top to bottom: (x, y) goes to (x, height - 1 - y).
pub open spec fn flip_rows(m: &TileMap, t: usize) -> usize {
    let w = m.width as int;
    ((m.height - 1 - t as int / w) * w + t as int % w) as usize
}

/// Mirroring top to bottom maps block row `b` of a square map of `size`
/// blocks to block row `size - 1 - b`, and keeps the block column.
proof fn lemma_flip_rows_blocks(m: &TileMap, t: int)
    requires
        scan_map(m),
        m.width % 32 == 0,
        m.height == m.width,
        0 <= t < m.len(),
    ensures
        flip_rows(m, t as usize) as int % (m.width as int) == t % (m.width as int),
        (flip_rows(m, t as usize) as int / (m.width as int)) / 32 == blocks_wide(m) - 1 - (t / (m.width as int)) / 32,
        0 <= flip_rows(m, t as usize) < m.len(),
{
    let w = m.width as int;
    let size = w / 32;
    let x = t % w;
    let y = t / w;
    assert(0 <= x < w && 0 <= y < w) by (nonlinear_arith)
        requires
            w > 0,
            0 <= t < w * w,
            x == t % w,
            y == t / w,
    ;
    let y2 = w - 1 - y;
    assert(0 <= y2 * w + x < w * w) by (nonlinear_arith)
        requires
            0 <= x < w,
            0 <= y2 < w,
    ;
    assert(flip_rows(m, t as usize) as int == m.idx_of(x, y2));
    law_idx_pos_of_xy_idx(m, x, y2);
    assert(w == 32 * size);
    assert(y2 / 32 == size - 1 - y / 32) by (nonlinear_arith)
        requires
            w == 32 * size,
            0 <= y < w,
            y2 == w - 1 - y,
    {
        let b = y / 32;
        let r = y % 32;
        assert(y == 32 * b + r && 0 <= r < 32);
        vstd::arithmetic::div_mod::lemma_fundamental_div_mod_converse(y2, 32, size - 1 - b, 31 - r);
    }
}

/// On a square map of whole blocks, the kind of a boundary does not change
/// when the map is mirrored top to bottom: the outer and inner rings are
/// symmetric.
pub proof fn law_boundary_kind_mirrors_top_to_bottom(m: &TileMap, doors: Seq<usize>)
    requires
        scan_map(m),
        m.width % 32 == 0,
        m.height == m.width,
        forall|q: int| 0 <= q < doors.len() ==> #[trigger] doors[q] < m.len(),
    ensures
        spec_boundary_kind(m, doors.map_values(|t: usize| flip_rows(m, t))) == spec_boundary_kind(m, doors),
{
    let flipped = doors.map_values(|t: usize| flip_rows(m, t));
    assert forall|q: int| 0 <= q < doors.len() implies #[trigger] in_outer_ring(m, flipped[q] as int) == in_outer_ring(
        m,
        doors[q] as int,
    ) && in_inner_ring(m, flipped[q] as int) == in_inner_ring(m, doors[q] as int) by {
        lemma_flip_rows_blocks(m, doors[q] as int);
    }
    if exists|q: int| 0 <= q < doors.len() && #[trigger] in_outer_ring(m, doors[q] as int) {
        let q = choose|q: int| 0 <= q < doors.len() && #[trigger] in_outer_ring(m, doors[q] as int);
        assert(in_outer_ring(m, flipped[q] as int));
    } else if exists|q: int| 0 <= q < flipped.len() && #[trigger] in_outer_ring(m, flipped[q] as int) {
        let q = choose|q: int| 0 <= q < flipped.len() && #[trigger] in_outer_ring(m, flipped[q] as int);
        assert(in_outer_ring(m, doors[q] as int));
    } else if exists|q: int| 0 <= q < doors.len() && #[trigger] in_inner_ring(m, doors[q] as int) {
        let q = choose|q: int| 0 <= q < doors.len() && #[trigger] in_inner_ring(m, doors[q] as int);
        lemma_flip_rows_blocks(m, doors[q] as int);
        assert(in_inner_ring(m, flipped[q] as int));
    } else if exists|q: int| 0 <= q < flipped.len() && #[trigger] in_inner_ring(m, flipped[q] as int) {
        let q = choose|q: int| 0 <= q < flipped.len() && #[trigger] in_inner_ring(m, flipped[q] as int);
        lemma_flip_rows_blocks(m, doors[q] as int);
        assert(in_inner_ring(m, doors[q] as int));
    }
}

/// The tile mirrored left to right: (x, y) goes to (width - 1 - x, y).
pub open spec fn flip_cols(m: &TileMap, t: usize) -> usize {
    let w = m.width as int;
    ((t as int / w) * w + (w - 1 - t as int % w)) as usize
}

/// Mirroring left to right maps block column `b` of a map of `size` blocks
/// across to block column `size - 1 - b`, and keeps the row.
proof fn lemma_flip_cols_blocks(m: &TileMap, t: int)
    requires
        scan_map(m),
        m.width % 32 == 0,
        0 <= t < m.len(),
    ensures
        flip_cols(m, t as usize) as int / (m.width as int) == t / (m.width as int),
        (flip_cols(m, t as usize) as int % (m.width as int)) / 32 == blocks_wide(m) - 1 - (t % (m.width as int)) / 32,
        0 <= flip_cols(m, t as usize) < m.len(),
{
    let w = m.width as int;
    let size = w / 32;
    let x = t % w;
    let y = t / w;
    assert(0 <= x < w && 0 <= y < m.height) by (nonlinear_arith)
        requires
            w > 0,
            0 <= t < w * m.height,
            x == t % w,
            y == t / w,
    ;
    let x2 = w - 1 - x;
    assert(0 <= y * w + x2 < w * m.height) by (nonlinear_arith)
        requires
            0 <= x2 < w,
            0 <= y < m.height,
    ;
    assert(flip_cols(m, t as usize) as int == m.idx_of(x2, y));
    law_idx_pos_of_xy_idx(m, x2, y);
    assert(w == 32 * size);
    assert(x2 / 32 == size - 1 - x / 32) by (nonlinear_arith)
        requires
            w == 32 * size,
            0 <= x < w,
            x2 == w - 1 - x,
    {
        let b = x / 32;
        let r = x % 32;
        assert(x == 32 * b + r && 0 <= r < 32);
        vstd::arithmetic::div_mod::lemma_fundamental_div_mod_converse(x2, 32, size - 1 - b, 31 - r);
    }
}

/// On a map whose width is whole blocks, the kind of a boundary does not
/// change when the map is mirrored left to right.
pub proof fn law_boundary_kind_mirrors_left_to_right(m: &TileMap, doors: Seq<usize>)
    requires
        scan_map(m),
        m.width % 32 == 0,
        forall|q: int| 0 <= q < doors.len() ==> #[trigger] doors[q] < m.len(),
    ensures
        spec_boundary_kind(m, doors.map_values(|t: usize| flip_cols(m, t))) == spec_boundary_kind(m, doors),
{
    let flipped = doors.map_values(|t: usize| flip_cols(m, t));
    if exists|q: int| 0 <= q < doors.len() && #[trigger] in_outer_ring(m, doors[q] as int) {
        let q = choose|q: int| 0 <= q < doors.len() && #[trigger] in_outer_ring(m, doors[q] as int);
        lemma_flip_cols_blocks(m, doors[q] as int);
        assert(in_outer_ring(m, flipped[q] as int));
    } else if exists|q: int| 0 <= q < flipped.len() && #[trigger] in_outer_ring(m, flipped[q] as int) {
        let q = choose|q: int| 0 <= q < flipped.len() && #[trigger] in_outer_ring(m, flipped[q] as int);
        lemma_flip_cols_blocks(m, doors[q] as int);
        assert(in_outer_ring(m, doors[q] as int));
    } else if exists|q: int| 0 <= q < doors.len() && #[trigger] in_inner_ring(m, doors[q] as int) {
        let q = choose|q: int| 0 <= q < doors.len() && #[trigger] in_inner_ring(m, doors[q] as int);
        lemma_flip_cols_blocks(m, doors[q] as int);
        assert(in_inner_ring(m, flipped[q] as int));
    } else if exists|q: int| 0 <= q < flipped.len() && #[trigger] in_inner_ring(m, flipped[q] as int) {
        let q = choose|q: int| 0 <= q < flipped.len() && #[trigger] in_inner_ring(m, flipped[q] as int);
        lemma_flip_cols_blocks(m, doors[q] as int);
        assert(in_inner_ring(m, doors[q] as int));
    }
}

/// Region `g` is a room whose centre lies in a zone, and so gets a draw.
pub open spec fn room_in_zone(zm: &ZoneMap, rs: Seq<Region>, g: int) -> bool {
    rs[g].is_room && zm.tile_zone@[rs[g].center_idx as int] is Some
}

/// Number of regions among the first `g` that get a draw.
pub open spec fn draws_before(zm: &ZoneMap, rs: Seq<Region>, g: int) -> int
    decreases g,
{
    if g <= 0 {
        0
    } else {
        draws_before(zm, rs, g - 1) + if room_in_zone(zm, rs, g - 1) { 1int } else { 0int }
    }
}

/// Zones marked interesting by the draws: a zone is interesting when some
/// room region centred in it drew 0.
pub open spec fn spec_interesting(zm: &ZoneMap, rs: Seq<Region>, draws: Seq<i32>) -> Seq<bool> {
    Seq::new(
        zm.zones@.len(),
        |z: int|
            exists|g: int|
                0 <= g < rs.len() && #[trigger] room_in_zone(zm, rs, g) && zm.tile_zone@[rs[g].center_idx as int]
                    == Some(z as usize) && draws[draws_before(zm, rs, g)] == 0,
    )
}

/// Room centres index the zone map, and zone labels index the zones.
pub open spec fn interest_inputs_ok(zm: &ZoneMap, rs: Seq<Region>) -> bool {
    &&& forall|g: int| 0 <= g < rs.len() && (#[trigger] rs[g]).is_room ==> rs[g].center_idx < zm.tile_zone@.len()
    &&& forall|i: int| 0 <= i < zm.tile_zone@.len() && #[trigger] zm.tile_zone@[i] is Some ==> zm.tile_zone@[i]->0 < zm.zones@.len()
}

proof fn lemma_draws_before_mono(zm: &ZoneMap, rs: Seq<Region>, g: int, h: int)
    requires
        0 <= g <= h,
    ensures
        draws_before(zm, rs, g) <= draws_before(zm, rs, h),
        0 <= draws_before(zm, rs, g),
    decreases h,
{
    if g < h {
        lemma_draws_before_mono(zm, rs, g, h - 1);
    } else {
        lemma_draws_before_nonneg(zm, rs, g);
    }
}

proof fn lemma_draws_before_nonneg(zm: &ZoneMap, rs: Seq<Region>, g: int)
    ensures
        0 <= draws_before(zm, rs, g),
    decreases g,
{
    if g > 0 {
        lemma_draws_before_nonneg(zm, rs, g - 1);
    }
}

/// Marks zones as interesting from one draw in `0..2` per room region whose
/// centre lies in a zone (in region order): a zone is interesting if any of
/// its rooms drew 0.
pub fn interesting_from_draws(zone_map: &ZoneMap, spawn_map: &SpawnMap, draws: &Vec<i32>) -> (r: Vec<bool>)
    requires
        interest_inputs_ok(zone_map, spawn_map.regions@),
        draws@.len() >= draws_before(zone_map, spawn_map.regions@, spawn_map.regions@.len() as int),
    ensures
        r@ == spec_interesting(zone_map, spawn_map.regions@, draws@),
{
    let ghost rs = spawn_map.regions@;
    let nz = zone_map.zones.len();
    let mut interesting: Vec<bool> = Vec::new();
    let mut i: usize = 0;
    while i < nz
        invariant
            i <= nz,
            interesting@ == Seq::new(i as nat, |k: int| false),
        decreases nz - i,
    {
        interesting.push(false);
        i = i + 1;
        assert(interesting@ =~= Seq::new(i as nat, |k: int| false));
    }
    let mut d: usize = 0;
    let mut g: usize = 0;
    let dl = draws.len();
    while g < spawn_map.regions.len()
        invariant
            rs == spawn_map.regions@,
            dl == draws@.len(),
            nz == zone_map.zones@.len(),
            interest_inputs_ok(zone_map, rs),
            draws@.len() >= draws_before(zone_map, rs, rs.len() as int),
            g <= rs.len(),
            d == draws_before(zone_map, rs, g as int),
            interesting@.len() == nz,
            forall|z: int|
                0 <= z < nz ==> #[trigger] interesting@[z] == exists|h: int|
                    0 <= h < g && #[trigger] room_in_zone(zone_map, rs, h) && zone_map.tile_zone@[rs[h].center_idx as int]
                        == Some(z as usize) && draws@[draws_before(zone_map, rs, h)] == 0,
        decreases rs.len() - g,
    {
        proof {
            lemma_draws_before_mono(zone_map, rs, g as int, rs.len() as int);
            lemma_draws_before_mono(zone_map, rs, g + 1, rs.len() as int);
        }
        let region = &spawn_map.regions[g];
        if region.is_room {
            if let Some(zi) = zone_map.tile_zone[region.center_idx] {
                let ghost before = interesting@;
                if draws[d] == 0 {
                    interesting.set(zi, true);
                }
                proof {
                    assert(room_in_zone(zone_map, rs, g as int));
                    assert(draws_before(zone_map, rs, g + 1) == d + 1);
                    assert(draws_before(zone_map, rs, g + 1) <= draws_before(zone_map, rs, rs.len() as int));
                    assert(d + 1 <= draws@.len());
                    assert forall|z: int|
                        0 <= z < nz implies #[trigger] interesting@[z] == exists|h: int|
                            0 <= h < g + 1 && #[trigger] room_in_zone(zone_map, rs, h) && zone_map.tile_zone@[rs[h].center_idx as int]
                                == Some(z as usize) && draws@[draws_before(zone_map, rs, h)] == 0 by {
                        if z == zi as int && draws@[d as int] == 0 {
                            assert(room_in_zone(zone_map, rs, g as int) && zone_map.tile_zone@[rs[g as int].center_idx as int] == Some(z as usize));
                        }
                    }
                }
                d = d + 1;
            }
        }
        g = g + 1;
    }
    proof {
        assert(interesting@ =~= spec_interesting(zone_map, rs, draws@));
    }
    interesting
}

/// Randomly marks zones as interesting based on whether they contain rooms:
/// each room region centred in a zone has a 1-in-2 chance to flag the zone
/// as interesting; a zone is interesting if any of its rooms passes the check.
pub fn mark_interesting_zones(zone_map: &ZoneMap, spawn_map: &SpawnMap, rng: &mut rltk::RandomNumberGenerator) -> (r: Vec<bool>)
    requires
        interest_inputs_ok(zone_map, spawn_map.regions@),
    ensures
        exists|draws: Seq<i32>|
            draws.len() == draws_before(zone_map, spawn_map.regions@, spawn_map.regions@.len() as int) && (forall|k: int|
                0 <= k < draws.len() ==> 0 <= #[trigger] draws[k] < 2) && r@ == spec_interesting(zone_map, spawn_map.regions@, draws),
{
    let ghost rs = spawn_map.regions@;
    let mut draws: Vec<i32> = Vec::new();
    let mut g: usize = 0;
    while g < spawn_map.regions.len()
        invariant
            rs == spawn_map.regions@,
            interest_inputs_ok(zone_map, rs),
            g <= rs.len(),
            draws@.len() == draws_before(zone_map, rs, g as int),
            forall|k: int| 0 <= k < draws@.len() ==> 0 <= #[trigger] draws@[k] < 2,
        decreases rs.len() - g,
    {
        let region = &spawn_map.regions[g];
        if region.is_room && zone_map.tile_zone[region.center_idx].is_some() {
            let coin = rng_range_i32(rng, 0, 2);
            draws.push(coin);
        }
        g = g + 1;
    }
    interesting_from_draws(zone_map, spawn_map, &draws)
}

} // verus!
