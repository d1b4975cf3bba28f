//! Populating a generated map: where loot goes, which zone boundaries get
//! locked doors, and where their keys lie. These passes decide positions and
//! colours; creating the entities and items is left to the world.
use vstd::prelude::*;
use crate::geom::Point;
use crate::map::TileMap;
use crate::rng::{rng_range_i32, rng_range_usize};
use crate::spawn::{BoundaryKind, SpawnMap, ZoneBoundary, ZoneMap, classify_boundary, scan_map, spec_boundary_kind};
use crate::tile::TileType;

verus! {

/// Number of loot draws made for a map.
pub const TOTAL_LOOT: usize = 400;

// ---------------------------------------------------------------------------
// Loot
// ---------------------------------------------------------------------------

/// One loot item to place: which entry of the loot pool, and where.
#[derive(Clone, Copy, PartialEq, Eq, Structural, Debug)]
pub struct LootPlacement {
    pub pool_index: usize,
    pub pos: Point,
}

/// `n` copies of `v`.
pub open spec fn copies(v: (usize, u8), n: int) -> Seq<(usize, u8)> {
    Seq::new(if n > 0 { n as nat } else { 0 }, |i: int| v)
}

/// The weighted pool: entry `i` of the loot pool (with rarity `r`) appears
/// `4 - r` times (none when `r >= 4`), entries in pool order.
pub open spec fn weighted_pool(rarities: Seq<u8>, k: int) -> Seq<(usize, u8)>
    decreases k,
{
    if k <= 0 {
        Seq::empty()
    } else {
        weighted_pool(rarities, k - 1) + copies(((k - 1) as usize, rarities[k - 1]), 4 - rarities[k - 1])
    }
}

/// Builds the weighted loot pool (see [`weighted_pool`]).
pub fn build_weighted_pool(rarities: &Vec<u8>) -> (r: Vec<(usize, u8)>)
    ensures
        r@ == weighted_pool(rarities@, rarities@.len() as int),
{
    let mut pool: Vec<(usize, u8)> = Vec::new();
    let mut i: usize = 0;
    while i < rarities.len()
        invariant
            i <= rarities@.len(),
            pool@ == weighted_pool(rarities@, i as int),
        decreases rarities@.len() - i,
    {
        let r = rarities[i];
        let n: usize = if r < 4 { 4 - r as usize } else { 0 };
        let ghost before = pool@;
        let mut c: usize = 0;
        while c < n
            invariant
                c <= n,
                n == (if r < 4 { 4 - r } else { 0 }),
                pool@ == before + copies((i, r), c as int),
            decreases n - c,
        {
            pool.push((i, r));
            c = c + 1;
            assert(pool@ =~= before + copies((i, r), c as int));
        }
        i = i + 1;
        assert(pool@ =~= weighted_pool(rarities@, i as int));
    }
    pool
}

/// Zone `zi` can receive loot: it is reached from the start and has floor
/// spawn points.
pub open spec fn loot_zone(zm: &ZoneMap, indoor: Seq<Seq<Point>>, depths: Seq<usize>, zi: int) -> bool {
    depths[zi] != usize::MAX && indoor[zi].len() > 0
}

/// The positions of the spawn points among the first `k` that lie on Floor
/// in zone `zi`, in order.
pub open spec fn indoor_of(m: &TileMap, zm: &ZoneMap, sm: &SpawnMap, zi: int, k: int) -> Seq<Point>
    decreases k,
{
    if k <= 0 {
        Seq::empty()
    } else {
        let prev = indoor_of(m, zm, sm, zi, k - 1);
        let sp = sm.spawn_points@[k - 1];
        if zm.tile_zone@[sp.idx as int] == Some(zi as usize) && m.tiles@[sp.idx as int] == TileType::Floor {
            prev.push(sp.pos)
        } else {
            prev
        }
    }
}

/// Indoor spawn positions of every zone reached from the start (zones not
/// reached get none).
pub open spec fn indoor_spawns(m: &TileMap, zm: &ZoneMap, sm: &SpawnMap, depths: Seq<usize>) -> Seq<Seq<Point>> {
    Seq::new(
        zm.zones@.len(),
        |zi: int|
            if depths[zi] != usize::MAX {
                indoor_of(m, zm, sm, zi, sm.spawn_points@.len() as int)
            } else {
                Seq::empty()
            },
    )
}

/// The largest depth among the first `k` loot zones, 0 when there is none.
pub open spec fn max_loot_depth(zm: &ZoneMap, indoor: Seq<Seq<Point>>, depths: Seq<usize>, k: int) -> int
    decreases k,
{
    if k <= 0 {
        0
    } else {
        let prev = max_loot_depth(zm, indoor, depths, k - 1);
        if loot_zone(zm, indoor, depths, k - 1) && depths[k - 1] > prev {
            depths[k - 1] as int
        } else {
            prev
        }
    }
}

/// The loot zones among the first `k` at depth `d`, in index order.
pub open spec fn zones_at_depth(zm: &ZoneMap, indoor: Seq<Seq<Point>>, depths: Seq<usize>, d: int, k: int) -> Seq<usize>
    decreases k,
{
    if k <= 0 {
        Seq::empty()
    } else {
        let prev = zones_at_depth(zm, indoor, depths, d, k - 1);
        if loot_zone(zm, indoor, depths, k - 1) && depths[k - 1] == d {
            prev.push((k - 1) as usize)
        } else {
            prev
        }
    }
}

/// Depth `d` still has a zone without an item.
pub open spec fn depth_open(by_depth: Seq<Seq<usize>>, has_item: Seq<bool>, d: int) -> bool {
    exists|j: int| 0 <= j < by_depth[d].len() && !has_item[#[trigger] by_depth[d][j] as int]
}

pub open spec fn abs_diff(a: int, b: int) -> int {
    if a >= b {
        a - b
    } else {
        b - a
    }
}

/// The open depth nearest `target` among depths `lo..k`, the smallest on a
/// tie.
pub open spec fn nearest_open_depth_upto(by_depth: Seq<Seq<usize>>, has_item: Seq<bool>, target: int, lo: int, k: int) -> Option<int>
    decreases k,
{
    if k <= 0 {
        None
    } else {
        let prev = nearest_open_depth_upto(by_depth, has_item, target, lo, k - 1);
        let d = k - 1;
        if lo <= d && depth_open(by_depth, has_item, d) {
            match prev {
                Some(p) => if abs_diff(d, target) < abs_diff(p, target) {
                    Some(d)
                } else {
                    prev
                },
                None => Some(d),
            }
        } else {
            prev
        }
    }
}

/// The depth a loot item of `rarity` aims for: a third of the deepest depth
/// per rarity level, shifted by `jitter`, kept within `0..=max_depth`.
pub open spec fn loot_target(rarity: u8, max_depth: int, jitter: int) -> int {
    let base = (rarity * max_depth) / 3;
    let t = if base + jitter < 0 { 0 } else { base + jitter };
    if t < max_depth {
        t
    } else {
        max_depth
    }
}

/// The depth an item of `rarity` aims for (see [`loot_target`]) on a map
/// whose deepest loot depth is `max_depth`, given the drawn `jitter`.
pub fn loot_aim(rarity: u8, max_depth: usize, jitter: i32) -> (r: usize)
    requires
        rarity < 4,
        -1 <= jitter < 4,
    ensures
        r == loot_target(rarity, max_depth as int, jitter as int),
{
    proof {
        assert(0 <= rarity as u128 * max_depth as u128 <= 3 * (max_depth as u128)) by (nonlinear_arith)
            requires
                rarity < 4,
        ;
    }
    let base: u128 = (rarity as u128 * max_depth as u128) / 3;
    let shifted: i128 = base as i128 + jitter as i128;
    if shifted < 0 {
        0
    } else if shifted < max_depth as i128 {
        shifted as usize
    } else {
        max_depth
    }
}

/// The open depth nearest `target` (the smallest on a tie) among the depths
/// from `min_depth` on, if any of them is still open.
pub fn nearest_open_depth(by_depth: &Vec<Vec<usize>>, has_item: &Vec<bool>, target: usize, min_depth: usize) -> (r: Option<usize>)
    requires
        forall|d: int, j: int| 0 <= d < by_depth@.len() && 0 <= j < by_depth@[d]@.len() ==> (#[trigger] by_depth@[d]@[j]) < has_item@.len(),
    ensures
        r is None <==> nearest_open_depth_upto(
            Seq::new(by_depth@.len(), |d: int| by_depth@[d]@),
            has_item@,
            target as int,
            min_depth as int,
            by_depth@.len() as int,
        ) is None,
        r matches Some(d) ==> nearest_open_depth_upto(
            Seq::new(by_depth@.len(), |d: int| by_depth@[d]@),
            has_item@,
            target as int,
            min_depth as int,
            by_depth@.len() as int,
        ) == Some(d as int) && d < by_depth@.len(),
{
    let ghost bd = Seq::new(by_depth@.len(), |d: int| by_depth@[d]@);
    let mut best: Option<usize> = None;
    let mut d: usize = 0;
    while d < by_depth.len()
        invariant
            bd == Seq::new(by_depth@.len(), |d2: int| by_depth@[d2]@),
            forall|d2: int, j: int| 0 <= d2 < by_depth@.len() && 0 <= j < by_depth@[d2]@.len() ==> (#[trigger] by_depth@[d2]@[j]) < has_item@.len(),
            d <= by_depth@.len(),
            best is None <==> nearest_open_depth_upto(bd, has_item@, target as int, min_depth as int, d as int) is None,
            best matches Some(b) ==> nearest_open_depth_upto(bd, has_item@, target as int, min_depth as int, d as int) == Some(b as int) && b < d,
        decreases by_depth@.len() - d,
    {
        let zs = &by_depth[d];
        let mut open = false;
        let mut j: usize = 0;
        while j < zs.len()
            invariant
                *zs == by_depth@[d as int],
                forall|d2: int, jj: int| 0 <= d2 < by_depth@.len() && 0 <= jj < by_depth@[d2]@.len() ==> (#[trigger] by_depth@[d2]@[jj]) < has_item@.len(),
                d < by_depth@.len(),
                j <= zs@.len(),
                open == exists|jj: int| 0 <= jj < j && !has_item@[#[trigger] zs@[jj] as int],
            decreases zs@.len() - j,
        {
            if !has_item[zs[j]] {
                open = true;
            }
            j = j + 1;
        }
        assert(bd[d as int] == zs@);
        if open && d >= min_depth {
            match best {
                Some(b) => {
                    let dd = if d >= target { d - target } else { target - d };
                    let bb = if b >= target { b - target } else { target - b };
                    if dd < bb {
                        best = Some(d);
                    }
                },
                None => {
                    best = Some(d);
                },
            }
        }
        d = d + 1;
    }
    best
}


/// Inputs of the loot pass fit together: spawn points index the map and the
/// zone labels, depths are given per zone and finite depths are below the
/// zone count, which is moderate.
pub open spec fn loot_inputs_ok(m: &TileMap, zm: &ZoneMap, sm: &SpawnMap, depths: Seq<usize>) -> bool {
    &&& zm.tile_zone@.len() == m.tiles@.len()
    &&& depths.len() == zm.zones@.len()
    &&& forall|i: int| 0 <= i < sm.spawn_points@.len() ==> (#[trigger] sm.spawn_points@[i]).idx < m.tiles@.len()
    &&& forall|zi: int| 0 <= zi < depths.len() && #[trigger] depths[zi] != usize::MAX ==> depths[zi] < zm.zones@.len()
}

/// Floor spawn positions of each zone reached from the start.
fn indoor_spawns_of(m: &TileMap, zm: &ZoneMap, sm: &SpawnMap, depths: &Vec<usize>) -> (r: Vec<Vec<Point>>)
    requires
        loot_inputs_ok(m, zm, sm, depths@),
    ensures
        r@.len() == zm.zones@.len(),
        forall|zi: int| 0 <= zi < r@.len() ==> (#[trigger] r@[zi])@ == indoor_spawns(m, zm, sm, depths@)[zi],
{
    let nz = zm.zones.len();
    let mut out: Vec<Vec<Point>> = Vec::new();
    let mut zi: usize = 0;
    while zi < nz
        invariant
            loot_inputs_ok(m, zm, sm, depths@),
            nz == zm.zones@.len(),
            zi <= nz,
            out@.len() == zi,
            forall|z: int| 0 <= z < zi ==> (#[trigger] out@[z])@ == indoor_spawns(m, zm, sm, depths@)[z],
        decreases nz - zi,
    {
        let mut v: Vec<Point> = Vec::new();
        if depths[zi] != usize::MAX {
            let mut k: usize = 0;
            while k < sm.spawn_points.len()
                invariant
                    loot_inputs_ok(m, zm, sm, depths@),
                    zi < nz,
                    nz == zm.zones@.len(),
                    k <= sm.spawn_points@.len(),
                    v@ == indoor_of(m, zm, sm, zi as int, k as int),
                decreases sm.spawn_points@.len() - k,
            {
                let sp = sm.spawn_points[k];
                proof {
                    assert(sm.spawn_points@[k as int].idx < m.tiles@.len());
                }
                if zm.tile_zone[sp.idx] == Some(zi) && m.tiles[sp.idx] == TileType::Floor {
                    v.push(sp.pos);
                }
                k = k + 1;
            }
        }
        out.push(v);
        zi = zi + 1;
    }
    out
}

proof fn lemma_max_loot_depth_bound(zm: &ZoneMap, indoor: Seq<Seq<Point>>, depths: Seq<usize>, k: int)
    requires
        0 <= k <= depths.len(),
        depths.len() == zm.zones@.len(),
        forall|zi: int| 0 <= zi < depths.len() && #[trigger] depths[zi] != usize::MAX ==> depths[zi] < zm.zones@.len(),
    ensures
        0 <= max_loot_depth(zm, indoor, depths, k),
        k > 0 ==> max_loot_depth(zm, indoor, depths, k) < zm.zones@.len(),
        forall|zi: int| 0 <= zi < k && loot_zone(zm, indoor, depths, zi) ==> depths[zi] <= max_loot_depth(zm, indoor, depths, k),
    decreases k,
{
    if k > 0 {
        lemma_max_loot_depth_bound(zm, indoor, depths, k - 1);
    }
}

/// One loot decision made by the pass, recorded for the contract: the item
/// drawn went to zone `zone`.
pub open spec fn placements_ok(
    placed: Seq<LootPlacement>,
    zones: Seq<usize>,
    rarities: Seq<u8>,
    indoor: Seq<Seq<Point>>,
    depths: Seq<usize>,
    zm: &ZoneMap,
) -> bool {
    &&& zones.len() == placed.len()
    &&& zones.no_duplicates()
    &&& forall|i: int|
        0 <= i < placed.len() ==> {
            &&& (#[trigger] placed[i]).pool_index < rarities.len()
            &&& rarities[placed[i].pool_index as int] < 4
            &&& zones[i] < zm.zones@.len()
            &&& loot_zone(zm, indoor, depths, zones[i] as int)
            &&& depths[zones[i] as int] >= rarities[placed[i].pool_index as int]
            &&& indoor[zones[i] as int].contains(placed[i].pos)
        }
}

/// No item of the pool is rarer than the shallowest loot zone is deep, so no
/// draw is turned away for its rarity.
pub open spec fn rarity_never_binds(rarities: Seq<u8>, indoor: Seq<Seq<Point>>, depths: Seq<usize>, zm: &ZoneMap) -> bool {
    forall|k: int, z: int|
        0 <= k < rarities.len() && #[trigger] rarities[k] < 4 && 0 <= z < zm.zones@.len() && #[trigger] loot_zone(
            zm,
            indoor,
            depths,
            z,
        ) ==> depths[z] >= rarities[k]
}

/// A draw used as an offset into a range of `n` values: the draw itself
/// when it lies below `n`, else 0.
pub open spec fn offset_in(k: usize, n: int) -> int {
    if k < n {
        k as int
    } else {
        0
    }
}

/// The zones among the first `k` of `zs` that hold no item yet, in order.
pub open spec fn open_zones(zs: Seq<usize>, held: Seq<bool>, k: int) -> Seq<usize>
    decreases k,
{
    if k <= 0 {
        Seq::empty()
    } else {
        let prev = open_zones(zs, held, k - 1);
        if !held[zs[k - 1] as int] {
            prev.push(zs[k - 1])
        } else {
            prev
        }
    }
}

/// The loot zones of each depth from 0 to `max_depth`.
pub open spec fn loot_by_depth(zm: &ZoneMap, indoor: Seq<Seq<Point>>, depths: Seq<usize>, max_depth: int) -> Seq<Seq<usize>> {
    Seq::new((max_depth + 1) as nat, |d: int| zones_at_depth(zm, indoor, depths, d, zm.zones@.len() as int))
}

/// One round of the loot pass from `st` (the items placed, which zones
/// hold one, how many draws were used), taking its draws from `draws` in
/// turn: a pool entry, a jitter in `-1..4`, for a shallow aim on a map at
/// least 4 deep a roll in `0..50` and, 49 times in 50, an aim in
/// `4..=max_depth`; then, when a depth at least the item's rarity is open,
/// the nearest such depth takes the item, in the zone and on the spawn point
/// the next two draws pick. Each draw is an offset into its range (see
/// [`offset_in`]).
pub open spec fn loot_round(
    w: Seq<(usize, u8)>,
    indoor: Seq<Seq<Point>>,
    bd: Seq<Seq<usize>>,
    max_depth: int,
    st: (Seq<LootPlacement>, Seq<bool>, int),
    draws: Seq<usize>,
) -> (Seq<LootPlacement>, Seq<bool>, int) {
    let (placed, held, at) = st;
    let entry = w[offset_in(draws[at], w.len() as int)];
    let jitter = offset_in(draws[at + 1], 5) - 1;
    let aim = loot_target(entry.1, max_depth, jitter);
    let reroll = aim < 4 && max_depth >= 4;
    let roll = offset_in(draws[at + 2], 50);
    let target = if reroll && roll < 49 {
        4 + offset_in(draws[at + 3], max_depth - 3)
    } else {
        aim
    };
    let at2 = if !reroll {
        at + 2
    } else if roll < 49 {
        at + 4
    } else {
        at + 3
    };
    match nearest_open_depth_upto(bd, held, target, entry.1 as int, bd.len() as int) {
        None => (placed, held, at2),
        Some(depth) => {
            let avail = open_zones(bd[depth], held, bd[depth].len() as int);
            let zi = avail[offset_in(draws[at2], avail.len() as int)];
            let spawns = indoor[zi as int];
            let pos = spawns[offset_in(draws[at2 + 1], spawns.len() as int)];
            (placed.push(LootPlacement { pool_index: entry.0, pos }), held.update(zi as int, true), at2 + 2)
        },
    }
}

/// The state of the loot pass after `r` rounds.
pub open spec fn loot_state(
    w: Seq<(usize, u8)>,
    indoor: Seq<Seq<Point>>,
    bd: Seq<Seq<usize>>,
    max_depth: int,
    nz: int,
    draws: Seq<usize>,
    r: int,
) -> (Seq<LootPlacement>, Seq<bool>, int)
    decreases r,
{
    if r <= 0 {
        (Seq::empty(), Seq::new(nz as nat, |z: int| false), 0)
    } else {
        loot_round(w, indoor, bd, max_depth, loot_state(w, indoor, bd, max_depth, nz, draws, r - 1), draws)
    }
}

/// The loot the pass plans for the given draws: nothing when the pool is
/// empty or no zone can take loot, else what [`TOTAL_LOOT`] rounds place.
pub open spec fn spec_plan_loot(
    m: &TileMap,
    zm: &ZoneMap,
    sm: &SpawnMap,
    depths: Seq<usize>,
    rarities: Seq<u8>,
    draws: Seq<usize>,
) -> Seq<LootPlacement> {
    let w = weighted_pool(rarities, rarities.len() as int);
    let indoor = indoor_spawns(m, zm, sm, depths);
    let nz = zm.zones@.len() as int;
    let max_depth = max_loot_depth(zm, indoor, depths, nz);
    if w.len() == 0 || loot_zones_upto(zm, indoor, depths, nz).len() == 0 {
        Seq::empty()
    } else {
        loot_state(w, indoor, loot_by_depth(zm, indoor, depths, max_depth), max_depth, nz, draws, TOTAL_LOOT as int).0
    }
}

/// A round reads only the draws it uses: two sequences of draws that agree
/// there give the same round.
proof fn lemma_round_reads(
    w: Seq<(usize, u8)>,
    indoor: Seq<Seq<Point>>,
    bd: Seq<Seq<usize>>,
    max_depth: int,
    st: (Seq<LootPlacement>, Seq<bool>, int),
    a: Seq<usize>,
    b: Seq<usize>,
)
    requires
        forall|k: int| st.2 <= k < loot_round(w, indoor, bd, max_depth, st, a).2 ==> a[k] == b[k],
    ensures
        loot_round(w, indoor, bd, max_depth, st, a) == loot_round(w, indoor, bd, max_depth, st, b),
        st.2 + 2 <= loot_round(w, indoor, bd, max_depth, st, a).2 <= st.2 + 6,
{
    let at = st.2;
    let out = loot_round(w, indoor, bd, max_depth, st, a).2;
    assert(at + 2 <= out);
    assert(a[at] == b[at]);
    assert(a[at + 1] == b[at + 1]);
    let entry = w[offset_in(a[at], w.len() as int)];
    let aim = loot_target(entry.1, max_depth, offset_in(a[at + 1], 5) - 1);
    let reroll = aim < 4 && max_depth >= 4;
    if reroll {
        assert(a[at + 2] == b[at + 2]);
        if offset_in(a[at + 2], 50) < 49 {
            assert(a[at + 3] == b[at + 3]);
        }
    }
    let at2 = if !reroll {
        at + 2
    } else if offset_in(a[at + 2], 50) < 49 {
        at + 4
    } else {
        at + 3
    };
    if out > at2 {
        assert(a[at2] == b[at2]);
        assert(a[at2 + 1] == b[at2 + 1]);
    }
}

/// The state after `r` rounds reads only the draws it used, at most six a
/// round.
proof fn lemma_state_reads(
    w: Seq<(usize, u8)>,
    indoor: Seq<Seq<Point>>,
    bd: Seq<Seq<usize>>,
    max_depth: int,
    nz: int,
    a: Seq<usize>,
    b: Seq<usize>,
    r: int,
)
    requires
        0 <= r,
        forall|k: int| 0 <= k < loot_state(w, indoor, bd, max_depth, nz, a, r).2 ==> a[k] == b[k],
    ensures
        loot_state(w, indoor, bd, max_depth, nz, a, r) == loot_state(w, indoor, bd, max_depth, nz, b, r),
        0 <= loot_state(w, indoor, bd, max_depth, nz, a, r).2 <= 6 * r,
    decreases r,
{
    if r > 0 {
        let prev = loot_state(w, indoor, bd, max_depth, nz, a, r - 1);
        lemma_state_used(w, indoor, bd, max_depth, nz, a, r - 1);
        lemma_round_reads(w, indoor, bd, max_depth, prev, a, a);
        lemma_state_reads(w, indoor, bd, max_depth, nz, a, b, r - 1);
        lemma_round_reads(w, indoor, bd, max_depth, prev, a, b);
    }
}

/// The draws used after `r` rounds number at most six a round.
proof fn lemma_state_used(
    w: Seq<(usize, u8)>,
    indoor: Seq<Seq<Point>>,
    bd: Seq<Seq<usize>>,
    max_depth: int,
    nz: int,
    a: Seq<usize>,
    r: int,
)
    requires
        0 <= r,
    ensures
        0 <= loot_state(w, indoor, bd, max_depth, nz, a, r).2 <= 6 * r,
    decreases r,
{
    if r > 0 {
        lemma_state_used(w, indoor, bd, max_depth, nz, a, r - 1);
        lemma_round_reads(w, indoor, bd, max_depth, loot_state(w, indoor, bd, max_depth, nz, a, r - 1), a, a);
    }
}

/// Where the loot pass takes its random draws from: the generator, or a
/// list of draws made beforehand.
enum DrawSource<'a> {
    Rng(&'a mut rltk::RandomNumberGenerator),
    Given(&'a Vec<usize>),
}

/// The draw at position `at` for a range of `n` values, as an offset into
/// that range: from the generator, one below `n`; from the list, the listed
/// value as it stands.
fn next_draw(src: &mut DrawSource, at: usize, n: usize) -> (r: usize)
    requires
        n > 0,
        *old(src) is Given ==> at < old(src)->Given_0@.len(),
    ensures
        *old(src) is Given ==> r == old(src)->Given_0@[at as int] && *final(src) == *old(src),
        *old(src) is Rng ==> r < n && (*final(src) is Rng),
{
    match src {
        DrawSource::Rng(rng) => rng_range_usize(rng, 0, n),
        DrawSource::Given(g) => g[at],
    }
}

/// Plans the loot of a map. Each of [`TOTAL_LOOT`] draws picks an entry of
/// the weighted pool (see [`weighted_pool`]; `rarities` gives each pool
/// entry's rarity), aims for a depth a third of the deepest loot depth per
/// rarity level plus a jitter in `-1..4` (and, for shallow aims on a map at
/// least 4 deep, 49 times in 50 a random depth from 4 to the deepest), takes the open
/// depth nearest that aim among those at least as deep as the item's rarity
/// (an item's rarity is the least zone depth it may spawn at; with no such
/// depth open the draw places nothing), a random zone of that depth without
/// an item, and a random floor spawn point of that zone. Whatever is drawn,
/// every item goes to a Floor spawn point of a zone reached from the start
/// and at least as deep as its rarity, at most one item per zone, and every
/// item comes from the weighted pool; unless the pool is empty, and where no
/// rarity in the pool exceeds the depth of a loot zone, every such zone gets
/// an item, up to [`TOTAL_LOOT`] items.
///
/// What comes out is what the rounds place for the draws the generator gave
/// (see [`spec_plan_loot`]); every sequence of draws there stands for draws
/// the generator can give, as an out-of-range draw counts as the first value
/// of its range.
pub fn plan_loot(
    m: &TileMap,
    zone_map: &ZoneMap,
    spawn_map: &SpawnMap,
    depths: &Vec<usize>,
    rarities: &Vec<u8>,
    rng: &mut rltk::RandomNumberGenerator,
) -> (r: Vec<LootPlacement>)
    requires
        loot_inputs_ok(m, zone_map, spawn_map, depths@),
    ensures
        exists|draws: Seq<usize>| r@ == spec_plan_loot(m, zone_map, spawn_map, depths@, rarities@, draws),
        r@.len() <= TOTAL_LOOT,
        exists|zones: Seq<usize>|
            placements_ok(r@, zones, rarities@, indoor_spawns(m, zone_map, spawn_map, depths@), depths@, zone_map),
        weighted_pool(rarities@, rarities@.len() as int).len() == 0 ==> r@.len() == 0,
        r@.len() <= loot_zones_upto(
            zone_map,
            indoor_spawns(m, zone_map, spawn_map, depths@),
            depths@,
            zone_map.zones@.len() as int,
        ).len(),
        weighted_pool(rarities@, rarities@.len() as int).len() > 0 && rarity_never_binds(
            rarities@,
            indoor_spawns(m, zone_map, spawn_map, depths@),
            depths@,
            zone_map,
        ) ==> r@.len() == loot_count(
            loot_zones_upto(
                zone_map,
                indoor_spawns(m, zone_map, spawn_map, depths@),
                depths@,
                zone_map.zones@.len() as int,
            ).len() as int,
        ),
{
    let mut src = DrawSource::Rng(rng);
    let (r, Ghost(draws)) = loot_pass(m, zone_map, spawn_map, depths, rarities, &mut src);
    r
}

/// The loot pass of [`plan_loot`] with its random draws given in advance:
/// `draws` lists, in the order the pass asks for them, each draw as an
/// offset into its range (see [`loot_round`]); at most six are used a round.
pub fn loot_from_draws(
    m: &TileMap,
    zone_map: &ZoneMap,
    spawn_map: &SpawnMap,
    depths: &Vec<usize>,
    rarities: &Vec<u8>,
    draws: &Vec<usize>,
) -> (r: Vec<LootPlacement>)
    requires
        loot_inputs_ok(m, zone_map, spawn_map, depths@),
        draws@.len() >= 6 * TOTAL_LOOT,
    ensures
        r@ == spec_plan_loot(m, zone_map, spawn_map, depths@, rarities@, draws@),
        r@.len() <= TOTAL_LOOT,
        exists|zones: Seq<usize>|
            placements_ok(r@, zones, rarities@, indoor_spawns(m, zone_map, spawn_map, depths@), depths@, zone_map),
        weighted_pool(rarities@, rarities@.len() as int).len() == 0 ==> r@.len() == 0,
        r@.len() <= loot_zones_upto(
            zone_map,
            indoor_spawns(m, zone_map, spawn_map, depths@),
            depths@,
            zone_map.zones@.len() as int,
        ).len(),
        weighted_pool(rarities@, rarities@.len() as int).len() > 0 && rarity_never_binds(
            rarities@,
            indoor_spawns(m, zone_map, spawn_map, depths@),
            depths@,
            zone_map,
        ) ==> r@.len() == loot_count(
            loot_zones_upto(
                zone_map,
                indoor_spawns(m, zone_map, spawn_map, depths@),
                depths@,
                zone_map.zones@.len() as int,
            ).len() as int,
        ),
{
    let mut src = DrawSource::Given(draws);
    let (r, Ghost(used)) = loot_pass(m, zone_map, spawn_map, depths, rarities, &mut src);
    r
}

/// The loot pass, drawing from `src`; also hands back the draws it used (a
/// list given in advance is handed back whole).
#[verifier::rlimit(100)]
fn loot_pass(
    m: &TileMap,
    zone_map: &ZoneMap,
    spawn_map: &SpawnMap,
    depths: &Vec<usize>,
    rarities: &Vec<u8>,
    src: &mut DrawSource,
) -> (r: (Vec<LootPlacement>, Ghost<Seq<usize>>))
    requires
        loot_inputs_ok(m, zone_map, spawn_map, depths@),
        *old(src) is Given ==> old(src)->Given_0@.len() >= 6 * TOTAL_LOOT,
    ensures
        r.0@ == spec_plan_loot(m, zone_map, spawn_map, depths@, rarities@, r.1@),
        *old(src) is Given ==> r.1@ == old(src)->Given_0@,
        r.0@.len() <= TOTAL_LOOT,
        exists|zones: Seq<usize>|
            placements_ok(r.0@, zones, rarities@, indoor_spawns(m, zone_map, spawn_map, depths@), depths@, zone_map),
        weighted_pool(rarities@, rarities@.len() as int).len() == 0 ==> r.0@.len() == 0,
        r.0@.len() <= loot_zones_upto(
            zone_map,
            indoor_spawns(m, zone_map, spawn_map, depths@),
            depths@,
            zone_map.zones@.len() as int,
        ).len(),
        weighted_pool(rarities@, rarities@.len() as int).len() > 0 && rarity_never_binds(
            rarities@,
            indoor_spawns(m, zone_map, spawn_map, depths@),
            depths@,
            zone_map,
        ) ==> r.0@.len() == loot_count(
            loot_zones_upto(
                zone_map,
                indoor_spawns(m, zone_map, spawn_map, depths@),
                depths@,
                zone_map.zones@.len() as int,
            ).len() as int,
        ),
{
    let ghost mut ds: Seq<usize> = if *src is Given {
        src->Given_0@
    } else {
        Seq::empty()
    };
    let ghost indoor_g = indoor_spawns(m, zone_map, spawn_map, depths@);
    let weighted = build_weighted_pool(rarities);
    proof {
        assert(rarities@.len() == rarities.len());
        lemma_weighted_pool(rarities@, rarities@.len() as int);
    }
    if weighted.len() == 0 {
        let ghost empty_z = Seq::<usize>::empty();
        assert(placements_ok(Seq::<LootPlacement>::empty(), empty_z, rarities@, indoor_g, depths@, zone_map));
        let none: Vec<LootPlacement> = Vec::new();
        assert(none@ =~= spec_plan_loot(m, zone_map, spawn_map, depths@, rarities@, ds));
        return (none, Ghost(ds));
    }
    let nz = zone_map.zones.len();
    let indoor = indoor_spawns_of(m, zone_map, spawn_map, depths);
    let ghost ind = Seq::new(indoor@.len(), |z: int| indoor@[z]@);
    assert(ind =~= indoor_g);
    // The deepest depth holding a loot zone.
    let mut max_depth: usize = 0;
    let mut zi: usize = 0;
    while zi < nz
        invariant
            loot_inputs_ok(m, zone_map, spawn_map, depths@),
            nz == zone_map.zones@.len(),
            indoor@.len() == nz,
            ind == indoor_g,
            ind == Seq::new(indoor@.len(), |z: int| indoor@[z]@),
            zi <= nz,
            max_depth == max_loot_depth(zone_map, ind, depths@, zi as int),
        decreases nz - zi,
    {
        proof {
            lemma_max_loot_depth_bound(zone_map, ind, depths@, zi as int);
        }
        if depths[zi] != usize::MAX && indoor[zi].len() > 0 && depths[zi] > max_depth {
            max_depth = depths[zi];
        }
        zi = zi + 1;
    }
    proof {
        lemma_max_loot_depth_bound(zone_map, ind, depths@, nz as int);
        lemma_loot_zones(zone_map, ind, depths@, nz as int);
    }
    let ghost loot = loot_zones_upto(zone_map, ind, depths@, nz as int);
    // Loot zones by depth.
    let mut by_depth: Vec<Vec<usize>> = Vec::new();
    let mut any = false;
    let mut d: usize = 0;
    while d <= max_depth
        invariant
            loot_inputs_ok(m, zone_map, spawn_map, depths@),
            nz == zone_map.zones@.len(),
            indoor@.len() == nz,
            ind == Seq::new(indoor@.len(), |z: int| indoor@[z]@),
            max_depth < usize::MAX,
            d <= max_depth + 1,
            by_depth@.len() == d,
            forall|d2: int| 0 <= d2 < d ==> (#[trigger] by_depth@[d2])@ == zones_at_depth(zone_map, ind, depths@, d2, nz as int),
            forall|d2: int, j: int| 0 <= d2 < d && 0 <= j < by_depth@[d2]@.len() ==> (#[trigger] by_depth@[d2]@[j]) < nz
                && loot_zone(zone_map, ind, depths@, by_depth@[d2]@[j] as int) && depths@[by_depth@[d2]@[j] as int] == d2,
            any == exists|d2: int| 0 <= d2 < d && (#[trigger] by_depth@[d2])@.len() > 0,
        decreases max_depth + 1 - d,
    {
        let mut zs: Vec<usize> = Vec::new();
        let mut z: usize = 0;
        while z < nz
            invariant
                loot_inputs_ok(m, zone_map, spawn_map, depths@),
                nz == zone_map.zones@.len(),
                indoor@.len() == nz,
                ind == Seq::new(indoor@.len(), |z2: int| indoor@[z2]@),
                z <= nz,
                zs@ == zones_at_depth(zone_map, ind, depths@, d as int, z as int),
                forall|j: int| 0 <= j < zs@.len() ==> (#[trigger] zs@[j]) < z && loot_zone(zone_map, ind, depths@, zs@[j] as int)
                    && depths@[zs@[j] as int] == d,
            decreases nz - z,
        {
            if depths[z] != usize::MAX && indoor[z].len() > 0 && depths[z] == d {
                zs.push(z);
            }
            z = z + 1;
        }
        if zs.len() > 0 {
            any = true;
        }
        let ghost before = by_depth@;
        by_depth.push(zs);
        proof {
            assert forall|d2: int| 0 <= d2 < d implies by_depth@[d2] == before[d2] by {}
            if by_depth@[d as int]@.len() > 0 {
                assert(0 <= d && (by_depth@[d as int])@.len() > 0);
            }
        }
        d = d + 1;
    }
    if !any {
        proof {
            if loot.len() > 0 {
                let z = loot[0] as int;
                lemma_zones_at_depth_complete(zone_map, ind, depths@, z, nz as int);
                assert(by_depth@[depths@[z] as int]@.len() > 0);
            }
        }
        let ghost empty_z = Seq::<usize>::empty();
        assert(placements_ok(Seq::<LootPlacement>::empty(), empty_z, rarities@, indoor_g, depths@, zone_map));
        let none: Vec<LootPlacement> = Vec::new();
        assert(none@ =~= spec_plan_loot(m, zone_map, spawn_map, depths@, rarities@, ds));
        return (none, Ghost(ds));
    }
    let mut has_item: Vec<bool> = Vec::new();
    let mut z: usize = 0;
    while z < nz
        invariant
            z <= nz,
            has_item@ == Seq::new(z as nat, |k: int| false),
        decreases nz - z,
    {
        has_item.push(false);
        z = z + 1;
        assert(has_item@ =~= Seq::new(z as nat, |k: int| false));
    }
    let mut placed: Vec<LootPlacement> = Vec::new();
    let ghost mut zones_used: Seq<usize> = Seq::empty();
    let ghost bd = loot_by_depth(zone_map, ind, depths@, max_depth as int);
    proof {
        assert(Seq::new(by_depth@.len(), |d2: int| by_depth@[d2]@) =~= bd);
        assert(has_item@ =~= Seq::new(nz as nat, |z2: int| false));
    }
    let mut d: usize = 0;
    let mut round: usize = 0;
    while round < TOTAL_LOOT
        invariant
            loot_inputs_ok(m, zone_map, spawn_map, depths@),
            nz == zone_map.zones@.len(),
            indoor@.len() == nz,
            ind == Seq::new(indoor@.len(), |z2: int| indoor@[z2]@),
            ind == indoor_g,
            weighted@ == weighted_pool(rarities@, rarities@.len() as int),
            weighted@.len() > 0,
            forall|i: int| 0 <= i < weighted@.len() ==> (#[trigger] weighted@[i]).0 < rarities@.len() && rarities@[weighted@[i].0 as int] == weighted@[i].1 && weighted@[i].1 < 4,
            max_depth < usize::MAX,
            by_depth@.len() == max_depth + 1,
            forall|d2: int, j: int| 0 <= d2 < by_depth@.len() && 0 <= j < by_depth@[d2]@.len() ==> (#[trigger] by_depth@[d2]@[j]) < nz
                && loot_zone(zone_map, ind, depths@, by_depth@[d2]@[j] as int) && depths@[by_depth@[d2]@[j] as int] == d2,
            has_item@.len() == nz,
            round <= TOTAL_LOOT,
            placed@.len() <= round,
            placements_ok(placed@, zones_used, rarities@, ind, depths@, zone_map),
            forall|i: int| 0 <= i < zones_used.len() ==> has_item@[#[trigger] zones_used[i] as int],
            forall|z2: int| 0 <= z2 < nz && #[trigger] has_item@[z2] ==> zones_used.contains(z2 as usize),
            forall|d2: int| 0 <= d2 < by_depth@.len() ==> (#[trigger] by_depth@[d2])@ == zones_at_depth(
                zone_map,
                ind,
                depths@,
                d2,
                nz as int,
            ),
            forall|zi: int| 0 <= zi < nz && loot_zone(zone_map, ind, depths@, zi) ==> #[trigger] depths@[zi] <= max_depth,
            loot == loot_zones_upto(zone_map, ind, depths@, nz as int),
            loot.no_duplicates(),
            forall|j: int| 0 <= j < loot.len() ==> (#[trigger] loot[j]) < nz && loot_zone(zone_map, ind, depths@, loot[j] as int),
            forall|z2: int| 0 <= z2 < nz && #[trigger] loot_zone(zone_map, ind, depths@, z2) ==> loot.contains(z2 as usize),
            placed@.len() <= loot.len(),
            rarity_never_binds(rarities@, ind, depths@, zone_map) ==> placed@.len() == (if round <= loot.len() {
                round as int
            } else {
                loot.len() as int
            }),
            max_depth == max_loot_depth(zone_map, ind, depths@, nz as int),
            bd == loot_by_depth(zone_map, ind, depths@, max_depth as int),
            bd == Seq::new(by_depth@.len(), |d2: int| by_depth@[d2]@),
            (placed@, has_item@, d as int) == loot_state(weighted@, ind, bd, max_depth as int, nz as int, ds, round as int),
            d <= 6 * round,
            *src is Given ==> ds == src->Given_0@ && ds.len() >= 6 * TOTAL_LOOT,
            *src is Rng ==> ds.len() == d,
            *old(src) is Given ==> *src == *old(src),
            *old(src) is Rng ==> *src is Rng,
        decreases TOTAL_LOOT - round,
    {
        let ghost ds0 = ds;
        let ghost st0 = (placed@, has_item@, d as int);
        let k0 = next_draw(src, d, weighted.len());
        proof {
            if *src is Rng {
                ds = ds.push(k0);
            }
            assert(ds[d as int] == k0);
        }
        let pick = if k0 < weighted.len() { k0 } else { 0 };
        let (pool_index, rarity) = weighted[pick];
        proof {
            assert(weighted@[pick as int].0 < rarities@.len());
            assert(rarity < 4);
        }
        let k1 = next_draw(src, d + 1, 5);
        proof {
            if *src is Rng {
                ds = ds.push(k1);
            }
            assert(ds[d + 1] == k1);
            assert(ds[d as int] == k0);
        }
        let jitter: i32 = (if k1 < 5 { k1 } else { 0 }) as i32 - 1;
        let mut target = loot_aim(rarity, max_depth, jitter);
        let mut used: usize = 2;
        if target < 4 && max_depth >= 4 {
            let k2 = next_draw(src, d + 2, 50);
            proof {
                if *src is Rng {
                    ds = ds.push(k2);
                }
                assert(ds[d + 2] == k2);
                assert(ds[d as int] == k0 && ds[d + 1] == k1);
            }
            used = 3;
            let roll = if k2 < 50 { k2 } else { 0 };
            if roll < 49 {
                let k3 = next_draw(src, d + 3, max_depth - 3);
                proof {
                    if *src is Rng {
                        ds = ds.push(k3);
                    }
                    assert(ds[d + 3] == k3);
                    assert(ds[d as int] == k0 && ds[d + 1] == k1 && ds[d + 2] == k2);
                }
                used = 4;
                target = 4 + if k3 < max_depth - 3 { k3 } else { 0 };
            }
        }
        proof {
            lemma_state_reads(weighted@, ind, bd, max_depth as int, nz as int, ds0, ds, round as int);
            let st = loot_round(weighted@, ind, bd, max_depth as int, st0, ds);
            assert(weighted@[offset_in(ds[d as int], weighted@.len() as int)] == (pool_index, rarity));
        }
        let depth = match nearest_open_depth(&by_depth, &has_item, target, rarity as usize) {
            Some(dd) => dd,
            None => {
                proof {
                    assert(loot_state(weighted@, ind, bd, max_depth as int, nz as int, ds, round + 1) == (
                        placed@,
                        has_item@,
                        d + used,
                    ));
                    if rarity_never_binds(rarities@, ind, depths@, zone_map) && placed@.len() < loot.len() {
                        assert(zones_used.no_duplicates());
                        assert forall|j: int| 0 <= j < zones_used.len() implies loot.contains(#[trigger] zones_used[j]) by {
                            assert(placed@[j].pool_index < rarities@.len());
                            assert(loot_zone(zone_map, ind, depths@, zones_used[j] as int));
                        }
                        if forall|j: int| 0 <= j < loot.len() ==> zones_used.contains(#[trigger] loot[j]) {
                            lemma_covered_shorter(loot, zones_used);
                        }
                        let j = choose|j: int| 0 <= j < loot.len() && !zones_used.contains(#[trigger] loot[j]);
                        let z = loot[j] as int;
                        assert(!has_item@[z]) by {
                            if has_item@[z] {
                                let i = choose|i: int| 0 <= i < zones_used.len() && zones_used[i] == z as usize;
                            }
                        }
                        lemma_zones_at_depth_complete(zone_map, ind, depths@, z, nz as int);
                        let dz = depths@[z] as int;
                        let bd = Seq::new(by_depth@.len(), |d2: int| by_depth@[d2]@);
                        assert(bd[dz] == zones_at_depth(zone_map, ind, depths@, dz, nz as int));
                        let w = choose|w: int| 0 <= w < bd[dz].len() && bd[dz][w] == z as usize;
                        assert(depth_open(bd, has_item@, dz));
                        assert(rarities@[pool_index as int] < 4);
                        assert(loot_zone(zone_map, ind, depths@, z));
                        lemma_open_depth_found(bd, has_item@, target as int, rarity as int, dz, by_depth@.len() as int);
                    }
                }
                d = d + used;
                round = round + 1;
                continue;
            },
        };
        proof {
            let bd = Seq::new(by_depth@.len(), |d2: int| by_depth@[d2]@);
            lemma_nearest_open_is_open(bd, has_item@, target as int, rarity as int, by_depth@.len() as int);
            assert(depth_open(bd, has_item@, depth as int));
            let w = choose|w: int| 0 <= w < bd[depth as int].len() && !has_item@[#[trigger] bd[depth as int][w] as int];
            let z = bd[depth as int][w];
            assert(by_depth@[depth as int]@[w] == z);
            assert(!zones_used.contains(z)) by {
                if zones_used.contains(z) {
                    let i = choose|i: int| 0 <= i < zones_used.len() && zones_used[i] == z;
                }
            }
            assert forall|j: int| 0 <= j < zones_used.len() implies loot.contains(#[trigger] zones_used[j]) by {
                assert(placed@[j].pool_index < rarities@.len());
                assert(loot_zone(zone_map, ind, depths@, zones_used[j] as int));
            }
            lemma_missing_shorter(zones_used, loot, z);
        }
        let zs = &by_depth[depth];
        let mut available: Vec<usize> = Vec::new();
        let mut j: usize = 0;
        while j < zs.len()
            invariant
                *zs == by_depth@[depth as int],
                depth < by_depth@.len(),
                forall|d2: int, jj: int| 0 <= d2 < by_depth@.len() && 0 <= jj < by_depth@[d2]@.len() ==> (#[trigger] by_depth@[d2]@[jj]) < nz
                    && loot_zone(zone_map, ind, depths@, by_depth@[d2]@[jj] as int) && depths@[by_depth@[d2]@[jj] as int] == d2,
                has_item@.len() == nz,
                j <= zs@.len(),
                forall|k: int| 0 <= k < available@.len() ==> (#[trigger] available@[k]) < nz && !has_item@[available@[k] as int] && loot_zone(zone_map, ind, depths@, available@[k] as int)
                    && depths@[available@[k] as int] == depth,
                (exists|jj: int| 0 <= jj < j && !has_item@[#[trigger] zs@[jj] as int]) ==> available@.len() > 0,
                available@ == open_zones(zs@, has_item@, j as int),
            decreases zs@.len() - j,
        {
            let zz = zs[j];
            if !has_item[zz] {
                available.push(zz);
            }
            j = j + 1;
        }
        let k4 = next_draw(src, d + used, available.len());
        proof {
            if *src is Rng {
                ds = ds.push(k4);
            }
            assert(ds[d + used] == k4);
        }
        let ai = if k4 < available.len() { k4 } else { 0 };
        let zi = available[ai];
        proof {
            assert(!has_item@[zi as int]);
        }
        let spawns = &indoor[zi];
        proof {
            assert(ind[zi as int] == spawns@);
        }
        let k5 = next_draw(src, d + used + 1, spawns.len());
        proof {
            if *src is Rng {
                ds = ds.push(k5);
            }
            assert(ds[d + used + 1] == k5);
            assert(ds[d + used] == k4);
        }
        let si = if k5 < spawns.len() { k5 } else { 0 };
        let pos = spawns[si];
        let ghost old_used = zones_used;
        let ghost old_placed = placed@;
        let ghost old_has = has_item@;
        placed.push(LootPlacement { pool_index, pos });
        has_item.set(zi, true);
        proof {
            zones_used = zones_used.push(zi);
            assert(!old_used.contains(zi)) by {
                if old_used.contains(zi) {
                    let k = choose|k: int| 0 <= k < old_used.len() && old_used[k] == zi;
                    assert(old_has[old_used[k] as int]);
                }
            }
            assert forall|i: int| 0 <= i < zones_used.len() implies has_item@[#[trigger] zones_used[i] as int] by {
                if i < old_used.len() {
                    assert(old_placed[i].pool_index < rarities@.len());
                    assert(old_used[i] < nz);
                    assert(old_has[old_used[i] as int]);
                    assert(zones_used[i] == old_used[i]);
                }
            }
            assert forall|z2: int| 0 <= z2 < nz && #[trigger] has_item@[z2] implies zones_used.contains(z2 as usize) by {
                if z2 == zi as int {
                    assert(zones_used[old_used.len() as int] == zi);
                } else {
                    assert(old_has[z2]);
                    let k = choose|k: int| 0 <= k < old_used.len() && old_used[k] == z2 as usize;
                    assert(zones_used[k] == z2 as usize);
                }
            }
            assert forall|a: int, b: int| 0 <= a < b < zones_used.len() implies zones_used[a] != zones_used[b] by {
                if b == old_used.len() as int {
                    assert(old_used[a] != zi) by {
                        if old_used[a] == zi {
                            assert(old_used.contains(zi));
                        }
                    }
                }
            }
            assert forall|i: int| 0 <= i < placed@.len() implies {
                &&& (#[trigger] placed@[i]).pool_index < rarities@.len()
                &&& rarities@[placed@[i].pool_index as int] < 4
                &&& zones_used[i] < zone_map.zones@.len()
                &&& loot_zone(zone_map, ind, depths@, zones_used[i] as int)
                &&& depths@[zones_used[i] as int] >= rarities@[placed@[i].pool_index as int]
                &&& ind[zones_used[i] as int].contains(placed@[i].pos)
            } by {
                if i < old_placed.len() {
                    assert(placed@[i] == old_placed[i]);
                    assert(zones_used[i] == old_used[i]);
                } else {
                    assert(ind[zi as int].contains(pos));
                }
            }
        }
        proof {
            lemma_state_reads(weighted@, ind, bd, max_depth as int, nz as int, ds0, ds, round as int);
            assert(loot_state(weighted@, ind, bd, max_depth as int, nz as int, ds, round + 1) == (
                placed@,
                has_item@,
                d + used + 2,
            ));
        }
        d = d + used + 2;
        round = round + 1;
    }
    (placed, Ghost(ds))
}


// ---------------------------------------------------------------------------
// Locked doors
// ---------------------------------------------------------------------------

/// Key colour of every door in the outer wall (gold).
pub const OUTER_WALL_COLOR: usize = 15;
/// Key colour of every door in the inner wall (silver).
pub const INNER_WALL_COLOR: usize = 13;

/// The `i`-th colour left for regular doors: the key colours in order, the
/// two wall colours taken out.
pub open spec fn regular_color(i: int) -> int {
    if i < 13 {
        i
    } else if i == 13 {
        14
    } else {
        i + 2
    }
}

/// How many colours below `c` are left for regular doors.
pub open spec fn regular_count_below(c: int) -> int {
    if c <= 13 {
        c
    } else if c <= 15 {
        c - 1
    } else {
        c - 2
    }
}

/// The colours of `0..n_colors` other than the two wall colours, in order.
fn regular_colors(n_colors: usize) -> (r: Vec<usize>)
    requires
        n_colors >= 16,
    ensures
        r@.len() == n_colors - 2,
        forall|i: int| 0 <= i < r@.len() ==> r@[i] == regular_color(i),
{
    let mut r: Vec<usize> = Vec::new();
    let mut c: usize = 0;
    while c < n_colors
        invariant
            c <= n_colors,
            r@.len() == regular_count_below(c as int),
            forall|i: int| 0 <= i < r@.len() ==> r@[i] == regular_color(i),
        decreases n_colors - c,
    {
        if c != OUTER_WALL_COLOR && c != INNER_WALL_COLOR {
            r.push(c);
        }
        c = c + 1;
    }
    r
}

/// The shallower depth of the two zones a boundary joins.
pub open spec fn boundary_depth(b: ZoneBoundary, depths: Seq<usize>) -> usize {
    if depths[b.zone_a as int] <= depths[b.zone_b as int] {
        depths[b.zone_a as int]
    } else {
        depths[b.zone_b as int]
    }
}

/// Boundary `a` comes before boundary `b` when it is shallower, or as
/// shallow and listed first.
pub open spec fn boundary_before(bs: Seq<ZoneBoundary>, depths: Seq<usize>, a: int, b: int) -> bool {
    boundary_depth(bs[a], depths) < boundary_depth(bs[b], depths) || (boundary_depth(bs[a], depths)
        == boundary_depth(bs[b], depths) && a < b)
}

/// `order` lists the boundaries `0..n` shallowest first, keeping the listed
/// order among boundaries of equal depth.
pub open spec fn depth_order(bs: Seq<ZoneBoundary>, depths: Seq<usize>, order: Seq<usize>, n: int) -> bool {
    &&& order.len() == n
    &&& order.no_duplicates()
    &&& forall|k: int| 0 <= k < n ==> #[trigger] order[k] < n
    &&& forall|k: int, l: int| 0 <= k < l < n ==> boundary_before(bs, depths, #[trigger] order[k] as int, #[trigger] order[l] as int)
}

/// The boundaries in depth order (see [`depth_order`]).
fn sort_boundaries_by_depth(zone_map: &ZoneMap, depths: &Vec<usize>) -> (order: Vec<usize>)
    requires
        forall|b: int| 0 <= b < zone_map.boundaries@.len() ==> (#[trigger] zone_map.boundaries@[b]).zone_a < depths@.len()
            && zone_map.boundaries@[b].zone_b < depths@.len(),
    ensures
        depth_order(zone_map.boundaries@, depths@, order@, zone_map.boundaries@.len() as int),
{
    let ghost bs = zone_map.boundaries@;
    let n = zone_map.boundaries.len();
    let mut order: Vec<usize> = Vec::new();
    let mut i: usize = 0;
    while i < n
        invariant
            bs == zone_map.boundaries@,
            n == bs.len(),
            forall|b: int| 0 <= b < bs.len() ==> (#[trigger] bs[b]).zone_a < depths@.len() && bs[b].zone_b < depths@.len(),
            i <= n,
            depth_order(bs, depths@, order@, i as int),
        decreases n - i,
    {
        let bi = &zone_map.boundaries[i];
        let key_i = if depths[bi.zone_a] <= depths[bi.zone_b] { depths[bi.zone_a] } else { depths[bi.zone_b] };
        let mut p: usize = 0;
        while p < order.len()
            invariant
                bs == zone_map.boundaries@,
                n == bs.len(),
                forall|b: int| 0 <= b < bs.len() ==> (#[trigger] bs[b]).zone_a < depths@.len() && bs[b].zone_b < depths@.len(),
                i < n,
                key_i == boundary_depth(bs[i as int], depths@),
                depth_order(bs, depths@, order@, i as int),
                p <= order@.len(),
                forall|k: int| 0 <= k < p ==> boundary_before(bs, depths@, #[trigger] order@[k] as int, i as int),
            ensures
                p <= order@.len(),
                forall|k: int| 0 <= k < p ==> boundary_before(bs, depths@, #[trigger] order@[k] as int, i as int),
                p < order@.len() ==> boundary_depth(bs[order@[p as int] as int], depths@) > key_i,
            decreases order@.len() - p,
        {
            let bo = &zone_map.boundaries[order[p]];
            let key_o = if depths[bo.zone_a] <= depths[bo.zone_b] { depths[bo.zone_a] } else { depths[bo.zone_b] };
            if key_o > key_i {
                break;
            }
            p = p + 1;
        }
        proof {
            if p < order@.len() {
                assert(boundary_depth(bs[order@[p as int] as int], depths@) > key_i);
            }
        }
        let ghost before = order@;
        order.insert(p, i);
        proof {
            assert(order@ == before.insert(p as int, i));
            assert forall|k: int| 0 <= k < i + 1 implies #[trigger] order@[k] < i + 1 by {
                if k < p {
                    assert(order@[k] == before[k]);
                } else if k > p {
                    assert(order@[k] == before[k - 1]);
                }
            }
            assert forall|k: int, l: int| 0 <= k < l < i + 1 implies boundary_before(
                bs,
                depths@,
                #[trigger] order@[k] as int,
                #[trigger] order@[l] as int,
            ) by {
                if l < p {
                    assert(order@[k] == before[k] && order@[l] == before[l]);
                } else if l == p {
                    assert(order@[k] == before[k]);
                } else if k > p {
                    assert(order@[k] == before[k - 1] && order@[l] == before[l - 1]);
                } else if k == p {
                    assert(order@[l] == before[l - 1]);
                    assert(boundary_before(bs, depths@, before[p as int] as int, before[l - 1] as int) || l - 1 == p);
                } else {
                    assert(order@[k] == before[k] && order@[l] == before[l - 1]);
                }
            }
            assert forall|k: int, l: int| 0 <= k < l < i + 1 implies order@[k] != order@[l] by {
                assert(boundary_before(bs, depths@, order@[k] as int, order@[l] as int));
            }
        }
        i = i + 1;
    }
    order
}

/// The zone behind a boundary: the deeper of the two it joins (the second
/// when they are as deep).
pub open spec fn deep_zone(b: ZoneBoundary, depths: Seq<usize>) -> usize {
    if depths[b.zone_a as int] <= depths[b.zone_b as int] {
        b.zone_b
    } else {
        b.zone_a
    }
}

/// The zone behind the boundary is marked interesting (zones past the end of
/// `interesting` are not).
pub open spec fn guards_interesting(b: ZoneBoundary, depths: Seq<usize>, interesting: Seq<bool>) -> bool {
    deep_zone(b, depths) < interesting.len() && interesting[deep_zone(b, depths) as int]
}

/// A regular boundary in front of an interesting zone: it takes the next
/// regular colour.
pub open spec fn takes_regular_color(m: &TileMap, b: ZoneBoundary, depths: Seq<usize>, interesting: Seq<bool>) -> bool {
    spec_boundary_kind(m, b.door_tiles@) == BoundaryKind::Regular && guards_interesting(b, depths, interesting)
}

/// How many of the first `k` boundaries of `order` take a regular colour.
pub open spec fn regular_rank(
    m: &TileMap,
    bs: Seq<ZoneBoundary>,
    order: Seq<usize>,
    depths: Seq<usize>,
    interesting: Seq<bool>,
    k: int,
) -> int
    decreases k,
{
    if k <= 0 {
        0
    } else {
        regular_rank(m, bs, order, depths, interesting, k - 1) + if takes_regular_color(
            m,
            bs[order[k - 1] as int],
            depths,
            interesting,
        ) {
            1int
        } else {
            0int
        }
    }
}

/// The lock colour of the boundary at position `k` of `order`: gold for the
/// outer wall, silver for the inner wall, the regular colours in turn for
/// regular boundaries in front of an interesting zone, none otherwise.
pub open spec fn door_color(
    m: &TileMap,
    bs: Seq<ZoneBoundary>,
    order: Seq<usize>,
    depths: Seq<usize>,
    interesting: Seq<bool>,
    n_colors: int,
    k: int,
) -> Option<usize> {
    let b = bs[order[k] as int];
    match spec_boundary_kind(m, b.door_tiles@) {
        BoundaryKind::OuterWall => Some(OUTER_WALL_COLOR),
        BoundaryKind::InnerWall => Some(INNER_WALL_COLOR),
        BoundaryKind::Regular => if guards_interesting(b, depths, interesting) {
            Some(regular_color(regular_rank(m, bs, order, depths, interesting, k) % (n_colors - 2)) as usize)
        } else {
            None
        },
    }
}

/// Inputs of the door pass fit together: the map can be scanned and is at
/// least a block wide, boundaries join zones that have depths, and their
/// doors lie on the map.
pub open spec fn door_inputs_ok(m: &TileMap, zm: &ZoneMap, depths: Seq<usize>) -> bool {
    &&& scan_map(m)
    &&& m.width >= 32
    &&& forall|b: int| 0 <= b < zm.boundaries@.len() ==> (#[trigger] zm.boundaries@[b]).zone_a < depths.len()
        && zm.boundaries@[b].zone_b < depths.len()
    &&& forall|b: int, q: int| 0 <= b < zm.boundaries@.len() && 0 <= q < zm.boundaries@[b].door_tiles@.len()
        ==> #[trigger] zm.boundaries@[b].door_tiles@[q] < m.len()
}

/// Chooses the lock colour of every zone boundary (`None`: left unlocked),
/// indexed like `zone_map.boundaries`. Boundaries are taken shallowest
/// first; the outer wall is gold, the inner wall silver, and a regular
/// boundary in front of an interesting zone takes the next of the other
/// `n_colors - 2` key colours in turn.
pub fn assign_door_colors(
    m: &TileMap,
    zone_map: &ZoneMap,
    depths: &Vec<usize>,
    interesting: &Vec<bool>,
    n_colors: usize,
) -> (r: Vec<Option<usize>>)
    requires
        door_inputs_ok(m, zone_map, depths@),
        n_colors >= 16,
    ensures
        r@.len() == zone_map.boundaries@.len(),
        exists|order: Seq<usize>|
            depth_order(zone_map.boundaries@, depths@, order, zone_map.boundaries@.len() as int) && forall|k: int|
                0 <= k < order.len() ==> r@[#[trigger] order[k] as int] == door_color(
                    m,
                    zone_map.boundaries@,
                    order,
                    depths@,
                    interesting@,
                    n_colors as int,
                    k,
                ),
{
    let ghost bs = zone_map.boundaries@;
    let nb = zone_map.boundaries.len();
    let mut colors: Vec<Option<usize>> = Vec::new();
    let mut i: usize = 0;
    while i < nb
        invariant
            i <= nb,
            colors@ == Seq::new(i as nat, |k: int| None::<usize>),
        decreases nb - i,
    {
        colors.push(None);
        i = i + 1;
        assert(colors@ =~= Seq::new(i as nat, |k: int| None::<usize>));
    }
    let regular = regular_colors(n_colors);
    let order = sort_boundaries_by_depth(zone_map, depths);
    let mut regular_idx: usize = 0;
    let mut k: usize = 0;
    while k < nb
        invariant
            bs == zone_map.boundaries@,
            nb == bs.len(),
            door_inputs_ok(m, zone_map, depths@),
            n_colors >= 16,
            regular@.len() == n_colors - 2,
            forall|j: int| 0 <= j < regular@.len() ==> regular@[j] == regular_color(j),
            depth_order(bs, depths@, order@, nb as int),
            colors@.len() == nb,
            k <= nb,
            regular_idx == regular_rank(m, bs, order@, depths@, interesting@, k as int),
            regular_idx <= k,
            forall|j: int| 0 <= j < k ==> colors@[#[trigger] order@[j] as int] == door_color(
                m,
                bs,
                order@,
                depths@,
                interesting@,
                n_colors as int,
                j,
            ),
        decreases nb - k,
    {
        let bi = order[k];
        let b = &zone_map.boundaries[bi];
        let kind = classify_boundary(m, b);
        let deep = if depths[b.zone_a] <= depths[b.zone_b] { b.zone_b } else { b.zone_a };
        let deep_interesting = deep < interesting.len() && interesting[deep];
        let color_opt: Option<usize> = match kind {
            BoundaryKind::OuterWall => Some(OUTER_WALL_COLOR),
            BoundaryKind::InnerWall => Some(INNER_WALL_COLOR),
            BoundaryKind::Regular => {
                if deep_interesting {
                    let c = regular[regular_idx % regular.len()];
                    regular_idx = regular_idx + 1;
                    Some(c)
                } else {
                    None
                }
            },
        };
        let ghost before = colors@;
        colors.set(bi, color_opt);
        proof {
            assert(color_opt == door_color(m, bs, order@, depths@, interesting@, n_colors as int, k as int));
            assert forall|j: int| 0 <= j < k + 1 implies colors@[#[trigger] order@[j] as int] == door_color(
                m,
                bs,
                order@,
                depths@,
                interesting@,
                n_colors as int,
                j,
            ) by {
                if j < k {
                    assert(order@[j] != order@[k as int]);
                    assert(colors@[order@[j] as int] == before[order@[j] as int]);
                }
            }
        }
        k = k + 1;
    }
    colors
}

/// The loot zones among the first `k`, in index order.
pub open spec fn loot_zones_upto(zm: &ZoneMap, indoor: Seq<Seq<Point>>, depths: Seq<usize>, k: int) -> Seq<usize>
    decreases k,
{
    if k <= 0 {
        Seq::empty()
    } else {
        let prev = loot_zones_upto(zm, indoor, depths, k - 1);
        if loot_zone(zm, indoor, depths, k - 1) {
            prev.push((k - 1) as usize)
        } else {
            prev
        }
    }
}

/// The number of items a map gets: one per loot zone, up to [`TOTAL_LOOT`].
pub open spec fn loot_count(n_loot_zones: int) -> int {
    if n_loot_zones < TOTAL_LOOT {
        n_loot_zones
    } else {
        TOTAL_LOOT as int
    }
}

proof fn lemma_loot_zones(zm: &ZoneMap, indoor: Seq<Seq<Point>>, depths: Seq<usize>, k: int)
    requires
        0 <= k <= usize::MAX,
    ensures
        loot_zones_upto(zm, indoor, depths, k).no_duplicates(),
        forall|j: int|
            0 <= j < loot_zones_upto(zm, indoor, depths, k).len() ==> (#[trigger] loot_zones_upto(zm, indoor, depths, k)[j])
                < k && loot_zone(zm, indoor, depths, loot_zones_upto(zm, indoor, depths, k)[j] as int),
        forall|z: int|
            0 <= z < k && #[trigger] loot_zone(zm, indoor, depths, z) ==> loot_zones_upto(zm, indoor, depths, k).contains(
                z as usize,
            ),
    decreases k,
{
    if k > 0 {
        lemma_loot_zones(zm, indoor, depths, k - 1);
        let prev = loot_zones_upto(zm, indoor, depths, k - 1);
        let cur = loot_zones_upto(zm, indoor, depths, k);
        if loot_zone(zm, indoor, depths, k - 1) {
            assert(cur[prev.len() as int] == (k - 1) as usize);
            assert forall|z: int| 0 <= z < k && #[trigger] loot_zone(zm, indoor, depths, z) implies cur.contains(z as usize) by {
                if z < k - 1 {
                    let w = choose|w: int| 0 <= w < prev.len() && prev[w] == z as usize;
                    assert(cur[w] == z as usize);
                }
            }
        }
    }
}

proof fn lemma_zones_at_depth_complete(zm: &ZoneMap, indoor: Seq<Seq<Point>>, depths: Seq<usize>, z: int, k: int)
    requires
        0 <= z < k <= usize::MAX,
        loot_zone(zm, indoor, depths, z),
    ensures
        zones_at_depth(zm, indoor, depths, depths[z] as int, k).contains(z as usize),
    decreases k,
{
    let prev = zones_at_depth(zm, indoor, depths, depths[z] as int, k - 1);
    let cur = zones_at_depth(zm, indoor, depths, depths[z] as int, k);
    if z == k - 1 {
        assert(cur[prev.len() as int] == z as usize);
    } else {
        lemma_zones_at_depth_complete(zm, indoor, depths, z, k - 1);
        let w = choose|w: int| 0 <= w < prev.len() && prev[w] == z as usize;
        assert(cur[w] == z as usize);
    }
}

proof fn lemma_open_depth_found(by_depth: Seq<Seq<usize>>, has_item: Seq<bool>, target: int, lo: int, d: int, k: int)
    requires
        0 <= d < k,
        lo <= d,
        depth_open(by_depth, has_item, d),
    ensures
        nearest_open_depth_upto(by_depth, has_item, target, lo, k) is Some,
    decreases k,
{
    if d < k - 1 {
        lemma_open_depth_found(by_depth, has_item, target, lo, d, k - 1);
    }
}

/// A no-duplicate list whose every element is in `u` is no longer than `u`
/// when `u` has no duplicates either.
proof fn lemma_covered_shorter(a: Seq<usize>, u: Seq<usize>)
    requires
        a.no_duplicates(),
        u.no_duplicates(),
        forall|j: int| 0 <= j < a.len() ==> u.contains(#[trigger] a[j]),
    ensures
        a.len() <= u.len(),
{
    a.unique_seq_to_set();
    u.unique_seq_to_set();
    assert(a.to_set().subset_of(u.to_set())) by {
        assert forall|x: usize| a.to_set().contains(x) implies u.to_set().contains(x) by {
            let j = choose|j: int| 0 <= j < a.len() && a[j] == x;
        }
    }
    vstd::set_lib::lemma_len_subset(a.to_set(), u.to_set());
}

/// A no-duplicate list inside `u` that misses an element `x` of `u` is
/// shorter than `u`.
proof fn lemma_missing_shorter(a: Seq<usize>, u: Seq<usize>, x: usize)
    requires
        a.no_duplicates(),
        u.no_duplicates(),
        forall|j: int| 0 <= j < a.len() ==> u.contains(#[trigger] a[j]),
        u.contains(x),
        !a.contains(x),
    ensures
        a.len() < u.len(),
{
    a.unique_seq_to_set();
    u.unique_seq_to_set();
    assert(a.to_set().subset_of(u.to_set().remove(x))) by {
        assert forall|y: usize| a.to_set().contains(y) implies u.to_set().remove(x).contains(y) by {
            let j = choose|j: int| 0 <= j < a.len() && a[j] == y;
        }
    }
    vstd::set_lib::lemma_len_subset(a.to_set(), u.to_set().remove(x));
}

proof fn lemma_weighted_pool(rarities: Seq<u8>, k: int)
    requires
        0 <= k <= rarities.len(),
        rarities.len() <= usize::MAX,
    ensures
        forall|i: int|
            0 <= i < weighted_pool(rarities, k).len() ==> (#[trigger] weighted_pool(rarities, k)[i]).0 < k
                && rarities[weighted_pool(rarities, k)[i].0 as int] == weighted_pool(rarities, k)[i].1
                && weighted_pool(rarities, k)[i].1 < 4,
    decreases k,
{
    if k > 0 {
        lemma_weighted_pool(rarities, k - 1);
        let prev = weighted_pool(rarities, k - 1);
        let c = copies(((k - 1) as usize, rarities[k - 1]), 4 - rarities[k - 1]);
        assert forall|i: int| 0 <= i < weighted_pool(rarities, k).len() implies (#[trigger] weighted_pool(rarities, k)[i]).0 < k
            && rarities[weighted_pool(rarities, k)[i].0 as int] == weighted_pool(rarities, k)[i].1
            && weighted_pool(rarities, k)[i].1 < 4 by {
            if i < prev.len() {
                assert(weighted_pool(rarities, k)[i] == prev[i]);
            } else {
                assert(weighted_pool(rarities, k)[i] == c[i - prev.len()]);
                assert(c[i - prev.len()] == ((k - 1) as usize, rarities[k - 1]));
                assert(((k - 1) as usize) as int == k - 1);
            }
        }
    }
}

proof fn lemma_nearest_open_is_open(by_depth: Seq<Seq<usize>>, has_item: Seq<bool>, target: int, lo: int, k: int)
    requires
        0 <= k <= by_depth.len(),
    ensures
        nearest_open_depth_upto(by_depth, has_item, target, lo, k) matches Some(d) ==> 0 <= d < k && lo <= d && depth_open(
            by_depth,
            has_item,
            d,
        ),
    decreases k,
{
    if k > 0 {
        lemma_nearest_open_is_open(by_depth, has_item, target, lo, k - 1);
    }
}

/// Door tile `q` of boundary `b` holds the door with entity id `e`, and the
/// boundary is locked.
pub open spec fn locks_door(m: &TileMap, bs: Seq<ZoneBoundary>, colors: Seq<Option<usize>>, b: int, q: int, e: int) -> bool {
    &&& 0 <= b < bs.len()
    &&& 0 <= q < bs[b].door_tiles@.len()
    &&& colors[b] is Some
    &&& m.pawns@[bs[b].door_tiles@[q] as int] matches Some(p) && p.is_door && p.entity_id == e
}

/// Door tile `q` of boundary `b` comes before door tile `q2` of boundary
/// `b2` in the walk over the boundaries (`b2 == bs.len()` stands for the end).
pub open spec fn walked_before(b: int, q: int, b2: int, q2: int) -> bool {
    b < b2 || (b == b2 && q < q2)
}

/// Some locked boundary walked before (`b2`, `q2`) has a door tile holding
/// the door `e`.
pub open spec fn door_locked(m: &TileMap, bs: Seq<ZoneBoundary>, colors: Seq<Option<usize>>, b2: int, q2: int, e: int) -> bool {
    exists|b: int, q: int| walked_before(b, q, b2, q2) && #[trigger] locks_door(m, bs, colors, b, q, e)
}

/// `c` is the colour of a locked boundary walked before (`b2`, `q2`) that
/// has a door tile holding the door `e`.
pub open spec fn lock_color_of(
    m: &TileMap,
    bs: Seq<ZoneBoundary>,
    colors: Seq<Option<usize>>,
    b2: int,
    q2: int,
    e: int,
    c: Option<usize>,
) -> bool {
    exists|b: int, q: int| walked_before(b, q, b2, q2) && #[trigger] locks_door(m, bs, colors, b, q, e) && c == colors[b]
}

/// Gives every door the lock colour of its boundary: `entity_colors[e]` is
/// the colour of entity `e`. A door standing on a door tile of a locked
/// boundary takes that boundary's colour (when a door stands on the door
/// tiles of several locked boundaries, the colour of one of them); every
/// other colour stays as it was.
pub fn color_doors(
    m: &TileMap,
    zone_map: &ZoneMap,
    boundary_colors: &Vec<Option<usize>>,
    entity_colors: &mut Vec<Option<usize>>,
)
    requires
        m.wf(),
        boundary_colors@.len() == zone_map.boundaries@.len(),
        forall|b: int, q: int| 0 <= b < zone_map.boundaries@.len() && 0 <= q < zone_map.boundaries@[b].door_tiles@.len()
            ==> #[trigger] zone_map.boundaries@[b].door_tiles@[q] < m.len(),
        forall|b: int, q: int, e: int|
            #[trigger] locks_door(m, zone_map.boundaries@, boundary_colors@, b, q, e) ==> e < old(entity_colors)@.len(),
    ensures
        final(entity_colors)@.len() == old(entity_colors)@.len(),
        forall|e: int|
            0 <= e < old(entity_colors)@.len() ==> {
                let nb = zone_map.boundaries@.len() as int;
                &&& door_locked(m, zone_map.boundaries@, boundary_colors@, nb, 0, e) ==> lock_color_of(
                    m,
                    zone_map.boundaries@,
                    boundary_colors@,
                    nb,
                    0,
                    e,
                    #[trigger] final(entity_colors)@[e],
                )
                &&& !door_locked(m, zone_map.boundaries@, boundary_colors@, nb, 0, e) ==> final(entity_colors)@[e]
                    == old(entity_colors)@[e]
            },
{
    let ghost bs = zone_map.boundaries@;
    let ghost cs = boundary_colors@;
    let ghost start = entity_colors@;
    let nb = zone_map.boundaries.len();
    let mut bi: usize = 0;
    while bi < nb
        invariant
            m.wf(),
            bs == zone_map.boundaries@,
            cs == boundary_colors@,
            nb == bs.len(),
            cs.len() == nb,
            forall|b: int, q: int| 0 <= b < nb && 0 <= q < bs[b].door_tiles@.len() ==> #[trigger] bs[b].door_tiles@[q] < m.len(),
            forall|b: int, q: int, e: int| #[trigger] locks_door(m, bs, cs, b, q, e) ==> e < start.len(),
            bi <= nb,
            entity_colors@.len() == start.len(),
            forall|e: int|
                0 <= e < start.len() ==> {
                    &&& door_locked(m, bs, cs, bi as int, 0, e) ==> lock_color_of(m, bs, cs, bi as int, 0, e, #[trigger] entity_colors@[e])
                    &&& !door_locked(m, bs, cs, bi as int, 0, e) ==> entity_colors@[e] == start[e]
                },
        decreases nb - bi,
    {
        let color = boundary_colors[bi];
        let tiles = &zone_map.boundaries[bi].door_tiles;
        let mut q: usize = 0;
        proof {
            assert forall|e: int| 0 <= e < start.len() implies {
                &&& door_locked(m, bs, cs, bi as int, q as int, e) ==> lock_color_of(m, bs, cs, bi as int, q as int, e, #[trigger] entity_colors@[e])
                &&& !door_locked(m, bs, cs, bi as int, q as int, e) ==> entity_colors@[e] == start[e]
            } by {
                if door_locked(m, bs, cs, bi as int, q as int, e) {
                    let (b, q2) = choose|b: int, q2: int| walked_before(b, q2, bi as int, q as int) && #[trigger] locks_door(m, bs, cs, b, q2, e);
                    assert(walked_before(b, q2, bi as int, 0));
                    assert(door_locked(m, bs, cs, bi as int, 0, e));
                    let (b3, q3) = choose|b3: int, q3: int| walked_before(b3, q3, bi as int, 0) && #[trigger] locks_door(m, bs, cs, b3, q3, e) && entity_colors@[e] == cs[b3];
                    assert(walked_before(b3, q3, bi as int, q as int));
                } else {
                    if door_locked(m, bs, cs, bi as int, 0, e) {
                        let (b, q2) = choose|b: int, q2: int| walked_before(b, q2, bi as int, 0) && #[trigger] locks_door(m, bs, cs, b, q2, e);
                        assert(walked_before(b, q2, bi as int, q as int));
                    }
                }
            }
        }
        while q < tiles.len()
            invariant
                m.wf(),
                bs == zone_map.boundaries@,
                cs == boundary_colors@,
                nb == bs.len(),
                cs.len() == nb,
                bi < nb,
                color == cs[bi as int],
                *tiles == bs[bi as int].door_tiles,
                forall|b: int, q2: int| 0 <= b < nb && 0 <= q2 < bs[b].door_tiles@.len() ==> #[trigger] bs[b].door_tiles@[q2] < m.len(),
                forall|b: int, q2: int, e: int| #[trigger] locks_door(m, bs, cs, b, q2, e) ==> e < start.len(),
                q <= tiles@.len(),
                entity_colors@.len() == start.len(),
                forall|e: int|
                    0 <= e < start.len() ==> {
                        &&& door_locked(m, bs, cs, bi as int, q as int, e) ==> lock_color_of(m, bs, cs, bi as int, q as int, e, #[trigger] entity_colors@[e])
                        &&& !door_locked(m, bs, cs, bi as int, q as int, e) ==> entity_colors@[e] == start[e]
                    },
            decreases tiles@.len() - q,
        {
            let t = tiles[q];
            proof {
                assert(bs[bi as int].door_tiles@[q as int] < m.len());
            }
            let ghost before = entity_colors@;
            if color.is_some() {
                match m.pawns[t] {
                    Some(p) => {
                        if p.is_door {
                            proof {
                                assert(locks_door(m, bs, cs, bi as int, q as int, p.entity_id as int));
                            }
                            entity_colors.set(p.entity_id, color);
                        }
                    },
                    None => {},
                }
            }
            proof {
                assert forall|e: int| 0 <= e < start.len() implies {
                    &&& door_locked(m, bs, cs, bi as int, q + 1, e) ==> lock_color_of(m, bs, cs, bi as int, q + 1, e, #[trigger] entity_colors@[e])
                    &&& !door_locked(m, bs, cs, bi as int, q + 1, e) ==> entity_colors@[e] == start[e]
                } by {
                    if locks_door(m, bs, cs, bi as int, q as int, e) {
                        assert(entity_colors@[e] == cs[bi as int]);
                        assert(walked_before(bi as int, q as int, bi as int, q + 1));
                        assert(door_locked(m, bs, cs, bi as int, q + 1, e));
                        assert(lock_color_of(m, bs, cs, bi as int, q + 1, e, entity_colors@[e]));
                    } else {
                        assert(entity_colors@[e] == before[e]);
                        if door_locked(m, bs, cs, bi as int, q + 1, e) {
                            let (b, q2) = choose|b: int, q2: int| walked_before(b, q2, bi as int, q + 1) && #[trigger] locks_door(m, bs, cs, b, q2, e);
                            assert(walked_before(b, q2, bi as int, q as int));
                            assert(door_locked(m, bs, cs, bi as int, q as int, e));
                            let (b3, q3) = choose|b3: int, q3: int| walked_before(b3, q3, bi as int, q as int) && #[trigger] locks_door(m, bs, cs, b3, q3, e) && before[e] == cs[b3];
                            assert(walked_before(b3, q3, bi as int, q + 1));
                        } else {
                            if door_locked(m, bs, cs, bi as int, q as int, e) {
                                let (b, q2) = choose|b: int, q2: int| walked_before(b, q2, bi as int, q as int) && #[trigger] locks_door(m, bs, cs, b, q2, e);
                                assert(walked_before(b, q2, bi as int, q + 1));
                            }
                        }
                    }
                }
            }
            q = q + 1;
        }
        proof {
            assert forall|e: int| 0 <= e < start.len() implies {
                &&& door_locked(m, bs, cs, bi + 1, 0, e) ==> lock_color_of(m, bs, cs, bi + 1, 0, e, #[trigger] entity_colors@[e])
                &&& !door_locked(m, bs, cs, bi + 1, 0, e) ==> entity_colors@[e] == start[e]
            } by {
                if door_locked(m, bs, cs, bi + 1, 0, e) {
                    let (b, q2) = choose|b: int, q2: int| walked_before(b, q2, bi + 1, 0) && #[trigger] locks_door(m, bs, cs, b, q2, e);
                    assert(walked_before(b, q2, bi as int, q as int));
                    assert(door_locked(m, bs, cs, bi as int, q as int, e));
                    let (b3, q3) = choose|b3: int, q3: int| walked_before(b3, q3, bi as int, q as int) && #[trigger] locks_door(m, bs, cs, b3, q3, e) && entity_colors@[e] == cs[b3];
                    assert(walked_before(b3, q3, bi + 1, 0));
                } else {
                    if door_locked(m, bs, cs, bi as int, q as int, e) {
                        let (b, q2) = choose|b: int, q2: int| walked_before(b, q2, bi as int, q as int) && #[trigger] locks_door(m, bs, cs, b, q2, e);
                        assert(walked_before(b, q2, bi + 1, 0));
                    }
                }
            }
        }
        bi = bi + 1;
    }
}

} // verus!
