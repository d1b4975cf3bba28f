//! Scattering door keys so that the map can always be solved: every key of
//! a colour lies in a zone the player reaches with the colours handed out
//! before it.
use vstd::prelude::*;
use crate::geom::Point;
use crate::map::TileMap;
use crate::population::boundary_depth;
use crate::rng::rng_range_usize;
use crate::spawn::{
    SpawnCategory, SpawnMap, SpawnPoint, ZoneBoundary, ZoneMap, adj_in_range, edge_open, fy_shuffle, open_reach,
    reachable_zones, scan_map,
};

verus! {

/// Boundary `b` joins zones `u` and `v`, either way round.
pub open spec fn joins(b: ZoneBoundary, u: int, v: int) -> bool {
    (b.zone_a == u && b.zone_b == v) || (b.zone_b == u && b.zone_a == v)
}

/// Zone `v` is reached from `start` over at most `k` boundaries, each either
/// unlocked or locked with a colour in `unlocked`.
pub open spec fn door_reach(
    bs: Seq<ZoneBoundary>,
    colors: Seq<Option<usize>>,
    unlocked: Set<usize>,
    start: int,
    v: int,
    k: nat,
) -> bool
    decreases k,
{
    v == start || (k > 0 && exists|b: int, u: int|
        0 <= b < bs.len() && #[trigger] joins(bs[b], u, v) && edge_open(unlocked, colors[b]) && door_reach(
            bs,
            colors,
            unlocked,
            start,
            u,
            (k - 1) as nat,
        ))
}

/// Boundaries join zones of the map and each has a colour entry.
pub open spec fn boundaries_ok(bs: Seq<ZoneBoundary>, colors: Seq<Option<usize>>, nz: int) -> bool {
    &&& colors.len() == bs.len()
    &&& forall|b: int| 0 <= b < bs.len() ==> (#[trigger] bs[b]).zone_a < nz && bs[b].zone_b < nz
}

/// The edge from zone `u` stands for a boundary of `bs` with its colour.
pub open spec fn boundary_edge(bs: Seq<ZoneBoundary>, colors: Seq<Option<usize>>, u: int, edge: (usize, Option<usize>)) -> bool {
    exists|b: int| 0 <= b < bs.len() && #[trigger] joins(bs[b], u, edge.0 as int) && colors[b] == edge.1
}

/// Every edge of `adj` stands for a boundary of `bs` with its colour.
pub open spec fn graph_of(adj: Seq<Vec<(usize, Option<usize>)>>, bs: Seq<ZoneBoundary>, colors: Seq<Option<usize>>) -> bool {
    forall|u: int, e: int| 0 <= u < adj.len() && 0 <= e < adj[u]@.len() ==> boundary_edge(bs, colors, u, #[trigger] adj[u]@[e])
}

/// Every boundary appears in the zone graph, as an edge from each of its two
/// zones to the other, with its colour.
pub open spec fn graph_has_all(adj: Seq<Vec<(usize, Option<usize>)>>, bs: Seq<ZoneBoundary>, colors: Seq<Option<usize>>) -> bool {
    forall|b: int|
        0 <= b < bs.len() ==> adj[(#[trigger] bs[b]).zone_a as int]@.contains((bs[b].zone_b, colors[b])) && adj[bs[b].zone_b as int]@.contains(
            (bs[b].zone_a, colors[b]),
        )
}

/// The zone graph: for every zone, the zones across each of its boundaries
/// with the boundary's lock colour, in boundary order.
fn zone_graph(zone_map: &ZoneMap, boundary_colors: &Vec<Option<usize>>) -> (adj: Vec<Vec<(usize, Option<usize>)>>)
    requires
        boundaries_ok(zone_map.boundaries@, boundary_colors@, zone_map.zones@.len() as int),
    ensures
        adj_in_range(adj@, zone_map.zones@.len() as int),
        graph_of(adj@, zone_map.boundaries@, boundary_colors@),
        graph_has_all(adj@, zone_map.boundaries@, boundary_colors@),
{
    let ghost bs = zone_map.boundaries@;
    let ghost cs = boundary_colors@;
    let nz = zone_map.zones.len();
    let nb = zone_map.boundaries.len();
    let mut adj: Vec<Vec<(usize, Option<usize>)>> = Vec::new();
    let mut u: usize = 0;
    while u < nz
        invariant
            bs == zone_map.boundaries@,
            cs == boundary_colors@,
            nz == zone_map.zones@.len(),
            nb == bs.len(),
            boundaries_ok(bs, cs, nz as int),
            u <= nz,
            adj@.len() == u,
            forall|u2: int, e: int| 0 <= u2 < u && 0 <= e < adj@[u2]@.len() ==> (#[trigger] adj@[u2]@[e]).0 < nz,
            graph_of(adj@, bs, cs),
            forall|b: int|
                0 <= b < nb && (#[trigger] bs[b]).zone_a < u ==> adj@[bs[b].zone_a as int]@.contains((bs[b].zone_b, cs[b])),
            forall|b: int|
                0 <= b < nb && (#[trigger] bs[b]).zone_b < u ==> adj@[bs[b].zone_b as int]@.contains((bs[b].zone_a, cs[b])),
        decreases nz - u,
    {
        let mut row: Vec<(usize, Option<usize>)> = Vec::new();
        let mut bi: usize = 0;
        while bi < nb
            invariant
                bs == zone_map.boundaries@,
                cs == boundary_colors@,
                nz == zone_map.zones@.len(),
                nb == bs.len(),
                boundaries_ok(bs, cs, nz as int),
                u < nz,
                bi <= nb,
                forall|e: int| 0 <= e < row@.len() ==> (#[trigger] row@[e]).0 < nz,
                forall|e: int| 0 <= e < row@.len() ==> boundary_edge(bs, cs, u as int, #[trigger] row@[e]),
                forall|b: int| 0 <= b < bi && (#[trigger] bs[b]).zone_a == u ==> row@.contains((bs[b].zone_b, cs[b])),
                forall|b: int| 0 <= b < bi && (#[trigger] bs[b]).zone_b == u ==> row@.contains((bs[b].zone_a, cs[b])),
            decreases nb - bi,
        {
            let ghost row0 = row@;
            let b = &zone_map.boundaries[bi];
            let c = boundary_colors[bi];
            if b.zone_a == u {
                proof {
                    assert(cs[bi as int] == c);
                    assert(joins(bs[bi as int], u as int, (b.zone_b, c).0 as int));
                    assert(boundary_edge(bs, cs, u as int, (b.zone_b, c)));
                }
                row.push((b.zone_b, c));
            }
            if b.zone_b == u {
                proof {
                    assert(cs[bi as int] == c);
                    assert(joins(bs[bi as int], u as int, (b.zone_a, c).0 as int));
                    assert(boundary_edge(bs, cs, u as int, (b.zone_a, c)));
                }
                row.push((b.zone_a, c));
            }
            proof {
                assert forall|x: (usize, Option<usize>)| row0.contains(x) implies row@.contains(x) by {
                    let w = choose|w: int| 0 <= w < row0.len() && row0[w] == x;
                    assert(row@[w] == row0[w]);
                }
                if bs[bi as int].zone_a == u {
                    assert(row@.contains((bs[bi as int].zone_b, cs[bi as int]))) by {
                        if bs[bi as int].zone_b == u {
                            assert(row@[row0.len() as int] == (bs[bi as int].zone_b, cs[bi as int]));
                        } else {
                            assert(row@[row@.len() - 1] == (bs[bi as int].zone_b, cs[bi as int]));
                        }
                    }
                }
                if bs[bi as int].zone_b == u {
                    assert(row@[row@.len() - 1] == (bs[bi as int].zone_a, cs[bi as int]));
                }
            }
            bi = bi + 1;
        }
        let ghost before = adj@;
        adj.push(row);
        proof {
            assert forall|u2: int, e: int| 0 <= u2 < adj@.len() && 0 <= e < adj@[u2]@.len() implies boundary_edge(
                bs,
                cs,
                u2,
                #[trigger] adj@[u2]@[e],
            ) by {
                if u2 < u {
                    assert(adj@[u2] == before[u2]);
                } else {
                    assert(adj@[u2]@[e] == row@[e]);
                }
            }
            assert forall|b: int| 0 <= b < nb && (#[trigger] bs[b]).zone_a < u + 1 implies adj@[bs[b].zone_a as int]@.contains(
                (bs[b].zone_b, cs[b]),
            ) by {
                if bs[b].zone_a < u {
                    assert(adj@[bs[b].zone_a as int] == before[bs[b].zone_a as int]);
                }
            }
            assert forall|b: int| 0 <= b < nb && (#[trigger] bs[b]).zone_b < u + 1 implies adj@[bs[b].zone_b as int]@.contains(
                (bs[b].zone_a, cs[b]),
            ) by {
                if bs[b].zone_b < u {
                    assert(adj@[bs[b].zone_b as int] == before[bs[b].zone_b as int]);
                }
            }
        }
        u = u + 1;
    }
    adj
}

/// What the zone graph reaches, the boundaries reach.
proof fn lemma_graph_reach(
    adj: Seq<Vec<(usize, Option<usize>)>>,
    bs: Seq<ZoneBoundary>,
    colors: Seq<Option<usize>>,
    unlocked: Set<usize>,
    start: int,
    v: int,
    k: nat,
)
    requires
        graph_of(adj, bs, colors),
        open_reach(adj, unlocked, start, v, k),
    ensures
        door_reach(bs, colors, unlocked, start, v, k),
    decreases k,
{
    if v != start {
        let (u, e) = choose|u: int, e: int|
            0 <= u < adj.len() && 0 <= e < adj[u]@.len() && #[trigger] adj[u]@[e].0 == v && edge_open(unlocked, adj[u]@[e].1)
                && open_reach(adj, unlocked, start, u, (k - 1) as nat);
        lemma_graph_reach(adj, bs, colors, unlocked, start, u, (k - 1) as nat);
        assert(boundary_edge(bs, colors, u, adj[u]@[e]));
        let b = choose|b: int| 0 <= b < bs.len() && #[trigger] joins(bs[b], u, adj[u]@[e].0 as int) && colors[b] == adj[u]@[e].1;
        assert(joins(bs[b], u, v));
    }
}

/// The shallowest depth (see [`boundary_depth`]) of the boundaries among the
/// first `k` locked with colour `c`; `None` when none is.
pub open spec fn first_depth_upto(
    bs: Seq<ZoneBoundary>,
    depths: Seq<usize>,
    colors: Seq<Option<usize>>,
    c: usize,
    k: int,
) -> Option<usize>
    decreases k,
{
    if k <= 0 {
        None
    } else {
        let prev = first_depth_upto(bs, depths, colors, c, k - 1);
        if colors[k - 1] == Some(c) {
            let d = boundary_depth(bs[k - 1], depths);
            match prev {
                Some(p) => Some(if d < p { d } else { p }),
                None => Some(d),
            }
        } else {
            prev
        }
    }
}

/// The shallowest depth of the boundaries locked with colour `c`.
pub open spec fn first_depth(bs: Seq<ZoneBoundary>, depths: Seq<usize>, colors: Seq<Option<usize>>, c: usize) -> Option<usize> {
    first_depth_upto(bs, depths, colors, c, bs.len() as int)
}

/// Colour `a` is handed out before colour `b`: its first boundary is
/// shallower, or as shallow and `a` is the smaller colour.
pub open spec fn color_before(bs: Seq<ZoneBoundary>, depths: Seq<usize>, colors: Seq<Option<usize>>, a: usize, b: usize) -> bool {
    let da = first_depth(bs, depths, colors, a)->0;
    let db = first_depth(bs, depths, colors, b)->0;
    da < db || (da == db && a < b)
}

/// `order` lists each colour used by a boundary once, shallowest first.
pub open spec fn color_order_ok(bs: Seq<ZoneBoundary>, depths: Seq<usize>, colors: Seq<Option<usize>>, order: Seq<usize>) -> bool {
    &&& order.no_duplicates()
    &&& forall|c: usize|
        #![trigger order.contains(c)]
        #![trigger first_depth(bs, depths, colors, c)]
        order.contains(c) <==> first_depth(bs, depths, colors, c) is Some
    &&& forall|k: int, l: int|
        0 <= k < l < order.len() ==> color_before(bs, depths, colors, #[trigger] order[k], #[trigger] order[l])
}

/// Boundaries join zones that have depths, and each has a colour entry.
pub open spec fn depths_ok(bs: Seq<ZoneBoundary>, colors: Seq<Option<usize>>, depths: Seq<usize>) -> bool {
    &&& colors.len() == bs.len()
    &&& forall|b: int| 0 <= b < bs.len() ==> (#[trigger] bs[b]).zone_a < depths.len() && bs[b].zone_b < depths.len()
}

/// The colours used by the boundaries, each with its first depth, in order
/// of first use.
fn colors_with_depths(zone_map: &ZoneMap, depths: &Vec<usize>, boundary_colors: &Vec<Option<usize>>) -> (r: (
    Vec<usize>,
    Vec<usize>,
))
    requires
        depths_ok(zone_map.boundaries@, boundary_colors@, depths@),
    ensures
        r.0@.len() == r.1@.len(),
        r.0@.no_duplicates(),
        forall|j: int|
            0 <= j < r.0@.len() ==> first_depth(zone_map.boundaries@, depths@, boundary_colors@, #[trigger] r.0@[j]) == Some(
                r.1@[j],
            ),
        forall|c: usize|
            #[trigger] first_depth(zone_map.boundaries@, depths@, boundary_colors@, c) is Some ==> r.0@.contains(c),
{
    let ghost bs = zone_map.boundaries@;
    let ghost cs = boundary_colors@;
    let nb = zone_map.boundaries.len();
    let mut cols: Vec<usize> = Vec::new();
    let mut fds: Vec<usize> = Vec::new();
    let mut bi: usize = 0;
    while bi < nb
        invariant
            bs == zone_map.boundaries@,
            cs == boundary_colors@,
            nb == bs.len(),
            depths_ok(bs, cs, depths@),
            bi <= nb,
            cols@.len() == fds@.len(),
            cols@.no_duplicates(),
            forall|j: int|
                0 <= j < cols@.len() ==> first_depth_upto(bs, depths@, cs, #[trigger] cols@[j], bi as int) == Some(fds@[j]),
            forall|c: usize| #[trigger] first_depth_upto(bs, depths@, cs, c, bi as int) is Some ==> cols@.contains(c),
        decreases nb - bi,
    {
        let b = &zone_map.boundaries[bi];
        if let Some(c) = boundary_colors[bi] {
            let d = if depths[b.zone_a] <= depths[b.zone_b] { depths[b.zone_a] } else { depths[b.zone_b] };
            proof {
                assert(d == boundary_depth(bs[bi as int], depths@));
            }
            let mut j: usize = 0;
            while j < cols.len()
                invariant
                    j <= cols@.len(),
                    forall|jj: int| 0 <= jj < j ==> cols@[jj] != c,
                ensures
                    j <= cols@.len(),
                    forall|jj: int| 0 <= jj < j ==> cols@[jj] != c,
                    j < cols@.len() ==> cols@[j as int] == c,
                decreases cols@.len() - j,
            {
                if cols[j] == c {
                    break;
                }
                j = j + 1;
            }
            let ghost old_cols = cols@;
            let ghost old_fds = fds@;
            if j < cols.len() {
                if d < fds[j] {
                    fds.set(j, d);
                }
            } else {
                cols.push(c);
                fds.push(d);
            }
            proof {
                assert forall|jj: int| 0 <= jj < cols@.len() implies first_depth_upto(
                    bs,
                    depths@,
                    cs,
                    #[trigger] cols@[jj],
                    bi + 1,
                ) == Some(fds@[jj]) by {
                    if jj < old_cols.len() {
                        assert(cols@[jj] == old_cols[jj]);
                        assert(first_depth_upto(bs, depths@, cs, old_cols[jj], bi as int) == Some(old_fds[jj]));
                    } else {
                        assert(cols@[jj] == c);
                        if first_depth_upto(bs, depths@, cs, c, bi as int) is Some {
                            assert(old_cols.contains(c));
                            let w = choose|w: int| 0 <= w < old_cols.len() && old_cols[w] == c;
                            assert(false);
                        }
                    }
                }
                assert forall|c2: usize| #[trigger] first_depth_upto(bs, depths@, cs, c2, bi + 1) is Some implies cols@.contains(
                    c2,
                ) by {
                    if c2 == c {
                        if j < old_cols.len() {
                            assert(cols@[j as int] == c);
                        } else {
                            assert(cols@[old_cols.len() as int] == c);
                        }
                    } else {
                        assert(first_depth_upto(bs, depths@, cs, c2, bi as int) is Some);
                        let w = choose|w: int| 0 <= w < old_cols.len() && old_cols[w] == c2;
                        assert(cols@[w] == c2);
                    }
                }
                assert forall|a: int, b2: int| 0 <= a < b2 < cols@.len() implies cols@[a] != cols@[b2] by {
                    if b2 >= old_cols.len() {
                        assert(old_cols[a] != c);
                    }
                }
            }
        } else {
            proof {
                assert forall|jj: int| 0 <= jj < cols@.len() implies first_depth_upto(
                    bs,
                    depths@,
                    cs,
                    #[trigger] cols@[jj],
                    bi + 1,
                ) == Some(fds@[jj]) by {
                    assert(first_depth_upto(bs, depths@, cs, cols@[jj], bi as int) == Some(fds@[jj]));
                }
                assert forall|c2: usize| #[trigger] first_depth_upto(bs, depths@, cs, c2, bi + 1) is Some implies cols@.contains(
                    c2,
                ) by {
                    assert(first_depth_upto(bs, depths@, cs, c2, bi as int) is Some);
                }
            }
        }
        bi = bi + 1;
    }
    (cols, fds)
}

/// The colours used by the boundaries, shallowest first (see
/// [`color_order_ok`]).
fn key_color_order(zone_map: &ZoneMap, depths: &Vec<usize>, boundary_colors: &Vec<Option<usize>>) -> (order: Vec<usize>)
    requires
        depths_ok(zone_map.boundaries@, boundary_colors@, depths@),
    ensures
        color_order_ok(zone_map.boundaries@, depths@, boundary_colors@, order@),
{
    let ghost bs = zone_map.boundaries@;
    let ghost cs = boundary_colors@;
    let (cols, fds) = colors_with_depths(zone_map, depths, boundary_colors);
    let n = cols.len();
    let mut sorted: Vec<usize> = Vec::new();
    let mut sorted_d: Vec<usize> = Vec::new();
    let mut i: usize = 0;
    while i < n
        invariant
            n == cols@.len(),
            cols@.len() == fds@.len(),
            forall|j: int| 0 <= j < cols@.len() ==> first_depth(bs, depths@, cs, #[trigger] cols@[j]) == Some(fds@[j]),
            i <= n,
            sorted@.len() == i,
            sorted_d@.len() == i,
            forall|k: int| 0 <= k < i ==> first_depth(bs, depths@, cs, #[trigger] sorted@[k]) == Some(sorted_d@[k]),
            cols@.no_duplicates(),
            forall|k: int| 0 <= k < i ==> cols@.subrange(0, i as int).contains(#[trigger] sorted@[k]),
            forall|j: int| 0 <= j < i ==> sorted@.contains(#[trigger] cols@[j]),
            forall|k: int, l: int| 0 <= k < l < i ==> color_before(bs, depths@, cs, #[trigger] sorted@[k], #[trigger] sorted@[l]),
        decreases n - i,
    {
        let c = cols[i];
        let d = fds[i];
        let mut p: usize = 0;
        while p < sorted.len()
            invariant
                sorted@.len() == sorted_d@.len(),
                first_depth(bs, depths@, cs, c) == Some(d),
                forall|k: int| 0 <= k < sorted@.len() ==> first_depth(bs, depths@, cs, #[trigger] sorted@[k]) == Some(sorted_d@[k]),
                p <= sorted@.len(),
                forall|k: int| 0 <= k < p ==> !color_before(bs, depths@, cs, c, #[trigger] sorted@[k]),
            ensures
                p <= sorted@.len(),
                forall|k: int| 0 <= k < p ==> !color_before(bs, depths@, cs, c, #[trigger] sorted@[k]),
                p < sorted@.len() ==> color_before(bs, depths@, cs, c, sorted@[p as int]),
            decreases sorted@.len() - p,
        {
            let sd = sorted_d[p];
            let sc = sorted[p];
            if d < sd || (d == sd && c < sc) {
                break;
            }
            p = p + 1;
        }
        let ghost before = sorted@;
        let ghost before_d = sorted_d@;
        proof {
            assert(!before.contains(c)) by {
                if before.contains(c) {
                    let w = choose|w: int| 0 <= w < before.len() && before[w] == c;
                    assert(cols@.subrange(0, i as int).contains(before[w]));
                    let j = choose|j: int| 0 <= j < i && cols@.subrange(0, i as int)[j] == c;
                    assert(cols@[j] == cols@[i as int]);
                    assert(false);
                }
            }
        }
        sorted.insert(p, c);
        sorted_d.insert(p, d);
        proof {
            assert(sorted@ == before.insert(p as int, c));
            assert(sorted_d@ == before_d.insert(p as int, d));
            assert forall|k: int| 0 <= k < i + 1 implies first_depth(bs, depths@, cs, #[trigger] sorted@[k]) == Some(
                sorted_d@[k],
            ) by {
                if k < p {
                    assert(sorted@[k] == before[k] && sorted_d@[k] == before_d[k]);
                } else if k > p {
                    assert(sorted@[k] == before[k - 1] && sorted_d@[k] == before_d[k - 1]);
                }
            }
            assert forall|k: int| 0 <= k < i + 1 implies cols@.subrange(0, i + 1).contains(#[trigger] sorted@[k]) by {
                if k < p {
                    assert(sorted@[k] == before[k]);
                    assert(cols@.subrange(0, i as int).contains(before[k]));
                    let j = choose|j: int| 0 <= j < i && cols@.subrange(0, i as int)[j] == before[k];
                    assert(cols@.subrange(0, i + 1)[j] == before[k]);
                } else if k > p {
                    assert(sorted@[k] == before[k - 1]);
                    assert(cols@.subrange(0, i as int).contains(before[k - 1]));
                    let j = choose|j: int| 0 <= j < i && cols@.subrange(0, i as int)[j] == before[k - 1];
                    assert(cols@.subrange(0, i + 1)[j] == before[k - 1]);
                } else {
                    assert(cols@.subrange(0, i + 1)[i as int] == c);
                }
            }
            assert forall|j: int| 0 <= j < i + 1 implies sorted@.contains(#[trigger] cols@[j]) by {
                if j < i {
                    assert(before.contains(cols@[j]));
                    let w = choose|w: int| 0 <= w < before.len() && before[w] == cols@[j];
                    if w < p {
                        assert(sorted@[w] == cols@[j]);
                    } else {
                        assert(sorted@[w + 1] == cols@[j]);
                    }
                } else {
                    assert(sorted@[p as int] == c);
                }
            }
            assert forall|k: int, l: int| 0 <= k < l < i + 1 implies color_before(
                bs,
                depths@,
                cs,
                #[trigger] sorted@[k],
                #[trigger] sorted@[l],
            ) by {
                if l < p {
                    assert(sorted@[k] == before[k] && sorted@[l] == before[l]);
                } else if l == p {
                    assert(sorted@[k] == before[k]);
                    assert(!color_before(bs, depths@, cs, c, before[k]));
                    assert(before[k] != c);
                } else if k > p {
                    assert(sorted@[k] == before[k - 1] && sorted@[l] == before[l - 1]);
                } else if k == p {
                    assert(sorted@[l] == before[l - 1]);
                    if l - 1 > p {
                        assert(color_before(bs, depths@, cs, before[p as int], before[l - 1]));
                    }
                } else {
                    assert(sorted@[k] == before[k] && sorted@[l] == before[l - 1]);
                }
            }
        }
        i = i + 1;
    }
    proof {
        assert forall|a: int, b: int| 0 <= a < b < sorted@.len() implies sorted@[a] != sorted@[b] by {
            assert(color_before(bs, depths@, cs, sorted@[a], sorted@[b]));
        }
        assert forall|c: usize| sorted@.contains(c) <==> first_depth(bs, depths@, cs, c) is Some by {
            if sorted@.contains(c) {
                let w = choose|w: int| 0 <= w < sorted@.len() && sorted@[w] == c;
                assert(first_depth(bs, depths@, cs, sorted@[w]) is Some);
            }
            if first_depth(bs, depths@, cs, c) is Some {
                assert(cols@.contains(c));
            }
            if first_depth(bs, depths@, cs, c) is Some {
                assert(cols@.contains(c));
                let j = choose|j: int| 0 <= j < cols@.len() && cols@[j] == c;
                assert(sorted@.contains(cols@[j]));
            }
        }
    }
    sorted
}

/// Most keys handed out for one colour.
pub const KEY_COPIES_PER_COLOR: usize = 3;

/// One key to place: its colour, the zone it goes to and where.
#[derive(Clone, Copy, PartialEq, Eq, Structural, Debug)]
pub struct KeyPlacement {
    pub color: usize,
    pub zone: usize,
    pub pos: Point,
}

/// Positions of the dead-end spawn points among the first `k` whose tile is
/// one of `tiles`, in order.
pub open spec fn dead_ends_upto(points: Seq<SpawnPoint>, tiles: Seq<usize>, k: int) -> Seq<Point>
    decreases k,
{
    if k <= 0 {
        Seq::empty()
    } else {
        let prev = dead_ends_upto(points, tiles, k - 1);
        let sp = points[k - 1];
        if sp.category == SpawnCategory::DeadEnd && tiles.contains(sp.idx) {
            prev.push(sp.pos)
        } else {
            prev
        }
    }
}

/// Positions of the dead-end spawn points in zone `zi`.
pub open spec fn zone_dead_ends(zm: &ZoneMap, sm: &SpawnMap, zi: int) -> Seq<Point> {
    dead_ends_upto(sm.spawn_points@, zm.zones@[zi]@, sm.spawn_points@.len() as int)
}

/// Whether `x` is one of `v`.
pub(crate) fn contains_index(v: &Vec<usize>, x: usize) -> (r: bool)
    ensures
        r == v@.contains(x),
{
    let mut i: usize = 0;
    while i < v.len()
        invariant
            i <= v@.len(),
            forall|j: int| 0 <= j < i ==> v@[j] != x,
        decreases v@.len() - i,
    {
        if v[i] == x {
            return true;
        }
        i = i + 1;
    }
    false
}

/// The dead-end spawn positions of every zone.
fn dead_ends_by_zone(zone_map: &ZoneMap, spawn_map: &SpawnMap) -> (r: Vec<Vec<Point>>)
    ensures
        r@.len() == zone_map.zones@.len(),
        forall|zi: int| 0 <= zi < r@.len() ==> (#[trigger] r@[zi])@ == zone_dead_ends(zone_map, spawn_map, zi),
{
    let nz = zone_map.zones.len();
    let mut out: Vec<Vec<Point>> = Vec::new();
    let mut zi: usize = 0;
    while zi < nz
        invariant
            nz == zone_map.zones@.len(),
            zi <= nz,
            out@.len() == zi,
            forall|z: int| 0 <= z < zi ==> (#[trigger] out@[z])@ == zone_dead_ends(zone_map, spawn_map, z),
        decreases nz - zi,
    {
        let tiles = &zone_map.zones[zi];
        let mut v: Vec<Point> = Vec::new();
        let mut k: usize = 0;
        while k < spawn_map.spawn_points.len()
            invariant
                zi < nz,
                nz == zone_map.zones@.len(),
                *tiles == zone_map.zones@[zi as int],
                k <= spawn_map.spawn_points@.len(),
                v@ == dead_ends_upto(spawn_map.spawn_points@, tiles@, k as int),
            decreases spawn_map.spawn_points@.len() - k,
        {
            let sp = spawn_map.spawn_points[k];
            if sp.category == SpawnCategory::DeadEnd && contains_index(tiles, sp.idx) {
                v.push(sp.pos);
            }
            k = k + 1;
        }
        out.push(v);
        zi = zi + 1;
    }
    out
}

/// Where a key in zone `zi` may lie: on one of the zone's dead ends, or on
/// any tile of the zone when it has none.
pub open spec fn key_spot(m: &TileMap, zm: &ZoneMap, sm: &SpawnMap, zi: int, pos: Point) -> bool {
    let dead = zone_dead_ends(zm, sm, zi);
    if dead.len() > 0 {
        dead.contains(pos)
    } else {
        exists|t: int|
            0 <= t < zm.zones@[zi]@.len() && pos.x == (#[trigger] zm.zones@[zi]@[t]) as int % (m.width as int)
                && pos.y == zm.zones@[zi]@[t] as int / (m.width as int)
    }
}

/// The key's colour comes in `order` at a point where the player, holding
/// only the keys of the colours before it, reaches the key's zone from
/// `start`.
pub open spec fn reached_before_needed(
    bs: Seq<ZoneBoundary>,
    colors: Seq<Option<usize>>,
    order: Seq<usize>,
    start: int,
    key: KeyPlacement,
) -> bool {
    exists|ci: int|
        0 <= ci < order.len() && #[trigger] order[ci] == key.color && exists|k: nat|
            door_reach(bs, colors, order.subrange(0, ci).to_set(), start, key.zone as int, k)
}

/// Colour `c` comes among the first `k` of `order`.
pub open spec fn color_taken_before(order: Seq<usize>, c: usize, k: int) -> bool {
    exists|cj: int| 0 <= cj < k && #[trigger] order[cj] == c
}

/// Zone `z` is reached from `start` holding the keys of the first `ci`
/// colours of `order`.
pub open spec fn reached_with(
    bs: Seq<ZoneBoundary>,
    colors: Seq<Option<usize>>,
    order: Seq<usize>,
    ci: int,
    start: int,
    z: int,
) -> bool {
    exists|k: nat| door_reach(bs, colors, order.subrange(0, ci).to_set(), start, z, k)
}

/// Some key of `keys` lies in zone `z`.
pub open spec fn zone_keyed(keys: Seq<KeyPlacement>, z: int) -> bool {
    exists|i: int| 0 <= i < keys.len() && (#[trigger] keys[i]).zone == z
}

/// How many of the zones `0..k` are reached holding the first `ci` colours
/// of `order` and hold none of `keys`.
pub open spec fn free_reached_count(
    bs: Seq<ZoneBoundary>,
    colors: Seq<Option<usize>>,
    order: Seq<usize>,
    ci: int,
    start: int,
    keys: Seq<KeyPlacement>,
    k: int,
) -> nat
    decreases k,
{
    if k <= 0 {
        0
    } else {
        free_reached_count(bs, colors, order, ci, start, keys, k - 1) + if reached_with(bs, colors, order, ci, start, k - 1)
            && !zone_keyed(keys, k - 1) {
            1nat
        } else {
            0nat
        }
    }
}

/// At most [`KEY_COPIES_PER_COLOR`] of `n`.
pub open spec fn copies_of(n: nat) -> nat {
    if n < KEY_COPIES_PER_COLOR {
        n
    } else {
        KEY_COPIES_PER_COLOR as nat
    }
}

/// The run of keys for colour `order[ci]` is `keys[runs[ci]..runs[ci + 1]]`:
/// all of that colour, and as many as there are zones, up to
/// [`KEY_COPIES_PER_COLOR`], that the player reaches with the colours before
/// it and that the earlier runs left without a key.
pub open spec fn run_ok(
    bs: Seq<ZoneBoundary>,
    colors: Seq<Option<usize>>,
    order: Seq<usize>,
    start: int,
    nz: int,
    keys: Seq<KeyPlacement>,
    runs: Seq<int>,
    ci: int,
) -> bool {
    &&& 0 <= runs[ci] <= runs[ci + 1] <= keys.len()
    &&& runs[ci + 1] - runs[ci] == copies_of(
        free_reached_count(bs, colors, order, ci, start, keys.subrange(0, runs[ci]), nz),
    )
    &&& forall|i: int| runs[ci] <= i < runs[ci + 1] ==> (#[trigger] keys[i]).color == order[ci]
}

/// `keys` is one run per colour of `order`, in order (see [`run_ok`]).
pub open spec fn key_runs(
    bs: Seq<ZoneBoundary>,
    colors: Seq<Option<usize>>,
    order: Seq<usize>,
    start: int,
    nz: int,
    keys: Seq<KeyPlacement>,
    runs: Seq<int>,
) -> bool {
    &&& runs.len() == order.len() + 1
    &&& runs[0] == 0
    &&& runs[order.len() as int] == keys.len()
    &&& forall|ci: int| 0 <= ci < order.len() ==> #[trigger] run_ok(bs, colors, order, start, nz, keys, runs, ci)
}

/// What the boundaries reach, the zone graph reaches.
proof fn lemma_reach_in_graph(
    adj: Seq<Vec<(usize, Option<usize>)>>,
    bs: Seq<ZoneBoundary>,
    colors: Seq<Option<usize>>,
    unlocked: Set<usize>,
    start: int,
    v: int,
    k: nat,
)
    requires
        graph_has_all(adj, bs, colors),
        boundaries_ok(bs, colors, adj.len() as int),
        door_reach(bs, colors, unlocked, start, v, k),
    ensures
        open_reach(adj, unlocked, start, v, k),
    decreases k,
{
    if v != start {
        let (b, u) = choose|b: int, u: int|
            0 <= b < bs.len() && #[trigger] joins(bs[b], u, v) && edge_open(unlocked, colors[b]) && door_reach(
                bs,
                colors,
                unlocked,
                start,
                u,
                (k - 1) as nat,
            );
        lemma_reach_in_graph(adj, bs, colors, unlocked, start, u, (k - 1) as nat);
        let edge = if bs[b].zone_a == u && bs[b].zone_b == v {
            (bs[b].zone_b, colors[b])
        } else {
            (bs[b].zone_a, colors[b])
        };
        assert(adj[u]@.contains(edge));
        let e = choose|e: int| 0 <= e < adj[u]@.len() && adj[u]@[e] == edge;
        assert(adj[u]@[e].0 == v);
    }
}

/// From a start that is no zone, the boundaries reach nothing else.
proof fn lemma_reach_from_outside(
    bs: Seq<ZoneBoundary>,
    colors: Seq<Option<usize>>,
    unlocked: Set<usize>,
    nz: int,
    start: int,
    v: int,
    k: nat,
)
    requires
        boundaries_ok(bs, colors, nz),
        start >= nz,
        door_reach(bs, colors, unlocked, start, v, k),
    ensures
        v == start,
    decreases k,
{
    if v != start {
        let (b, u) = choose|b: int, u: int|
            0 <= b < bs.len() && #[trigger] joins(bs[b], u, v) && edge_open(unlocked, colors[b]) && door_reach(
                bs,
                colors,
                unlocked,
                start,
                u,
                (k - 1) as nat,
            );
        lemma_reach_from_outside(bs, colors, unlocked, nz, start, u, (k - 1) as nat);
        assert(bs[b].zone_a < nz && bs[b].zone_b < nz);
    }
}

/// Inputs of the key pass fit together: the map can be scanned, boundaries
/// join zones that have depths and colour entries, zones are non-empty
/// lists of map tiles, and their number fits in an `i32`.
pub open spec fn keys_inputs_ok(m: &TileMap, zm: &ZoneMap, depths: Seq<usize>, colors: Seq<Option<usize>>) -> bool {
    &&& scan_map(m)
    &&& depths_ok(zm.boundaries@, colors, depths)
    &&& boundaries_ok(zm.boundaries@, colors, zm.zones@.len() as int)
    &&& zm.zones@.len() <= i32::MAX
    &&& forall|zi: int| 0 <= zi < zm.zones@.len() ==> (#[trigger] zm.zones@[zi])@.len() > 0
    &&& forall|zi: int, t: int| 0 <= zi < zm.zones@.len() && 0 <= t < zm.zones@[zi]@.len() ==> #[trigger] zm.zones@[zi]@[t] < m.len()
}

/// Scatters the keys of the locked doors. Colours are taken shallowest
/// first (see [`color_order_ok`]); for each, up to
/// [`KEY_COPIES_PER_COLOR`] random zones that the player reaches with the
/// colours taken before it, and that hold no key yet, get a key, on a random
/// dead end of the zone or, lacking one, a random tile of it. Whatever is
/// drawn, every key lies where the player can fetch it before needing it,
/// no zone holds two keys, and the keys come in one run per colour, each as
/// long as the number of such zones allows, up to [`KEY_COPIES_PER_COLOR`]
/// (see [`key_runs`]).
pub fn place_zone_keys(
    m: &TileMap,
    zone_map: &ZoneMap,
    spawn_map: &SpawnMap,
    depths: &Vec<usize>,
    boundary_colors: &Vec<Option<usize>>,
    start_zone: usize,
    rng: &mut rltk::RandomNumberGenerator,
) -> (keys: Vec<KeyPlacement>)
    requires
        keys_inputs_ok(m, zone_map, depths@, boundary_colors@),
    ensures
        forall|i: int|
            0 <= i < keys@.len() ==> (#[trigger] keys@[i]).zone < zone_map.zones@.len() && key_spot(
                m,
                zone_map,
                spawn_map,
                keys@[i].zone as int,
                keys@[i].pos,
            ),
        forall|i: int, j: int| 0 <= i < j < keys@.len() ==> (#[trigger] keys@[i]).zone != (#[trigger] keys@[j]).zone,
        forall|i: int, j: int| 0 <= i < j < keys@.len() && (#[trigger] keys@[i]).color == (#[trigger] keys@[j]).color ==> j - i < KEY_COPIES_PER_COLOR,
        exists|order: Seq<usize>|
            color_order_ok(zone_map.boundaries@, depths@, boundary_colors@, order) && forall|i: int|
                0 <= i < keys@.len() ==> reached_before_needed(
                    zone_map.boundaries@,
                    boundary_colors@,
                    order,
                    start_zone as int,
                    #[trigger] keys@[i],
                ),
        exists|order: Seq<usize>, runs: Seq<int>|
            color_order_ok(zone_map.boundaries@, depths@, boundary_colors@, order) && key_runs(
                zone_map.boundaries@,
                boundary_colors@,
                order,
                start_zone as int,
                zone_map.zones@.len() as int,
                keys@,
                runs,
            ),
{
    broadcast use vstd::std_specs::hash::group_hash_axioms;
    broadcast use vstd::multiset::group_multiset_axioms;

    let ghost bs = zone_map.boundaries@;
    let ghost cs = boundary_colors@;
    let nz = zone_map.zones.len();
    let adj = zone_graph(zone_map, boundary_colors);
    let dead = dead_ends_by_zone(zone_map, spawn_map);
    let order = key_color_order(zone_map, depths, boundary_colors);
    let mut has_key: Vec<bool> = Vec::new();
    let mut z: usize = 0;
    while z < nz
        invariant
            z <= nz,
            has_key@ == Seq::new(z as nat, |k: int| false),
        decreases nz - z,
    {
        has_key.push(false);
        z = z + 1;
        assert(has_key@ =~= Seq::new(z as nat, |k: int| false));
    }
    let mut unlocked: std::collections::HashSet<usize> = std::collections::HashSet::new();
    let mut keys: Vec<KeyPlacement> = Vec::new();
    let mut ci: usize = 0;
    let ghost mut runs: Seq<int> = seq![0int];
    proof {
        assert(unlocked@ =~= order@.subrange(0, 0).to_set());
    }
    while ci < order.len()
        invariant
            bs == zone_map.boundaries@,
            cs == boundary_colors@,
            nz == zone_map.zones@.len(),
            keys_inputs_ok(m, zone_map, depths@, boundary_colors@),
            adj_in_range(adj@, nz as int),
            graph_of(adj@, bs, cs),
            dead@.len() == nz,
            forall|zi: int| 0 <= zi < nz ==> (#[trigger] dead@[zi])@ == zone_dead_ends(zone_map, spawn_map, zi),
            color_order_ok(bs, depths@, cs, order@),
            ci <= order@.len(),
            unlocked@ == order@.subrange(0, ci as int).to_set(),
            has_key@.len() == nz,
            forall|i: int|
                0 <= i < keys@.len() ==> (#[trigger] keys@[i]).zone < nz && key_spot(
                    m,
                    zone_map,
                    spawn_map,
                    keys@[i].zone as int,
                    keys@[i].pos,
                ) && has_key@[keys@[i].zone as int],
            forall|i: int, j: int| 0 <= i < j < keys@.len() ==> (#[trigger] keys@[i]).zone != (#[trigger] keys@[j]).zone,
            forall|i: int, j: int| 0 <= i < j < keys@.len() && (#[trigger] keys@[i]).color == (#[trigger] keys@[j]).color ==> j - i < KEY_COPIES_PER_COLOR,
            forall|i: int| 0 <= i < keys@.len() ==> color_taken_before(order@, (#[trigger] keys@[i]).color, ci as int),
            forall|zi: int| 0 <= zi < nz && #[trigger] has_key@[zi] ==> exists|i: int| 0 <= i < keys@.len() && keys@[i].zone == zi,
            forall|i: int| 0 <= i < keys@.len() ==> reached_before_needed(bs, cs, order@, start_zone as int, #[trigger] keys@[i]),
            graph_has_all(adj@, bs, cs),
            runs.len() == ci + 1,
            runs[0] == 0,
            runs[ci as int] == keys@.len(),
            forall|c2: int| 0 <= c2 < ci ==> #[trigger] run_ok(bs, cs, order@, start_zone as int, nz as int, keys@, runs, c2),
        decreases order@.len() - ci,
    {
        let color = order[ci];
        let reachable = reachable_zones(adj.as_slice(), start_zone, nz, &unlocked);
        let ghost round_keys = keys@;
        proof {
            assert forall|v: int| 0 <= v < nz implies reachable@[v] == reached_with(
                bs,
                cs,
                order@,
                ci as int,
                start_zone as int,
                v,
            ) by {
                if start_zone < nz {
                    if reachable@[v] {
                        let k = choose|k: nat| open_reach(adj@, unlocked@, start_zone as int, v, k);
                        lemma_graph_reach(adj@, bs, cs, unlocked@, start_zone as int, v, k);
                    }
                    if reached_with(bs, cs, order@, ci as int, start_zone as int, v) {
                        let k = choose|k: nat| door_reach(bs, cs, order@.subrange(0, ci as int).to_set(), start_zone as int, v, k);
                        lemma_reach_in_graph(adj@, bs, cs, unlocked@, start_zone as int, v, k);
                    }
                } else {
                    if reached_with(bs, cs, order@, ci as int, start_zone as int, v) {
                        let k = choose|k: nat| door_reach(bs, cs, order@.subrange(0, ci as int).to_set(), start_zone as int, v, k);
                        lemma_reach_from_outside(bs, cs, unlocked@, nz as int, start_zone as int, v, k);
                    }
                }
            }
            assert forall|v: int| 0 <= v < nz implies has_key@[v] == zone_keyed(keys@, v) by {
                if zone_keyed(keys@, v) {
                    let i = choose|i: int| 0 <= i < keys@.len() && (#[trigger] keys@[i]).zone == v;
                }
            }
        }
        let mut candidates: Vec<usize> = Vec::new();
        let mut zi: usize = 0;
        while zi < nz
            invariant
                nz == zone_map.zones@.len(),
                reachable@.len() == nz,
                has_key@.len() == nz,
                zi <= nz,
                candidates@.len() <= zi,
                forall|t: int| 0 <= t < candidates@.len() ==> (#[trigger] candidates@[t]) < zi && reachable@[candidates@[t] as int]
                    && !has_key@[candidates@[t] as int],
                forall|a: int, b: int| 0 <= a < b < candidates@.len() ==> candidates@[a] < candidates@[b],
                forall|v: int| 0 <= v < nz ==> reachable@[v] == reached_with(bs, cs, order@, ci as int, start_zone as int, v),
                forall|v: int| 0 <= v < nz ==> has_key@[v] == zone_keyed(keys@, v),
                candidates@.len() == free_reached_count(bs, cs, order@, ci as int, start_zone as int, keys@, zi as int),
            decreases nz - zi,
        {
            if reachable[zi] && !has_key[zi] {
                candidates.push(zi);
            }
            zi = zi + 1;
        }
        let ghost listed = candidates@;
        proof {
            assert(listed.no_duplicates()) by {
                assert forall|a: int, b: int| 0 <= a < listed.len() && 0 <= b < listed.len() && a != b implies listed[a]
                    != listed[b] by {
                    if a < b {
                        assert(listed[a] < listed[b]);
                    } else {
                        assert(listed[b] < listed[a]);
                    }
                }
            }
            listed.lemma_multiset_has_no_duplicates();
        }
        fy_shuffle(&mut candidates, rng);
        proof {
            assert forall|x: usize| candidates@.to_multiset().contains(x) implies candidates@.to_multiset().count(x) == 1 by {
                assert(listed.to_multiset().contains(x));
            }
            candidates@.lemma_multiset_has_no_duplicates_conv();
            assert forall|t: int| 0 <= t < candidates@.len() implies listed.contains(#[trigger] candidates@[t]) by {
                vstd::seq_lib::to_multiset_contains(candidates@, candidates@[t]);
                vstd::seq_lib::to_multiset_contains(listed, candidates@[t]);
            }
        }
        let ghost shuffled_len = candidates@.len();
        candidates.truncate(KEY_COPIES_PER_COLOR);
        let ghost chosen = candidates@;
        proof {
            assert(shuffled_len == listed.len());
            assert(chosen.len() == copies_of(free_reached_count(bs, cs, order@, ci as int, start_zone as int, round_keys, nz as int)));
        }
        proof {
            assert forall|t: int| 0 <= t < chosen.len() implies listed.contains(#[trigger] chosen[t]) by {
                assert(listed.contains(chosen[t]));
            }
        }
        let ghost start = keys@.len() as int;
        proof {
            assert(chosen.len() <= KEY_COPIES_PER_COLOR);
            assert(keys@.len() == start);
        }
        let mut t: usize = 0;
        while t < candidates.len()
            invariant
                bs == zone_map.boundaries@,
                cs == boundary_colors@,
                nz == zone_map.zones@.len(),
                keys_inputs_ok(m, zone_map, depths@, boundary_colors@),
                graph_of(adj@, bs, cs),
                dead@.len() == nz,
                forall|zi2: int| 0 <= zi2 < nz ==> (#[trigger] dead@[zi2])@ == zone_dead_ends(zone_map, spawn_map, zi2),
                color_order_ok(bs, depths@, cs, order@),
                ci < order@.len(),
                color == order@[ci as int],
                unlocked@ == order@.subrange(0, ci as int).to_set(),
                reachable@.len() == nz,
                forall|v: int|
                    0 <= v < nz ==> (#[trigger] reachable@[v] ==> exists|k: nat|
                        open_reach(adj@, unlocked@, start_zone as int, v, k)),
                candidates@ == chosen,
                chosen.no_duplicates(),
                forall|t2: int| 0 <= t2 < chosen.len() ==> listed.contains(#[trigger] chosen[t2]),
                forall|t2: int| 0 <= t2 < listed.len() ==> (#[trigger] listed[t2]) < nz && reachable@[listed[t2] as int],
                t <= chosen.len(),
                forall|t2: int| t <= t2 < chosen.len() ==> !has_key@[#[trigger] chosen[t2] as int],
                has_key@.len() == nz,
                forall|i: int|
                    0 <= i < keys@.len() ==> (#[trigger] keys@[i]).zone < nz && key_spot(
                        m,
                        zone_map,
                        spawn_map,
                        keys@[i].zone as int,
                        keys@[i].pos,
                    ) && has_key@[keys@[i].zone as int],
                forall|i: int, j: int| 0 <= i < j < keys@.len() ==> (#[trigger] keys@[i]).zone != (#[trigger] keys@[j]).zone,
                forall|i: int, j: int| 0 <= i < j < keys@.len() && (#[trigger] keys@[i]).color == (#[trigger] keys@[j]).color ==> j - i < KEY_COPIES_PER_COLOR,
                forall|i: int| 0 <= i < start ==> color_taken_before(order@, (#[trigger] keys@[i]).color, ci as int),
                keys@.len() == start + t,
                0 <= start,
                forall|i: int| start <= i < keys@.len() ==> (#[trigger] keys@[i]).color == color,
                chosen.len() <= KEY_COPIES_PER_COLOR,
                forall|zi2: int| 0 <= zi2 < nz && #[trigger] has_key@[zi2] ==> exists|i: int| 0 <= i < keys@.len() && keys@[i].zone == zi2,
                forall|i: int| 0 <= i < keys@.len() ==> reached_before_needed(bs, cs, order@, start_zone as int, #[trigger] keys@[i]),
                round_keys.len() == start,
                forall|i: int| 0 <= i < start ==> keys@[i] == round_keys[i],
            decreases chosen.len() - t,
        {
            let zi = candidates[t];
            proof {
                assert(listed.contains(chosen[t as int]));
                let w = choose|w: int| 0 <= w < listed.len() && listed[w] == zi;
                assert(listed[w] < nz && reachable@[listed[w] as int]);
            }
            let picks = &dead[zi];
            let pos = if picks.len() > 0 {
                let r = rng_range_usize(rng, 0, picks.len());
                picks[r]
            } else {
                let tiles = &zone_map.zones[zi];
                let r = rng_range_usize(rng, 0, tiles.len());
                proof {
                    assert(tiles@[r as int] < m.len());
                    let w = m.width as int;
                    assert(tiles@[r as int] as int / w < m.height) by (nonlinear_arith)
                        requires
                            0 <= tiles@[r as int] < w * m.height,
                            w > 0,
                    ;
                }
                m.idx_pos(tiles[r])
            };
            proof {
                assert(key_spot(m, zone_map, spawn_map, zi as int, pos));
            }
            let key = KeyPlacement { color, zone: zi, pos };
            proof {
                let k = choose|k: nat| open_reach(adj@, unlocked@, start_zone as int, zi as int, k);
                lemma_graph_reach(adj@, bs, cs, unlocked@, start_zone as int, zi as int, k);
                assert(door_reach(bs, cs, order@.subrange(0, ci as int).to_set(), start_zone as int, key.zone as int, k));
                assert(order@[ci as int] == key.color);
                assert(reached_before_needed(bs, cs, order@, start_zone as int, key));
            }
            let ghost old_keys = keys@;
            let ghost old_has = has_key@;
            keys.push(key);
            has_key.set(zi, true);
            proof {
                assert(keys@ == old_keys.push(key));
                assert forall|i: int| 0 <= i < keys@.len() implies (#[trigger] keys@[i]).zone < nz && key_spot(
                    m,
                    zone_map,
                    spawn_map,
                    keys@[i].zone as int,
                    keys@[i].pos,
                ) && has_key@[keys@[i].zone as int] by {
                    if i < old_keys.len() {
                        assert(keys@[i] == old_keys[i]);
                    }
                }
                assert forall|i: int, j: int| 0 <= i < j < keys@.len() implies (#[trigger] keys@[i]).zone != (
                #[trigger] keys@[j]).zone by {
                    if j == old_keys.len() {
                        assert(keys@[i] == old_keys[i]);
                        assert(old_has[old_keys[i].zone as int]);
                    } else {
                        assert(keys@[i] == old_keys[i] && keys@[j] == old_keys[j]);
                    }
                }
                assert forall|zi2: int| 0 <= zi2 < nz && #[trigger] has_key@[zi2] implies exists|i: int|
                    0 <= i < keys@.len() && keys@[i].zone == zi2 by {
                    if zi2 == zi as int {
                        assert(keys@[old_keys.len() as int].zone == zi);
                    } else {
                        assert(old_has[zi2]);
                        let i = choose|i: int| 0 <= i < old_keys.len() && old_keys[i].zone == zi2;
                        assert(keys@[i] == old_keys[i]);
                    }
                }
                assert forall|i: int| 0 <= i < keys@.len() implies reached_before_needed(
                    bs,
                    cs,
                    order@,
                    start_zone as int,
                    #[trigger] keys@[i],
                ) by {
                    if i < old_keys.len() {
                        assert(keys@[i] == old_keys[i]);
                    }
                }
                assert forall|i: int, j: int| 0 <= i < j < keys@.len() && (#[trigger] keys@[i]).color == (
                #[trigger] keys@[j]).color implies j - i < KEY_COPIES_PER_COLOR by {
                    if j == old_keys.len() {
                        assert(keys@[i] == old_keys[i]);
                        if i < start {
                            assert(color_taken_before(order@, old_keys[i].color, ci as int));
                            let cj = choose|cj: int| 0 <= cj < ci && #[trigger] order@[cj] == old_keys[i].color;
                            assert(order@[cj] != order@[ci as int]);
                        }
                    } else {
                        assert(keys@[i] == old_keys[i] && keys@[j] == old_keys[j]);
                    }
                }
                assert forall|i: int| start <= i < keys@.len() implies (#[trigger] keys@[i]).color == color by {
                    if i < old_keys.len() {
                        assert(keys@[i] == old_keys[i]);
                    }
                }
                assert(old_keys.len() == start + t);
                assert forall|i: int| 0 <= i < start implies color_taken_before(order@, (#[trigger] keys@[i]).color, ci as int) by {
                    assert(keys@[i] == old_keys[i]);
                    assert(color_taken_before(order@, old_keys[i].color, ci as int));
                }
                assert forall|t2: int| t + 1 <= t2 < chosen.len() implies !has_key@[#[trigger] chosen[t2] as int] by {
                    assert(chosen[t2] != chosen[t as int]);
                }
            }
            t = t + 1;
        }
        proof {
            let new_runs = runs.push(keys@.len() as int);
            assert forall|c2: int| 0 <= c2 < ci + 1 implies #[trigger] run_ok(
                bs,
                cs,
                order@,
                start_zone as int,
                nz as int,
                keys@,
                new_runs,
                c2,
            ) by {
                assert(new_runs[c2] == runs[c2]);
                if c2 < ci {
                    assert(run_ok(bs, cs, order@, start_zone as int, nz as int, round_keys, runs, c2));
                    assert(new_runs[c2 + 1] == runs[c2 + 1]);
                    assert(keys@.subrange(0, runs[c2]) =~= round_keys.subrange(0, runs[c2]));
                    assert forall|i: int| new_runs[c2] <= i < new_runs[c2 + 1] implies (#[trigger] keys@[i]).color == order@[c2] by {
                        assert(keys@[i] == round_keys[i]);
                    }
                } else {
                    assert(keys@.subrange(0, start) =~= round_keys);
                    assert(new_runs[c2 + 1] == keys@.len());
                }
            }
            runs = new_runs;
        }
        proof {
            assert forall|i: int| 0 <= i < keys@.len() implies color_taken_before(order@, (#[trigger] keys@[i]).color, ci + 1) by {
                if i >= start {
                    assert(order@[ci as int] == keys@[i].color);
                } else {
                    assert(color_taken_before(order@, keys@[i].color, ci as int));
                    let cj = choose|cj: int| 0 <= cj < ci && #[trigger] order@[cj] == keys@[i].color;
                    assert(order@[cj] == keys@[i].color);
                }
            }
        }
        let ghost old_unlocked = unlocked@;
        unlocked.insert(color);
        proof {
            let s1 = order@.subrange(0, ci as int);
            let s2 = order@.subrange(0, ci + 1);
            assert(unlocked@ =~= s2.to_set()) by {
                assert forall|c: usize| unlocked@.contains(c) <==> s2.to_set().contains(c) by {
                    if c == color {
                        assert(s2[ci as int] == c);
                    }
                    if s2.contains(c) && c != color {
                        let w = choose|w: int| 0 <= w < s2.len() && s2[w] == c;
                        assert(s1[w] == c);
                    }
                    if old_unlocked.contains(c) {
                        let w = choose|w: int| 0 <= w < s1.len() && s1[w] == c;
                        assert(s2[w] == c);
                    }
                }
            }
        }
        ci = ci + 1;
    }
    proof {
        assert(key_runs(bs, cs, order@, start_zone as int, nz as int, keys@, runs));
    }
    keys
}

/// Holding more keys never shuts a zone off: what is reached with the
/// colours of `fewer` is reached with those of any larger set.
pub proof fn law_more_keys_reach_more(
    bs: Seq<ZoneBoundary>,
    colors: Seq<Option<usize>>,
    fewer: Set<usize>,
    more: Set<usize>,
    start: int,
    v: int,
    k: nat,
)
    requires
        fewer.subset_of(more),
        door_reach(bs, colors, fewer, start, v, k),
    ensures
        door_reach(bs, colors, more, start, v, k),
    decreases k,
{
    if v != start {
        let (b, u) = choose|b: int, u: int|
            0 <= b < bs.len() && #[trigger] joins(bs[b], u, v) && edge_open(fewer, colors[b]) && door_reach(
                bs,
                colors,
                fewer,
                start,
                u,
                (k - 1) as nat,
            );
        law_more_keys_reach_more(bs, colors, fewer, more, start, u, (k - 1) as nat);
        assert(edge_open(more, colors[b]));
    }
}

} // verus!
