//! What an entity sees: the field of view around it, cut to the half-plane
//! it faces.
use vstd::prelude::*;
use crate::geom::{Direction, Point, spec_delta};
use crate::map::TileMap;

verus! {

/// The tiles an entity sees, recomputed when `dirty`.
pub struct Viewshed {
    pub dirty: bool,
    pub range: i32,
    pub visible_tiles: Vec<Point>,
}

/// Tile `p` lies within the map bounds the cone keeps: inside the map's
/// columns, and below its first row.
pub open spec fn cone_bounds(p: Point, width: int, height: int) -> bool {
    0 <= p.x < width && 0 < p.y < height
}

/// Tile `p` lies on the side of `pos` that `facing` looks at (the
/// half-plane through `pos`, the dividing line included).
pub open spec fn faces_toward(pos: Point, facing: Direction, p: Point) -> bool {
    let dx = p.x - pos.x;
    let dy = p.y - pos.y;
    match facing {
        Direction::Up => p.y <= pos.y,
        Direction::UpRight => dx >= dy,
        Direction::Right => p.x >= pos.x,
        Direction::DownRight => dx >= -dy,
        Direction::Down => p.y >= pos.y,
        Direction::DownLeft => dx <= dy,
        Direction::Left => p.x <= pos.x,
        Direction::UpLeft => dx <= -dy,
    }
}

/// The tiles among the first `k` of `fov` that the cone keeps, in order.
pub open spec fn cone_of(fov: Seq<Point>, pos: Point, facing: Direction, width: int, height: int, k: int) -> Seq<Point>
    decreases k,
{
    if k <= 0 {
        Seq::empty()
    } else {
        let prev = cone_of(fov, pos, facing, width, height, k - 1);
        let p = fov[k - 1];
        if faces_toward(pos, facing, p) && cone_bounds(p, width, height) {
            prev.push(p)
        } else {
            prev
        }
    }
}

/// Whether the entity at `pos` facing `facing` keeps seeing `p`.
fn keeps(pos: Point, facing: Direction, p: Point, width: usize, height: usize) -> (r: bool)
    ensures
        r == (faces_toward(pos, facing, p) && cone_bounds(p, width as int, height as int)),
{
    let dx = p.x as i64 - pos.x as i64;
    let dy = p.y as i64 - pos.y as i64;
    let side = match facing {
        Direction::Up => p.y <= pos.y,
        Direction::UpRight => dx >= dy,
        Direction::Right => p.x >= pos.x,
        Direction::DownRight => dx >= -dy,
        Direction::Down => p.y >= pos.y,
        Direction::DownLeft => dx <= dy,
        Direction::Left => p.x <= pos.x,
        Direction::UpLeft => dx <= -dy,
    };
    side && p.x >= 0 && (p.x as usize) < width && p.y > 0 && (p.y as usize) < height
}

impl Viewshed {
    /// A viewshed of range 10 that sees nothing yet and wants computing.
    pub fn new() -> (r: Viewshed)
        ensures
            r.dirty,
            r.range == 10,
            r.visible_tiles@ == Seq::<Point>::empty(),
    {
        Viewshed { dirty: true, range: 10, visible_tiles: Vec::new() }
    }

    /// When dirty, takes `fov` (the field of view around `pos` within
    /// `range`) as the visible tiles, keeping those on the side `facing`
    /// looks at and within the map's bounds (see [`cone_of`]), and clears
    /// `dirty`. A clean viewshed stays as it is.
    pub fn update(&mut self, pos: Point, facing: Direction, width: usize, height: usize, fov: Vec<Point>)
        ensures
            old(self).dirty ==> {
                &&& !final(self).dirty
                &&& final(self).range == old(self).range
                &&& final(self).visible_tiles@ == cone_of(fov@, pos, facing, width as int, height as int, fov@.len() as int)
            },
            !old(self).dirty ==> *final(self) == *old(self),
    {
        if self.dirty {
            self.dirty = false;
            let mut kept: Vec<Point> = Vec::new();
            let mut i: usize = 0;
            while i < fov.len()
                invariant
                    i <= fov@.len(),
                    kept@ == cone_of(fov@, pos, facing, width as int, height as int, i as int),
                decreases fov@.len() - i,
            {
                let p = fov[i];
                if keeps(pos, facing, p, width, height) {
                    kept.push(p);
                }
                i = i + 1;
            }
            self.visible_tiles = kept;
        }
    }
}

/// Tile index `i` of a map `width` tiles wide is the index of one of the
/// points of `pts`.
pub open spec fn index_seen(width: int, pts: Seq<Point>, i: int) -> bool {
    exists|k: int| 0 <= k < pts.len() && (#[trigger] pts[k]).y * width + pts[k].x == i
}

/// Makes the tiles of `visible` (the player's view) the visible ones, and
/// marks them revealed; every other tile stops being visible, and revealed
/// tiles stay revealed.
pub fn mark_visible(m: &mut TileMap, visible: &Vec<Point>)
    requires
        old(m).wf(),
        forall|k: int|
            0 <= k < visible@.len() ==> 0 <= (#[trigger] visible@[k]).x < old(m).width && 0 <= visible@[k].y
                < old(m).height,
    ensures
        final(m).wf(),
        final(m).width == old(m).width && final(m).height == old(m).height,
        final(m).tiles@ == old(m).tiles@ && final(m).pawns@ == old(m).pawns@ && final(m).items@ == old(m).items@,
        forall|i: int|
            0 <= i < old(m).len() ==> (#[trigger] final(m).visible_tiles@[i] <==> index_seen(old(m).width as int, visible@, i)),
        forall|i: int|
            0 <= i < old(m).len() ==> (#[trigger] final(m).revealed_tiles@[i] <==> (old(m).revealed_tiles@[i]
                || index_seen(old(m).width as int, visible@, i))),
{
    let ghost m0 = *m;
    let n = m.visible_tiles.len();
    let mut i: usize = 0;
    while i < n
        invariant
            m.wf(),
            m.width == m0.width && m.height == m0.height,
            m.tiles@ == m0.tiles@ && m.pawns@ == m0.pawns@ && m.items@ == m0.items@,
            m.revealed_tiles@ == m0.revealed_tiles@,
            n == m.visible_tiles@.len(),
            i <= n,
            forall|j: int| 0 <= j < i ==> !#[trigger] m.visible_tiles@[j],
        decreases n - i,
    {
        m.visible_tiles.set(i, false);
        i = i + 1;
    }
    let mut k: usize = 0;
    while k < visible.len()
        invariant
            m.wf(),
            m.width == m0.width && m.height == m0.height,
            m.tiles@ == m0.tiles@ && m.pawns@ == m0.pawns@ && m.items@ == m0.items@,
            forall|k2: int|
                0 <= k2 < visible@.len() ==> 0 <= (#[trigger] visible@[k2]).x < m0.width && 0 <= visible@[k2].y
                    < m0.height,
            k <= visible@.len(),
            forall|j: int|
                0 <= j < m0.len() ==> (#[trigger] m.visible_tiles@[j] <==> index_seen(m0.width as int, visible@.take(k as int), j)),
            forall|j: int|
                0 <= j < m0.len() ==> (#[trigger] m.revealed_tiles@[j] <==> (m0.revealed_tiles@[j] || index_seen(
                    m0.width as int,
                    visible@.take(k as int),
                    j,
                ))),
        decreases visible@.len() - k,
    {
        let p = visible[k];
        proof {
            assert(p.y * m.width + p.x < m.len()) by (nonlinear_arith)
                requires
                    0 <= p.x < m.width,
                    0 <= p.y < m.height,
            ;
        }
        let idx = m.xy_idx(p.x, p.y);
        m.revealed_tiles.set(idx, true);
        m.visible_tiles.set(idx, true);
        proof {
            let before = visible@.take(k as int);
            let after = visible@.take(k + 1);
            assert forall|j: int| 0 <= j < m0.len() implies index_seen(m0.width as int, after, j) == (index_seen(m0.width as int, before, j)
                || j == idx) by {
                if index_seen(m0.width as int, before, j) {
                    let w = choose|w: int| 0 <= w < before.len() && m0.idx_of(before[w].x as int, before[w].y as int) == j;
                    assert(after[w] == before[w]);
                }
                if j == idx {
                    assert(after[k as int] == p);
                }
                if index_seen(m0.width as int, after, j) && j != idx {
                    let w = choose|w: int| 0 <= w < after.len() && m0.idx_of(after[w].x as int, after[w].y as int) == j;
                    assert(w != k);
                    assert(before[w] == after[w]);
                }
            }
        }
        k = k + 1;
    }
    proof {
        assert(visible@.take(visible@.len() as int) =~= visible@);
    }
}

/// Every tile the cone keeps lies within the bounds it was cut to.
proof fn lemma_cone_in_bounds(fov: Seq<Point>, pos: Point, facing: Direction, width: int, height: int, k: int)
    requires
        0 <= k <= fov.len(),
    ensures
        forall|j: int|
            0 <= j < cone_of(fov, pos, facing, width, height, k).len() ==> cone_bounds(
                #[trigger] cone_of(fov, pos, facing, width, height, k)[j],
                width,
                height,
            ),
    decreases k,
{
    if k > 0 {
        lemma_cone_in_bounds(fov, pos, facing, width, height, k - 1);
        let prev = cone_of(fov, pos, facing, width, height, k - 1);
        let cur = cone_of(fov, pos, facing, width, height, k);
        assert forall|j: int| 0 <= j < cur.len() implies cone_bounds(#[trigger] cur[j], width, height) by {
            if j < prev.len() {
                assert(cur[j] == prev[j]);
            }
        }
    }
}

/// One entity's turn of the vision pass: its viewshed is brought up to date
/// from `fov` (see [`Viewshed::update`]); when it was out of date and the
/// entity is the player, the map's visible tiles become exactly the new
/// view, and those tiles are revealed too. Revealed tiles always stay
/// revealed, and a viewshed that was up to date changes nothing.
pub fn refresh_view(
    m: &mut TileMap,
    vs: &mut Viewshed,
    is_player: bool,
    pos: Point,
    facing: Direction,
    fov: Vec<Point>,
)
    requires
        old(m).wf(),
    ensures
        final(m).wf(),
        final(m).width == old(m).width && final(m).height == old(m).height,
        final(m).tiles@ == old(m).tiles@ && final(m).pawns@ == old(m).pawns@ && final(m).items@ == old(m).items@,
        old(vs).dirty ==> {
            &&& !final(vs).dirty
            &&& final(vs).range == old(vs).range
            &&& final(vs).visible_tiles@ == cone_of(
                fov@,
                pos,
                facing,
                old(m).width as int,
                old(m).height as int,
                fov@.len() as int,
            )
        },
        !old(vs).dirty ==> *final(vs) == *old(vs) && *final(m) == *old(m),
        !(old(vs).dirty && is_player) ==> *final(m) == *old(m),
        forall|i: int| 0 <= i < old(m).len() && #[trigger] old(m).revealed_tiles@[i] ==> final(m).revealed_tiles@[i],
        old(vs).dirty && is_player ==> forall|i: int|
            0 <= i < old(m).len() ==> (#[trigger] final(m).visible_tiles@[i] <==> index_seen(
                old(m).width as int,
                final(vs).visible_tiles@,
                i,
            )) && (final(m).visible_tiles@[i] ==> final(m).revealed_tiles@[i]),
{
    let was_dirty = vs.dirty;
    vs.update(pos, facing, m.width, m.height, fov);
    if was_dirty && is_player {
        proof {
            lemma_cone_in_bounds(fov@, pos, facing, m.width as int, m.height as int, fov@.len() as int);
            assert forall|k: int| 0 <= k < vs.visible_tiles@.len() implies 0 <= (#[trigger] vs.visible_tiles@[k]).x
                < m.width && 0 <= vs.visible_tiles@[k].y < m.height by {
                assert(cone_bounds(vs.visible_tiles@[k], m.width as int, m.height as int));
            }
        }
        mark_visible(m, &vs.visible_tiles);
    }
}

/// Facing `facing` from `pos` keeps exactly the tiles on the side of that
/// facing's step: those whose offset from `pos` has a non-negative dot
/// product with the step. Facing left keeps the tiles with `p.x <= pos.x`,
/// the mirror image of facing right.
pub proof fn law_faces_toward_step(pos: Point, facing: Direction, p: Point)
    ensures
        faces_toward(pos, facing, p) <==> (p.x - pos.x) * spec_delta(facing).0 + (p.y - pos.y) * spec_delta(facing).1 >= 0,
        faces_toward(pos, facing, p) || faces_toward(pos, opposite(facing), p),
        faces_toward(pos, facing, p) && faces_toward(pos, opposite(facing), p) ==> (p.x - pos.x) * spec_delta(facing).0
            + (p.y - pos.y) * spec_delta(facing).1 == 0,
{
    let dx = p.x - pos.x;
    let dy = p.y - pos.y;
    let (a, b) = spec_delta(facing);
    assert(dx * a + dy * b == dx * a + dy * b);
    match facing {
        Direction::Up => {
            assert(dx * 0 + dy * -1 == -dy) by (nonlinear_arith);
        },
        Direction::UpRight => {
            assert(dx * 1 + dy * -1 == dx - dy) by (nonlinear_arith);
        },
        Direction::Right => {
            assert(dx * 1 + dy * 0 == dx) by (nonlinear_arith);
        },
        Direction::DownRight => {
            assert(dx * 1 + dy * 1 == dx + dy) by (nonlinear_arith);
        },
        Direction::Down => {
            assert(dx * 0 + dy * 1 == dy) by (nonlinear_arith);
        },
        Direction::DownLeft => {
            assert(dx * -1 + dy * 1 == dy - dx) by (nonlinear_arith);
        },
        Direction::Left => {
            assert(dx * -1 + dy * 0 == -dx) by (nonlinear_arith);
        },
        Direction::UpLeft => {
            assert(dx * -1 + dy * -1 == -dx - dy) by (nonlinear_arith);
        },
    }
}

/// The facing pointing the other way.
pub open spec fn opposite(d: Direction) -> Direction {
    match d {
        Direction::Up => Direction::Down,
        Direction::UpRight => Direction::DownLeft,
        Direction::Right => Direction::Left,
        Direction::DownRight => Direction::UpLeft,
        Direction::Down => Direction::Up,
        Direction::DownLeft => Direction::UpRight,
        Direction::Left => Direction::Right,
        Direction::UpLeft => Direction::DownRight,
    }
}

/// The cone kept from a field of view holds exactly the tiles of the field
/// of view that lie within the bounds and on the side of the facing's step
/// (non-negative dot product of their offset with the step).
pub proof fn law_cone_keeps_facing_side(fov: Seq<Point>, pos: Point, facing: Direction, width: int, height: int, k: int)
    requires
        0 <= k <= fov.len(),
    ensures
        forall|p: Point|
            #[trigger] cone_of(fov, pos, facing, width, height, k).contains(p) <==> (fov.take(k).contains(p) && cone_bounds(
                p,
                width,
                height,
            ) && (p.x - pos.x) * spec_delta(facing).0 + (p.y - pos.y) * spec_delta(facing).1 >= 0),
    decreases k,
{
    if k > 0 {
        law_cone_keeps_facing_side(fov, pos, facing, width, height, k - 1);
        let prev = cone_of(fov, pos, facing, width, height, k - 1);
        let cur = cone_of(fov, pos, facing, width, height, k);
        let q = fov[k - 1];
        let t0 = fov.take(k - 1);
        let t1 = fov.take(k);
        law_faces_toward_step(pos, facing, q);
        assert(t1 =~= t0.push(q));
        assert forall|p: Point| cur.contains(p) <==> (fov.take(k).contains(p) && cone_bounds(p, width, height) && (p.x
            - pos.x) * spec_delta(facing).0 + (p.y - pos.y) * spec_delta(facing).1 >= 0) by {
            law_faces_toward_step(pos, facing, p);
            if cur.contains(p) {
                let j = choose|j: int| 0 <= j < cur.len() && cur[j] == p;
                if j < prev.len() {
                    assert(prev[j] == p);
                    assert(prev.contains(p));
                    assert(t0.contains(p));
                    let w = choose|w: int| 0 <= w < t0.len() && t0[w] == p;
                    assert(t0[w] == fov[w]);
                    assert(t1[w] == fov[w]);
                    assert(t1[w] == p);
                } else {
                    assert(p == q);
                    assert(t1[k - 1] == p);
                }
            }
            if fov.take(k).contains(p) && cone_bounds(p, width, height) && (p.x - pos.x) * spec_delta(facing).0 + (p.y
                - pos.y) * spec_delta(facing).1 >= 0 {
                let w = choose|w: int| 0 <= w < t1.len() && t1[w] == p;
                if w < k - 1 {
                    assert(t0[w] == p);
                    assert(t0.contains(p));
                    assert(prev.contains(p));
                    let j = choose|j: int| 0 <= j < prev.len() && prev[j] == p;
                    assert(cur[j] == p);
                } else {
                    assert(p == q);
                    assert(cur[cur.len() - 1] == p);
                }
            }
        }
    }
}

} // verus!
