//! Where guards go: sentinels posted a few tiles from doorways, and
//! patrollers starting at road junctions. These passes choose positions and
//! facings; creating the actors is left to the world.
use vstd::prelude::*;
use crate::geom::{Direction, Point, chebyshev, dir_of_delta, dir_toward, guard_too_close, sign, spec_chebyshev};
use crate::keys::contains_index;
use crate::map::TileMap;
use crate::spawn::{SpawnCategory, SpawnMap, ZoneMap, fy_shuffle, is_spawnable, scan_map, spec_passable};
use crate::tile::TileType;

verus! {

/// A sentinel keeps at least this Chebyshev distance from other guards.
pub const SENTINEL_MIN_DIST: i32 = 5;
/// A patroller keeps at least this Chebyshev distance from other guards.
pub const PATROLLER_MIN_DIST: i32 = 15;
/// The second junction of a patrol lies at least this far from the first.
pub const MIN_PATROL_DIST: i32 = 20;
/// The second junction of a patrol lies at most this far from the first.
pub const MAX_PATROL_DIST: i32 = 80;

/// A place to post a sentinel: the guard's tile, the doorway it watches, and
/// whether that doorway opens onto an interesting zone.
#[derive(Clone, Copy, PartialEq, Eq, Structural, Debug)]
pub struct GuardPost {
    pub pos: Point,
    pub door: Point,
    pub guards_interesting: bool,
}

/// The direction `dir_toward` gives: toward `to`, or north when the tiles
/// coincide.
pub open spec fn spec_dir_toward(from: Point, to: Point) -> Direction {
    if from == to {
        Direction::Up
    } else {
        dir_of_delta(sign(to.x - from.x), sign(to.y - from.y))->0
    }
}

/// `(x, y)` lies on the map.
pub open spec fn in_map(m: &TileMap, x: int, y: int) -> bool {
    0 <= x < m.width && 0 <= y < m.height
}

/// The tile `(x, y)` is on the map and belongs to a zone marked interesting.
pub open spec fn interesting_at(m: &TileMap, zm: &ZoneMap, interesting: Seq<bool>, x: int, y: int) -> bool {
    in_map(m, x, y) && match zm.tile_zone@[m.idx_of(x, y)] {
        Some(zi) => zi < interesting.len() && interesting[zi as int],
        None => false,
    }
}

/// One of the four tiles next to the doorway lies in an interesting zone.
pub open spec fn door_guards_interesting(m: &TileMap, zm: &ZoneMap, interesting: Seq<bool>, d: Point) -> bool {
    ||| interesting_at(m, zm, interesting, d.x as int, d.y - 1)
    ||| interesting_at(m, zm, interesting, d.x + 1, d.y as int)
    ||| interesting_at(m, zm, interesting, d.x as int, d.y + 1)
    ||| interesting_at(m, zm, interesting, d.x - 1, d.y as int)
}

/// Offset of the `k`-th place tried for a sentinel: three tiles north, east,
/// south, then west of the doorway.
pub open spec fn post_offset(k: int) -> (int, int) {
    if k == 0 {
        (0, -3)
    } else if k == 1 {
        (3, 0)
    } else if k == 2 {
        (0, 3)
    } else {
        (-3, 0)
    }
}

/// The `k`-th place around doorway `d` is on the map and can be stood on.
pub open spec fn post_fits(m: &TileMap, d: Point, k: int) -> bool {
    let x = d.x + post_offset(k).0;
    let y = d.y + post_offset(k).1;
    in_map(m, x, y) && spec_passable(m.tiles@[m.idx_of(x, y)])
}

/// The first of the places `k..4` around doorway `d` that fits.
pub open spec fn first_post_from(m: &TileMap, d: Point, k: int) -> Option<Point>
    decreases 4 - k,
{
    if k >= 4 {
        None
    } else if post_fits(m, d, k) {
        Some(Point { x: (d.x + post_offset(k).0) as i32, y: (d.y + post_offset(k).1) as i32 })
    } else {
        first_post_from(m, d, k + 1)
    }
}

/// The position of tile index `i`.
pub open spec fn tile_point(m: &TileMap, i: int) -> Point {
    Point { x: (i % (m.width as int)) as i32, y: (i / (m.width as int)) as i32 }
}

/// Sentinel posts of the doorways among the first `n` tiles, in tile order.
pub open spec fn guard_posts_upto(m: &TileMap, zm: &ZoneMap, interesting: Seq<bool>, n: int) -> Seq<GuardPost>
    decreases n,
{
    if n <= 0 {
        Seq::empty()
    } else {
        let prev = guard_posts_upto(m, zm, interesting, n - 1);
        let d = tile_point(m, n - 1);
        if m.tiles@[n - 1] == TileType::Doorway && first_post_from(m, d, 0) is Some {
            prev.push(
                GuardPost {
                    pos: first_post_from(m, d, 0)->0,
                    door: d,
                    guards_interesting: door_guards_interesting(m, zm, interesting, d),
                },
            )
        } else {
            prev
        }
    }
}

/// The map can be scanned, a few tiles past its edges still fit in an
/// `i32`, and the zone labels cover it.
pub open spec fn guard_map_ok(m: &TileMap, zm: &ZoneMap) -> bool {
    &&& scan_map(m)
    &&& m.width + 3 <= i32::MAX
    &&& m.height + 3 <= i32::MAX
    &&& zm.tile_zone@.len() == m.len()
}

/// The tile `(x, y)` is on the map and belongs to an interesting zone.
fn interesting_tile(m: &TileMap, zm: &ZoneMap, interesting: &Vec<bool>, x: i32, y: i32) -> (r: bool)
    requires
        guard_map_ok(m, zm),
    ensures
        r == interesting_at(m, zm, interesting@, x as int, y as int),
{
    if x < 0 || y < 0 || x as usize >= m.width || y as usize >= m.height {
        return false;
    }
    proof {
        assert(y * m.width + x < m.len()) by (nonlinear_arith)
            requires
                0 <= x < m.width,
                0 <= y < m.height,
        ;
    }
    let ni = m.xy_idx(x, y);
    match zm.tile_zone[ni] {
        Some(zi) => zi < interesting.len() && interesting[zi],
        None => false,
    }
}

/// The first place around doorway `d` that a sentinel can stand on.
fn first_post(m: &TileMap, d: Point) -> (r: Option<Point>)
    requires
        scan_map(m),
        m.width + 3 <= i32::MAX,
        m.height + 3 <= i32::MAX,
        0 <= d.x < m.width,
        0 <= d.y < m.height,
    ensures
        r == first_post_from(m, d, 0),
{
    let mut k: usize = 0;
    while k < 4
        invariant
            scan_map(m),
            m.width + 3 <= i32::MAX,
            m.height + 3 <= i32::MAX,
            0 <= d.x < m.width,
            0 <= d.y < m.height,
            k <= 4,
            first_post_from(m, d, 0) == first_post_from(m, d, k as int),
        decreases 4 - k,
    {
        let (dx, dy): (i32, i32) = if k == 0 {
            (0, -3)
        } else if k == 1 {
            (3, 0)
        } else if k == 2 {
            (0, 3)
        } else {
            (-3, 0)
        };
        assert(dx == post_offset(k as int).0 && dy == post_offset(k as int).1);
        let nx = d.x + dx;
        let ny = d.y + dy;
        if nx >= 0 && ny >= 0 && (nx as usize) < m.width && (ny as usize) < m.height {
            proof {
                assert(ny * m.width + nx < m.len()) by (nonlinear_arith)
                    requires
                        0 <= nx < m.width,
                        0 <= ny < m.height,
                ;
            }
            let nidx = m.xy_idx(nx, ny);
            if is_spawnable(m.tiles[nidx]) {
                return Some(Point { x: nx, y: ny });
            }
        }
        k = k + 1;
    }
    None
}

/// The sentinel posts of every doorway that has one, in tile order: the
/// first of the tiles three steps north, east, south and west of the
/// doorway that lies on the map and can be stood on.
pub fn guard_posts(m: &TileMap, zone_map: &ZoneMap, interesting: &Vec<bool>) -> (r: Vec<GuardPost>)
    requires
        guard_map_ok(m, zone_map),
    ensures
        r@ == guard_posts_upto(m, zone_map, interesting@, m.len()),
{
    let n = m.width * m.height;
    let mut out: Vec<GuardPost> = Vec::new();
    let mut idx: usize = 0;
    while idx < n
        invariant
            guard_map_ok(m, zone_map),
            n == m.len(),
            idx <= n,
            out@ == guard_posts_upto(m, zone_map, interesting@, idx as int),
        decreases n - idx,
    {
        if m.tiles[idx] == TileType::Doorway {
            proof {
                let w = m.width as int;
                assert(idx as int / w < m.height) by (nonlinear_arith)
                    requires
                        0 <= idx < w * m.height,
                        w > 0,
                ;
            }
            let d = m.idx_pos(idx);
            proof {
                assert(d == tile_point(m, idx as int));
            }
            match first_post(m, d) {
                Some(g) => {
                    let gi = interesting_tile(m, zone_map, interesting, d.x, d.y - 1) || interesting_tile(
                        m,
                        zone_map,
                        interesting,
                        d.x + 1,
                        d.y,
                    ) || interesting_tile(m, zone_map, interesting, d.x, d.y + 1) || interesting_tile(
                        m,
                        zone_map,
                        interesting,
                        d.x - 1,
                        d.y,
                    );
                    out.push(GuardPost { pos: g, door: d, guards_interesting: gi });
                },
                None => {},
            }
        }
        idx = idx + 1;
    }
    out
}

/// The posts among the first `k` of `s` whose doorway opens (or, with
/// `want` false, does not open) onto an interesting zone, in order.
pub open spec fn posts_with_interest(s: Seq<GuardPost>, want: bool, k: int) -> Seq<GuardPost>
    decreases k,
{
    if k <= 0 {
        Seq::empty()
    } else {
        let prev = posts_with_interest(s, want, k - 1);
        if s[k - 1].guards_interesting == want {
            prev.push(s[k - 1])
        } else {
            prev
        }
    }
}

/// `s` with the posts guarding interesting zones moved to the front, each
/// group keeping its order.
pub open spec fn interesting_first(s: Seq<GuardPost>) -> Seq<GuardPost> {
    posts_with_interest(s, true, s.len() as int) + posts_with_interest(s, false, s.len() as int)
}

/// Shuffles the posts, then moves those guarding interesting zones to the
/// front, keeping the shuffled order within each group.
pub fn order_guard_posts(posts: &mut Vec<GuardPost>, rng: &mut rltk::RandomNumberGenerator)
    requires
        old(posts)@.len() <= i32::MAX,
    ensures
        exists|shuffled: Seq<GuardPost>|
            shuffled.to_multiset() == old(posts)@.to_multiset() && final(posts)@ == interesting_first(shuffled),
{
    fy_shuffle(posts, rng);
    let ghost shuffled = posts@;
    let mut out: Vec<GuardPost> = Vec::new();
    let mut i: usize = 0;
    while i < posts.len()
        invariant
            posts@ == shuffled,
            i <= shuffled.len(),
            out@ == posts_with_interest(shuffled, true, i as int),
        decreases shuffled.len() - i,
    {
        if posts[i].guards_interesting {
            out.push(posts[i]);
        }
        i = i + 1;
    }
    let ghost front = out@;
    let mut j: usize = 0;
    while j < posts.len()
        invariant
            posts@ == shuffled,
            j <= shuffled.len(),
            front == posts_with_interest(shuffled, true, shuffled.len() as int),
            out@ == front + posts_with_interest(shuffled, false, j as int),
        decreases shuffled.len() - j,
    {
        if !posts[j].guards_interesting {
            out.push(posts[j]);
        }
        j = j + 1;
        assert(out@ =~= front + posts_with_interest(shuffled, false, j as int));
    }
    *posts = out;
    proof {
        assert(shuffled.to_multiset() == old(posts)@.to_multiset() && posts@ == interesting_first(shuffled));
    }
}

/// A guard at `pos` would stand closer than `min_dist` to one of `placed`.
pub open spec fn too_close(pos: Point, placed: Seq<Point>, min_dist: int) -> bool {
    exists|i: int| 0 <= i < placed.len() && spec_chebyshev(pos, #[trigger] placed[i]) < min_dist
}

/// The direction a sentinel at `post` faces: toward its doorway when it
/// stands on a floor tile, away from it otherwise.
pub open spec fn sentinel_facing(m: &TileMap, post: GuardPost) -> Direction {
    if m.tiles@[m.idx_of(post.pos.x as int, post.pos.y as int)] == TileType::Floor {
        spec_dir_toward(post.pos, post.door)
    } else {
        spec_dir_toward(post.door, post.pos)
    }
}

/// The positions of a list of picks.
pub open spec fn pick_positions(picks: Seq<(Point, Direction)>) -> Seq<Point> {
    Seq::new(picks.len(), |i: int| picks[i].0)
}

/// The sentinels posted from the first `k` posts: a post is taken while
/// fewer than `target` are posted, unless it lies too close to a guard
/// already placed (those of `placed`, then the sentinels before it).
pub open spec fn sentinel_picks(
    m: &TileMap,
    posts: Seq<GuardPost>,
    target: int,
    placed: Seq<Point>,
    k: int,
) -> Seq<(Point, Direction)>
    decreases k,
{
    if k <= 0 {
        Seq::empty()
    } else {
        let prev = sentinel_picks(m, posts, target, placed, k - 1);
        let post = posts[k - 1];
        if prev.len() >= target || too_close(post.pos, placed + pick_positions(prev), SENTINEL_MIN_DIST as int) {
            prev
        } else {
            prev.push((post.pos, sentinel_facing(m, post)))
        }
    }
}

/// A tile with non-negative coordinates.
pub open spec fn nonneg(p: Point) -> bool {
    0 <= p.x && 0 <= p.y
}

/// Posts sentinels from `posts` in order (see [`sentinel_picks`]), at most
/// `target` of them, each at least [`SENTINEL_MIN_DIST`] from every guard
/// placed so far; the new positions are added to `placed`. Returns each
/// sentinel's tile and facing.
pub fn choose_sentinels(m: &TileMap, posts: &Vec<GuardPost>, target: usize, placed: &mut Vec<Point>) -> (r: Vec<
    (Point, Direction),
>)
    requires
        scan_map(m),
        forall|i: int|
            0 <= i < posts@.len() ==> in_map(m, (#[trigger] posts@[i]).pos.x as int, posts@[i].pos.y as int) && nonneg(
                posts@[i].door,
            ),
        forall|i: int| 0 <= i < old(placed)@.len() ==> nonneg(#[trigger] old(placed)@[i]),
    ensures
        r@ == sentinel_picks(m, posts@, target as int, old(placed)@, posts@.len() as int),
        final(placed)@ == old(placed)@ + pick_positions(r@),
{
    let ghost placed0 = placed@;
    let mut picks: Vec<(Point, Direction)> = Vec::new();
    let mut i: usize = 0;
    while i < posts.len()
        invariant
            scan_map(m),
            forall|j: int|
                0 <= j < posts@.len() ==> in_map(m, (#[trigger] posts@[j]).pos.x as int, posts@[j].pos.y as int) && nonneg(
                    posts@[j].door,
                ),
            forall|j: int| 0 <= j < placed0.len() ==> nonneg(#[trigger] placed0[j]),
            i <= posts@.len(),
            picks@ == sentinel_picks(m, posts@, target as int, placed0, i as int),
            placed@ == placed0 + pick_positions(picks@),
            forall|j: int| 0 <= j < picks@.len() ==> nonneg((#[trigger] picks@[j]).0),
        decreases posts@.len() - i,
    {
        let post = posts[i];
        if picks.len() < target {
            proof {
                assert forall|j: int| 0 <= j < placed@.len() implies crate::geom::cheb_fits(post.pos, #[trigger] placed@[j]) by {
                    if j < placed0.len() {
                        assert(nonneg(placed0[j]));
                    } else {
                        assert(placed@[j] == picks@[j - placed0.len()].0);
                        assert(nonneg(picks@[j - placed0.len()].0));
                    }
                }
            }
            if !guard_too_close(post.pos, placed, SENTINEL_MIN_DIST) {
                proof {
                    assert(post.pos.y * m.width + post.pos.x < m.len()) by (nonlinear_arith)
                        requires
                            0 <= post.pos.x < m.width,
                            0 <= post.pos.y < m.height,
                    ;
                }
                let facing = if m.get_tile(post.pos.x, post.pos.y) == TileType::Floor {
                    dir_toward(post.pos, post.door)
                } else {
                    dir_toward(post.door, post.pos)
                };
                proof {
                    assert(facing == sentinel_facing(m, post));
                }
                let ghost before = picks@;
                picks.push((post.pos, facing));
                placed.push(post.pos);
                proof {
                    assert(pick_positions(picks@) =~= pick_positions(before).push(post.pos));
                    assert(placed@ =~= placed0 + pick_positions(picks@));
                }
            }
        }
        i = i + 1;
    }
    picks
}

/// The spawn points among the first `k` that are junctions on a road, by
/// index, in order.
pub open spec fn patrol_junctions_upto(m: &TileMap, sm: &SpawnMap, k: int) -> Seq<usize>
    decreases k,
{
    if k <= 0 {
        Seq::empty()
    } else {
        let prev = patrol_junctions_upto(m, sm, k - 1);
        let sp = sm.spawn_points@[k - 1];
        if sp.category == SpawnCategory::Junction && m.tiles@[sp.idx as int] == TileType::Road {
            prev.push((k - 1) as usize)
        } else {
            prev
        }
    }
}

/// The indices of the spawn points that are junctions on a road.
pub fn patrol_junctions(m: &TileMap, spawn_map: &SpawnMap) -> (r: Vec<usize>)
    requires
        forall|i: int| 0 <= i < spawn_map.spawn_points@.len() ==> (#[trigger] spawn_map.spawn_points@[i]).idx < m.tiles@.len(),
    ensures
        r@ == patrol_junctions_upto(m, spawn_map, spawn_map.spawn_points@.len() as int),
{
    let mut out: Vec<usize> = Vec::new();
    let mut i: usize = 0;
    while i < spawn_map.spawn_points.len()
        invariant
            forall|j: int| 0 <= j < spawn_map.spawn_points@.len() ==> (#[trigger] spawn_map.spawn_points@[j]).idx < m.tiles@.len(),
            i <= spawn_map.spawn_points@.len(),
            out@ == patrol_junctions_upto(m, spawn_map, i as int),
        decreases spawn_map.spawn_points@.len() - i,
    {
        let sp = spawn_map.spawn_points[i];
        proof {
            assert(spawn_map.spawn_points@[i as int].idx < m.tiles@.len());
        }
        if sp.category == SpawnCategory::Junction && m.tiles[sp.idx] == TileType::Road {
            out.push(i);
        }
        i = i + 1;
    }
    out
}

/// The positions `0..n` in a random order.
pub fn shuffled_indices(n: usize, rng: &mut rltk::RandomNumberGenerator) -> (r: Vec<usize>)
    requires
        n <= i32::MAX,
    ensures
        r@.len() == n,
        r@.to_multiset() == Seq::new(n as nat, |i: int| i as usize).to_multiset(),
{
    let mut v: Vec<usize> = Vec::new();
    let mut i: usize = 0;
    while i < n
        invariant
            i <= n,
            v@ == Seq::new(i as nat, |k: int| k as usize),
        decreases n - i,
    {
        v.push(i);
        i = i + 1;
        assert(v@ =~= Seq::new(i as nat, |k: int| k as usize));
    }
    fy_shuffle(&mut v, rng);
    v
}

/// A patrol to start: the first junction's position and the facing toward
/// the second, with both junctions' spawn point indices.
#[derive(Clone, Copy, PartialEq, Eq, Structural, Debug)]
pub struct PatrolPick {
    pub pos: Point,
    pub facing: Direction,
    pub from: usize,
    pub to: usize,
}

/// The first junction, taken in `order` from position `j` on, that can end
/// a patrol starting at junction `ai`: another junction not used yet, from
/// [`MIN_PATROL_DIST`] to [`MAX_PATROL_DIST`] away.
pub open spec fn partner_from(
    sm: &SpawnMap,
    junctions: Seq<usize>,
    order: Seq<usize>,
    used: Seq<usize>,
    ai: usize,
    a_pos: Point,
    j: int,
) -> Option<usize>
    decreases order.len() - j,
{
    if j < 0 || j >= order.len() {
        None
    } else {
        let bi = junctions[order[j] as int];
        let d = spec_chebyshev(sm.spawn_points@[bi as int].pos, a_pos);
        if bi != ai && !used.contains(bi) && MIN_PATROL_DIST <= d <= MAX_PATROL_DIST {
            Some(bi)
        } else {
            partner_from(sm, junctions, order, used, ai, a_pos, j + 1)
        }
    }
}

/// The starting positions of a list of patrols.
pub open spec fn patrol_positions(picks: Seq<PatrolPick>) -> Seq<Point> {
    Seq::new(picks.len(), |i: int| picks[i].pos)
}

/// The patrols started from the first `k` entries of `order`, with the
/// junctions used so far: an entry starts a patrol while fewer than
/// `target` are started, if its junction is unused, lies at least
/// [`PATROLLER_MIN_DIST`] from every guard placed, and has a partner.
pub open spec fn patrol_state(
    sm: &SpawnMap,
    junctions: Seq<usize>,
    order: Seq<usize>,
    target: int,
    placed: Seq<Point>,
    k: int,
) -> (Seq<PatrolPick>, Seq<usize>)
    decreases k,
{
    if k <= 0 {
        (Seq::empty(), Seq::empty())
    } else {
        let prev = patrol_state(sm, junctions, order, target, placed, k - 1);
        let picks = prev.0;
        let used = prev.1;
        let ai = junctions[order[k - 1] as int];
        let a_pos = sm.spawn_points@[ai as int].pos;
        if picks.len() >= target || used.contains(ai) || too_close(
            a_pos,
            placed + patrol_positions(picks),
            PATROLLER_MIN_DIST as int,
        ) {
            prev
        } else {
            match partner_from(sm, junctions, order, used, ai, a_pos, 0) {
                None => prev,
                Some(bi) => (
                    picks.push(
                        PatrolPick {
                            pos: a_pos,
                            facing: spec_dir_toward(a_pos, sm.spawn_points@[bi as int].pos),
                            from: ai,
                            to: bi,
                        },
                    ),
                    used.push(ai).push(bi),
                ),
            }
        }
    }
}

/// Indices fit together: `order` indexes `junctions`, which index spawn
/// points at non-negative positions.
pub open spec fn patrol_inputs_ok(sm: &SpawnMap, junctions: Seq<usize>, order: Seq<usize>) -> bool {
    &&& forall|i: int| 0 <= i < order.len() ==> (#[trigger] order[i]) < junctions.len()
    &&& forall|i: int| 0 <= i < junctions.len() ==> (#[trigger] junctions[i]) < sm.spawn_points@.len()
    &&& forall|i: int| 0 <= i < sm.spawn_points@.len() ==> nonneg((#[trigger] sm.spawn_points@[i]).pos)
}

/// The partner of junction `ai` (see [`partner_from`]).
fn find_partner(
    spawn_map: &SpawnMap,
    junctions: &Vec<usize>,
    order: &Vec<usize>,
    used: &Vec<usize>,
    ai: usize,
    a_pos: Point,
) -> (r: Option<usize>)
    requires
        patrol_inputs_ok(spawn_map, junctions@, order@),
        nonneg(a_pos),
    ensures
        r == partner_from(spawn_map, junctions@, order@, used@, ai, a_pos, 0),
{
    let mut j: usize = 0;
    while j < order.len()
        invariant
            patrol_inputs_ok(spawn_map, junctions@, order@),
            nonneg(a_pos),
            j <= order@.len(),
            partner_from(spawn_map, junctions@, order@, used@, ai, a_pos, 0) == partner_from(
                spawn_map,
                junctions@,
                order@,
                used@,
                ai,
                a_pos,
                j as int,
            ),
        decreases order@.len() - j,
    {
        let bi = junctions[order[j]];
        let b_pos = spawn_map.spawn_points[bi].pos;
        proof {
            assert(nonneg(spawn_map.spawn_points@[bi as int].pos));
        }
        if bi != ai && !contains_index(used, bi) {
            let d = chebyshev(b_pos, a_pos);
            if d >= MIN_PATROL_DIST && d <= MAX_PATROL_DIST {
                return Some(bi);
            }
        }
        j = j + 1;
    }
    None
}

/// Starts patrols from the junctions taken in `order` (see
/// [`patrol_state`]), at most `target` of them; the starting positions are
/// added to `placed`.
pub fn choose_patrollers(
    spawn_map: &SpawnMap,
    junctions: &Vec<usize>,
    order: &Vec<usize>,
    target: usize,
    placed: &mut Vec<Point>,
) -> (r: Vec<PatrolPick>)
    requires
        patrol_inputs_ok(spawn_map, junctions@, order@),
        forall|i: int| 0 <= i < old(placed)@.len() ==> nonneg(#[trigger] old(placed)@[i]),
    ensures
        r@ == patrol_state(spawn_map, junctions@, order@, target as int, old(placed)@, order@.len() as int).0,
        final(placed)@ == old(placed)@ + patrol_positions(r@),
{
    let ghost placed0 = placed@;
    let mut picks: Vec<PatrolPick> = Vec::new();
    let mut used: Vec<usize> = Vec::new();
    let mut k: usize = 0;
    while k < order.len()
        invariant
            patrol_inputs_ok(spawn_map, junctions@, order@),
            forall|j: int| 0 <= j < placed0.len() ==> nonneg(#[trigger] placed0[j]),
            k <= order@.len(),
            (picks@, used@) == patrol_state(spawn_map, junctions@, order@, target as int, placed0, k as int),
            placed@ == placed0 + patrol_positions(picks@),
            forall|j: int| 0 <= j < picks@.len() ==> nonneg((#[trigger] picks@[j]).pos),
        decreases order@.len() - k,
    {
        if picks.len() < target {
            let ai = junctions[order[k]];
            let a_pos = spawn_map.spawn_points[ai].pos;
            proof {
                assert(nonneg(spawn_map.spawn_points@[ai as int].pos));
            }
            if !contains_index(&used, ai) {
                proof {
                    assert forall|j: int| 0 <= j < placed@.len() implies crate::geom::cheb_fits(a_pos, #[trigger] placed@[j]) by {
                        if j < placed0.len() {
                            assert(nonneg(placed0[j]));
                        } else {
                            assert(placed@[j] == picks@[j - placed0.len()].pos);
                            assert(nonneg(picks@[j - placed0.len()].pos));
                        }
                    }
                }
                if !guard_too_close(a_pos, placed, PATROLLER_MIN_DIST) {
                    match find_partner(spawn_map, junctions, order, &used, ai, a_pos) {
                        Some(bi) => {
                            proof {
                                assert(partner_from(spawn_map, junctions@, order@, used@, ai, a_pos, 0) == Some(bi));
                                lemma_partner_in_range(spawn_map, junctions@, order@, used@, ai, a_pos, 0);
                                assert(nonneg(spawn_map.spawn_points@[bi as int].pos));
                            }
                            let b_pos = spawn_map.spawn_points[bi].pos;
                            let facing = dir_toward(a_pos, b_pos);
                            let ghost before = picks@;
                            picks.push(PatrolPick { pos: a_pos, facing, from: ai, to: bi });
                            used.push(ai);
                            used.push(bi);
                            placed.push(a_pos);
                            proof {
                                assert(patrol_positions(picks@) =~= patrol_positions(before).push(a_pos));
                                assert(placed@ =~= placed0 + patrol_positions(picks@));
                            }
                        },
                        None => {},
                    }
                }
            }
        }
        k = k + 1;
    }
    picks
}

/// A partner found is one of the junctions.
proof fn lemma_partner_in_range(
    sm: &SpawnMap,
    junctions: Seq<usize>,
    order: Seq<usize>,
    used: Seq<usize>,
    ai: usize,
    a_pos: Point,
    j: int,
)
    requires
        patrol_inputs_ok(sm, junctions, order),
        0 <= j,
    ensures
        partner_from(sm, junctions, order, used, ai, a_pos, j) matches Some(b) ==> b < sm.spawn_points@.len(),
    decreases order.len() - j,
{
    if j < order.len() {
        lemma_partner_in_range(sm, junctions, order, used, ai, a_pos, j + 1);
    }
}

/// Sentinels keep their distance: at most `target` are posted, and each
/// stands at least [`SENTINEL_MIN_DIST`] from every guard placed before it,
/// those of `placed` and the sentinels posted earlier.
pub proof fn law_sentinels_spaced(m: &TileMap, posts: Seq<GuardPost>, target: int, placed: Seq<Point>, k: int)
    requires
        0 <= target,
        0 <= k <= posts.len(),
    ensures
        sentinel_picks(m, posts, target, placed, k).len() <= target,
        forall|i: int, j: int|
            0 <= j < i < sentinel_picks(m, posts, target, placed, k).len() ==> spec_chebyshev(
                (#[trigger] sentinel_picks(m, posts, target, placed, k)[i]).0,
                (#[trigger] sentinel_picks(m, posts, target, placed, k)[j]).0,
            ) >= SENTINEL_MIN_DIST,
        forall|i: int, j: int|
            0 <= i < sentinel_picks(m, posts, target, placed, k).len() && 0 <= j < placed.len() ==> spec_chebyshev(
                (#[trigger] sentinel_picks(m, posts, target, placed, k)[i]).0,
                #[trigger] placed[j],
            ) >= SENTINEL_MIN_DIST,
    decreases k,
{
    if k > 0 {
        law_sentinels_spaced(m, posts, target, placed, k - 1);
        let prev = sentinel_picks(m, posts, target, placed, k - 1);
        let cur = sentinel_picks(m, posts, target, placed, k);
        if cur.len() > prev.len() {
            let pos = posts[k - 1].pos;
            let all = placed + pick_positions(prev);
            assert(!too_close(pos, all, SENTINEL_MIN_DIST as int));
            assert forall|i: int, j: int| 0 <= j < i < cur.len() implies spec_chebyshev(
                (#[trigger] cur[i]).0,
                (#[trigger] cur[j]).0,
            ) >= SENTINEL_MIN_DIST by {
                if i == prev.len() {
                    assert(all[placed.len() + j] == prev[j].0);
                }
            }
            assert forall|i: int, j: int| 0 <= i < cur.len() && 0 <= j < placed.len() implies spec_chebyshev(
                (#[trigger] cur[i]).0,
                #[trigger] placed[j],
            ) >= SENTINEL_MIN_DIST by {
                if i == prev.len() {
                    assert(all[j] == placed[j]);
                }
            }
        }
    }
}

/// Patrollers keep their distance: at most `target` patrols start, and each
/// starts at least [`PATROLLER_MIN_DIST`] from every guard placed before it;
/// its two junctions differ and lie [`MIN_PATROL_DIST`] to
/// [`MAX_PATROL_DIST`] apart.
pub proof fn law_patrols_spaced(
    sm: &SpawnMap,
    junctions: Seq<usize>,
    order: Seq<usize>,
    target: int,
    placed: Seq<Point>,
    k: int,
)
    requires
        0 <= target,
        0 <= k <= order.len(),
    ensures
        patrol_state(sm, junctions, order, target, placed, k).0.len() <= target,
        forall|i: int, j: int|
            0 <= j < i < patrol_state(sm, junctions, order, target, placed, k).0.len() ==> spec_chebyshev(
                (#[trigger] patrol_state(sm, junctions, order, target, placed, k).0[i]).pos,
                (#[trigger] patrol_state(sm, junctions, order, target, placed, k).0[j]).pos,
            ) >= PATROLLER_MIN_DIST,
        forall|i: int, j: int|
            0 <= i < patrol_state(sm, junctions, order, target, placed, k).0.len() && 0 <= j < placed.len()
                ==> spec_chebyshev(
                (#[trigger] patrol_state(sm, junctions, order, target, placed, k).0[i]).pos,
                #[trigger] placed[j],
            ) >= PATROLLER_MIN_DIST,
        forall|i: int|
            0 <= i < patrol_state(sm, junctions, order, target, placed, k).0.len() ==> {
                let p = #[trigger] patrol_state(sm, junctions, order, target, placed, k).0[i];
                &&& p.from != p.to
                &&& p.pos == sm.spawn_points@[p.from as int].pos
                &&& MIN_PATROL_DIST <= spec_chebyshev(sm.spawn_points@[p.to as int].pos, p.pos) <= MAX_PATROL_DIST
            },
    decreases k,
{
    if k > 0 {
        law_patrols_spaced(sm, junctions, order, target, placed, k - 1);
        let prev = patrol_state(sm, junctions, order, target, placed, k - 1).0;
        let cur = patrol_state(sm, junctions, order, target, placed, k).0;
        if cur.len() > prev.len() {
            let used = patrol_state(sm, junctions, order, target, placed, k - 1).1;
            let ai = junctions[order[k - 1] as int];
            let a_pos = sm.spawn_points@[ai as int].pos;
            let all = placed + patrol_positions(prev);
            assert(!too_close(a_pos, all, PATROLLER_MIN_DIST as int));
            lemma_partner_fits(sm, junctions, order, used, ai, a_pos, 0);
            assert forall|i: int, j: int| 0 <= j < i < cur.len() implies spec_chebyshev(
                (#[trigger] cur[i]).pos,
                (#[trigger] cur[j]).pos,
            ) >= PATROLLER_MIN_DIST by {
                if i == prev.len() {
                    assert(all[placed.len() + j] == prev[j].pos);
                }
            }
            assert forall|i: int, j: int| 0 <= i < cur.len() && 0 <= j < placed.len() implies spec_chebyshev(
                (#[trigger] cur[i]).pos,
                #[trigger] placed[j],
            ) >= PATROLLER_MIN_DIST by {
                if i == prev.len() {
                    assert(all[j] == placed[j]);
                }
            }
        }
    }
}

/// A partner found satisfies the conditions it was searched for.
proof fn lemma_partner_fits(
    sm: &SpawnMap,
    junctions: Seq<usize>,
    order: Seq<usize>,
    used: Seq<usize>,
    ai: usize,
    a_pos: Point,
    j: int,
)
    requires
        0 <= j,
    ensures
        partner_from(sm, junctions, order, used, ai, a_pos, j) matches Some(b) ==> b != ai && !used.contains(b)
            && MIN_PATROL_DIST <= spec_chebyshev(sm.spawn_points@[b as int].pos, a_pos) <= MAX_PATROL_DIST,
    decreases order.len() - j,
{
    if j < order.len() {
        lemma_partner_fits(sm, junctions, order, used, ai, a_pos, j + 1);
    }
}

} // verus!
