//! Guard and patrol behaviour: perceive stimuli, update how alert the actor
//! is, then decide what to do this turn. Distances that the game measures in
//! floating point are compared here in squared integer form (`d <= r` as
//! `d * d <= r * r`), which agrees with the floating-point comparison for
//! the coordinate ranges of a map.
use vstd::prelude::*;
use crate::geom::{Direction, Point, spec_delta, dir_at, spec_sq_dist, sq_dist_wide, forward_tile, halfway, trunc_half};
use crate::map::TileMap;
use crate::spawn::scan_map;

verus! {

/// Turns a guard stays suspicious before calming down.
pub const SUSPICIOUS_TURNS: u32 = 30;
/// Unaware guard at its anchor: idle this often (percent), else turn a random way.
pub const UNAWARE_IDLE_PCT: u32 = 95;
/// Alert guard near its anchor: rotate below the first cut, step forward below
/// the second, else idle. Rolls share one 0..100 draw.
pub const ALERT_ROTATE_PCT: u32 = 50;
pub const ALERT_STEP_PCT: u32 = 75;
/// Radius a guard searches for a tile from which it can re-spot a lost target.
pub const SPOT_SEARCH: i32 = 3;
/// How far a grenade can be thrown.
pub const GRENADE_THROW_RANGE: u32 = 5;
/// A searching patroller re-raises the alarm every this many turns.
pub const SHOUT_INTERVAL: u32 = 8;
/// Search sweep starts this far from the last-known position and grows outward.
pub const SEARCH_START_RADIUS: i32 = 2;
pub const SEARCH_MAX_RADIUS: i32 = 10;
/// The sweep radius grows by one every this many turns.
pub const SEARCH_GROW_EVERY: u32 = 6;
/// Turns a searcher commits to one sweep heading before rotating to the next.
pub const SEARCH_DIR_HOLD: u32 = 3;

// ---------------------------------------------------------------------------
// Seeds
// ---------------------------------------------------------------------------

pub open spec fn spec_scramble(z: u64) -> u64 {
    let a = (((z ^ (z >> 30u64)) as nat * 0xBF58476D1CE4E5B9nat) % 0x1_0000_0000_0000_0000nat) as u64;
    let b = (((a ^ (a >> 27u64)) as nat * 0x94D049BB133111EBnat) % 0x1_0000_0000_0000_0000nat) as u64;
    b ^ (b >> 31u64)
}

/// Scatter sequential entity indices into well-separated RNG seeds (the
/// splitmix64 finalizer) so neighbouring guards don't roll in lockstep.
pub fn scramble(z: u64) -> (r: u64)
    ensures
        r == spec_scramble(z),
{
    let a = (z ^ (z >> 30)).wrapping_mul(0xBF58476D1CE4E5B9);
    let b = (a ^ (a >> 27)).wrapping_mul(0x94D049BB133111EB);
    b ^ (b >> 31)
}

// ---------------------------------------------------------------------------
// Perception
// ---------------------------------------------------------------------------

/// How an actor fights once in combat.
#[derive(Clone, Copy, PartialEq, Eq, Structural, Debug)]
pub enum CombatTactic {
    Pursue,
    Hold,
    Flee,
}

/// A stimulus worth reacting to.
#[derive(Clone, Copy, PartialEq, Eq, Structural, Debug)]
pub struct Perception {
    /// Does the entity know that the source is hostile? False for things such
    /// as open doors or walking sounds.
    pub confirmed_hostile: bool,
    /// Has the entity actually seen the source? False if heard or gathered
    /// through indirect means.
    pub confirmed_visually: bool,
    /// Does the entity know exactly where the source is? False when finding
    /// dead bodies, open doors or hearing.
    pub confirmed_origin: bool,
    /// The source coordinates of this perception.
    pub origin: Point,
    pub target_id: Option<usize>,
}

/// Urgency of a perception as a number: confirmed-hostile outranks
/// unconfirmed, then seen outranks heard, then known origin outranks unknown
/// (the lexicographic order of the three flags).
pub open spec fn urgency(p: Perception) -> int {
    (if p.confirmed_hostile { 4int } else { 0int }) + (if p.confirmed_visually { 2int } else { 0int }) + (
    if p.confirmed_origin { 1int } else { 0int })
}

pub open spec fn spec_most_urgent(left: Option<Perception>, right: Option<Perception>) -> Option<Perception> {
    match (left, right) {
        (Some(l), Some(r)) => Some(if urgency(r) > urgency(l) { r } else { l }),
        (Some(l), None) => Some(l),
        (None, r) => r,
    }
}

impl Perception {
    /// Urgency key, compared lexicographically (higher wins).
    pub fn urgency(&self) -> (r: (bool, bool, bool))
        ensures
            r == (self.confirmed_hostile, self.confirmed_visually, self.confirmed_origin),
    {
        (self.confirmed_hostile, self.confirmed_visually, self.confirmed_origin)
    }
}

fn urgency_gt(a: (bool, bool, bool), b: (bool, bool, bool)) -> (r: bool)
    ensures
        r == ((if a.0 { 4int } else { 0int }) + (if a.1 { 2int } else { 0int }) + (if a.2 { 1int } else { 0int }) > (
        if b.0 { 4int } else { 0int }) + (if b.1 { 2int } else { 0int }) + (if b.2 { 1int } else { 0int })),
{
    if a.0 != b.0 {
        a.0
    } else if a.1 != b.1 {
        a.1
    } else {
        a.2 && !b.2
    }
}

/// The more urgent of two perceptions, biased toward `left` on a tie.
pub fn most_urgent(left: Option<Perception>, right: Option<Perception>) -> (r: Option<Perception>)
    ensures
        r == spec_most_urgent(left, right),
{
    match (left, right) {
        (Some(l), Some(r)) => Some(if urgency_gt(r.urgency(), l.urgency()) { r } else { l }),
        (Some(l), None) => Some(l),
        (None, r) => r,
    }
}

/// The kinds of sounds the game makes.
#[derive(Clone, Copy, PartialEq, Eq, Structural, Debug)]
pub enum SoundKind {
    Footstep,
    Shout,
    Gunshot,
    Burst,
    Explosion,
    Engine,
}

/// A sound heard this turn: where, how far it carries, and what it was.
#[derive(Clone, Copy, PartialEq, Eq, Structural, Debug)]
pub struct SoundEvent {
    pub pos: Point,
    pub volume: u32,
    pub kind: SoundKind,
}

/// The perception a sound gives a listener at `center`, if it hears it:
/// footsteps are ignored, as are sounds from too far away (beyond the
/// volume) or from the listener's own tile. Shouts, shots and explosions are
/// hostile with an unknown origin; engines give a known origin but no
/// confirmed hostility.
pub open spec fn sound_perception(center: Point, s: SoundEvent) -> Option<Perception> {
    if s.kind == SoundKind::Footstep || spec_sq_dist(center, s.pos) > (s.volume as int) * (s.volume as int) || center
        == s.pos {
        None
    } else if s.kind == SoundKind::Engine {
        Some(
            Perception {
                confirmed_hostile: false,
                confirmed_origin: true,
                confirmed_visually: false,
                origin: s.pos,
                target_id: None,
            },
        )
    } else {
        Some(
            Perception {
                confirmed_hostile: true,
                confirmed_origin: false,
                confirmed_visually: false,
                origin: s.pos,
                target_id: None,
            },
        )
    }
}

/// The most urgent perception among the first `k` sounds (earlier wins ties).
pub open spec fn sounds_perception(center: Point, sounds: Seq<SoundEvent>, k: int) -> Option<Perception>
    decreases k,
{
    if k <= 0 {
        None
    } else {
        spec_most_urgent(sounds_perception(center, sounds, k - 1), sound_perception(center, sounds[k - 1]))
    }
}

/// The most urgent perception the sounds of this turn give a listener at
/// `center`.
pub fn process_sounds(center: Point, sounds: &[SoundEvent]) -> (r: Option<Perception>)
    ensures
        r == sounds_perception(center, sounds@, sounds@.len() as int),
{
    let mut retval: Option<Perception> = None;
    let mut i: usize = 0;
    while i < sounds.len()
        invariant
            i <= sounds@.len(),
            retval == sounds_perception(center, sounds@, i as int),
        decreases sounds@.len() - i,
    {
        let s = sounds[i];
        let vol = s.volume as i128;
        proof {
            assert(0 <= vol * vol <= 0x1_0000_0000 * 0x1_0000_0000) by (nonlinear_arith)
                requires
                    0 <= vol < 0x1_0000_0000,
            ;
        }
        let heard = match s.kind {
            SoundKind::Footstep => false,
            _ => !(sq_dist_wide(center, s.pos) > vol * vol || center == s.pos),
        };
        if heard {
            let candidate = match s.kind {
                SoundKind::Footstep | SoundKind::Engine => Perception {
                    confirmed_hostile: false,
                    confirmed_origin: true,
                    confirmed_visually: false,
                    origin: s.pos,
                    target_id: None,
                },
                _ => Perception {
                    confirmed_hostile: true,
                    confirmed_origin: false,
                    confirmed_visually: false,
                    origin: s.pos,
                    target_id: None,
                },
            };
            retval = most_urgent(retval, Some(candidate));
        }
        i = i + 1;
    }
    retval
}


/// What an actor can tell of what it sees: for each entity id, whether it is
/// the player and the tile at its centre; for each item id, whether it is a
/// corpse.
pub struct Sightings {
    pub is_player: Vec<bool>,
    pub centers: Vec<Point>,
    pub is_corpse: Vec<bool>,
}

/// What tile `p` shows: the player standing there (seen, hostile, located),
/// else a corpse lying there (hostile, but where the killer is is unknown).
pub open spec fn sighting_at(m: &TileMap, s: &Sightings, p: Point) -> Option<Perception> {
    let idx = m.idx_of(p.x as int, p.y as int);
    let player = match m.pawns@[idx] {
        Some(pawn) => if s.is_player@[pawn.entity_id as int] { Some(pawn.entity_id) } else { None },
        None => None,
    };
    match player {
        Some(id) => Some(
            Perception {
                confirmed_hostile: true,
                confirmed_origin: true,
                confirmed_visually: true,
                origin: s.centers@[id as int],
                target_id: Some(id),
            },
        ),
        None => match m.items@[idx] {
            Some(item) => if s.is_corpse@[item as int] {
                Some(
                    Perception {
                        confirmed_hostile: true,
                        confirmed_origin: false,
                        confirmed_visually: false,
                        origin: p,
                        target_id: None,
                    },
                )
            } else {
                None
            },
            None => None,
        },
    }
}

/// The first thing worth noticing among the visible tiles from position `k`
/// on, in the order they are listed.
pub open spec fn first_sighting(vis: Seq<Point>, m: &TileMap, s: &Sightings, k: int) -> Option<Perception>
    decreases vis.len() - k,
{
    if k < 0 || k >= vis.len() {
        None
    } else {
        match sighting_at(m, s, vis[k]) {
            Some(p) => Some(p),
            None => first_sighting(vis, m, s, k + 1),
        }
    }
}

/// The visible tiles lie on the map, and whoever and whatever stands on them
/// is known to `s`.
pub open spec fn sightings_ok(vis: Seq<Point>, m: &TileMap, s: &Sightings) -> bool {
    &&& m.wf()
    &&& s.is_player@.len() == s.centers@.len()
    &&& forall|k: int|
        0 <= k < vis.len() ==> {
            let p = #[trigger] vis[k];
            let idx = m.idx_of(p.x as int, p.y as int);
            &&& 0 <= p.x < m.width && 0 <= p.y < m.height
            &&& m.pawns@[idx] matches Some(pawn) ==> pawn.entity_id < s.is_player@.len()
            &&& m.items@[idx] matches Some(item) ==> item < s.is_corpse@.len()
        }
}

/// What the actor notices among the tiles it sees (see [`first_sighting`]):
/// the first tile showing the player or a corpse decides.
pub fn process_vision(visible: &Vec<Point>, m: &TileMap, s: &Sightings) -> (r: Option<Perception>)
    requires
        sightings_ok(visible@, m, s),
    ensures
        r == first_sighting(visible@, m, s, 0),
{
    let mut k: usize = 0;
    while k < visible.len()
        invariant
            sightings_ok(visible@, m, s),
            k <= visible@.len(),
            first_sighting(visible@, m, s, 0) == first_sighting(visible@, m, s, k as int),
        decreases visible@.len() - k,
    {
        let p = visible[k];
        proof {
            assert(0 <= p.x < m.width && 0 <= p.y < m.height);
            assert(p.y * m.width + p.x < m.len()) by (nonlinear_arith)
                requires
                    0 <= p.x < m.width,
                    0 <= p.y < m.height,
            ;
        }
        let idx = m.xy_idx(p.x, p.y);
        match m.pawns[idx] {
            Some(pawn) => {
                if s.is_player[pawn.entity_id] {
                    return Some(
                        Perception {
                            confirmed_hostile: true,
                            confirmed_origin: true,
                            confirmed_visually: true,
                            origin: s.centers[pawn.entity_id],
                            target_id: Some(pawn.entity_id),
                        },
                    );
                }
            },
            None => {},
        }
        match m.items[idx] {
            Some(item) => {
                if s.is_corpse[item] {
                    return Some(
                        Perception {
                            confirmed_hostile: true,
                            confirmed_origin: false,
                            confirmed_visually: false,
                            origin: p,
                            target_id: None,
                        },
                    );
                }
            },
            None => {},
        }
        k = k + 1;
    }
    None
}

/// The most important perception of the turn: what the actor sees weighed
/// against what it hears at `center`.
pub fn perceive(center: Point, visible: &Vec<Point>, m: &TileMap, s: &Sightings, sounds: &[SoundEvent]) -> (r: Option<
    Perception,
>)
    requires
        sightings_ok(visible@, m, s),
    ensures
        r == spec_most_urgent(first_sighting(visible@, m, s, 0), sounds_perception(center, sounds@, sounds@.len() as int)),
{
    let sound_candidate = process_sounds(center, sounds);
    let visual_candidate = process_vision(visible, m, s);
    most_urgent(visual_candidate, sound_candidate)
}

// ---------------------------------------------------------------------------
// Alert level
// ---------------------------------------------------------------------------

#[derive(Clone, Copy, PartialEq, Eq, Structural, Debug)]
pub enum AlertLevel {
    /// Not acting on any threats.
    Unaware,
    /// Has detected something potentially dangerous, but unconfirmed. Decays
    /// to Unaware.
    Suspicious { origin: Point, turns_remaining: u32 },
    /// Has detected something confirmed dangerous, but does not see it. Does
    /// not decay. `search_ticks` counts turns spent searching.
    Alert { last_known: Point, search_ticks: u32 },
    /// Has detected something confirmed dangerous and has recently seen it or
    /// is seeing it now.
    Combat { target_id: usize, last_seen: Point },
}

/// The alert level after a perception: a fresh sighting refreshes combat;
/// lesser stimuli leave combat alone; a confirmed sighting enters combat from
/// any lower state; an actor already searching keeps searching; otherwise a
/// hostile stimulus raises the alarm at its origin and a harmless one makes
/// the actor suspicious for [`SUSPICIOUS_TURNS`].
pub open spec fn spec_update_target(alert: AlertLevel, p: Perception) -> AlertLevel {
    match alert {
        AlertLevel::Combat { target_id, last_seen } => if p.confirmed_visually && p.confirmed_hostile
            && p.target_id is Some {
            AlertLevel::Combat { target_id: p.target_id->0, last_seen: p.origin }
        } else {
            alert
        },
        _ => if p.confirmed_visually && p.confirmed_hostile {
            AlertLevel::Combat { target_id: p.target_id->0, last_seen: p.origin }
        } else if alert is Alert {
            alert
        } else if p.confirmed_hostile {
            AlertLevel::Alert { last_known: p.origin, search_ticks: 0 }
        } else {
            AlertLevel::Suspicious { origin: p.origin, turns_remaining: SUSPICIOUS_TURNS }
        },
    }
}

/// A confirmed sighting names whom it saw (needed to enter combat).
pub open spec fn sighting_named(alert: AlertLevel, p: Perception) -> bool {
    !(alert is Combat) && p.confirmed_visually && p.confirmed_hostile ==> p.target_id is Some
}

/// The alert level after one turn of decay: a Suspicious actor with no turns
/// left calms down, otherwise one turn of suspicion runs out; other levels
/// stay.
pub open spec fn spec_tick_suspicion(alert: AlertLevel) -> AlertLevel {
    match alert {
        AlertLevel::Suspicious { origin, turns_remaining } => if turns_remaining == 0 {
            AlertLevel::Unaware
        } else {
            AlertLevel::Suspicious { origin, turns_remaining: (turns_remaining - 1) as u32 }
        },
        _ => alert,
    }
}

/// The alert level at the end of a turn: a searching actor's search clock
/// advances (drives the widening sweep and the periodic re-alarm).
pub open spec fn spec_end_turn(alert: AlertLevel) -> AlertLevel {
    match alert {
        AlertLevel::Alert { last_known, search_ticks } => AlertLevel::Alert {
            last_known,
            search_ticks: (search_ticks + 1) as u32,
        },
        _ => alert,
    }
}


// ---------------------------------------------------------------------------
// Line of sight
// ---------------------------------------------------------------------------

/// The tiles of the Bresenham line from `from` to `to` as the terminal
/// library draws it.
pub uninterp spec fn bresenham_line(from: Point, to: Point) -> Seq<Point>;

/// `p` lies in the rectangle spanned by `a` and `b`.
pub open spec fn in_box(p: Point, a: Point, b: Point) -> bool {
    (if a.x <= b.x { a.x <= p.x <= b.x } else { b.x <= p.x <= a.x }) && (if a.y <= b.y { a.y <= p.y <= b.y } else {
        b.y <= p.y <= a.y
    })
}

/// Calls `rltk::line2d(LineAlg::Bresenham, from, to)`. Claimed: the result is
/// [`bresenham_line`] of the two points, and every point of it lies in the
/// rectangle the two points span (the library's Bresenham iterator steps one
/// unit along the major axis from `from`, moves at most one unit along the
/// minor axis per step toward `to`, stops before `to`, and `to` is appended).
/// Not claimed: which tiles the line takes. The library subtracts and negates
/// coordinates in `i32`, so both points stay well inside that range.
#[verifier::external_body]
fn line_points(from: Point, to: Point) -> (r: Vec<Point>)
    requires
        -0x3FFF_FFFF <= from.x <= 0x3FFF_FFFF,
        -0x3FFF_FFFF <= from.y <= 0x3FFF_FFFF,
        -0x3FFF_FFFF <= to.x <= 0x3FFF_FFFF,
        -0x3FFF_FFFF <= to.y <= 0x3FFF_FFFF,
    ensures
        r@ == bresenham_line(from, to),
        forall|i: int| 0 <= i < r@.len() ==> in_box(#[trigger] r@[i], from, to),
{
    let ray = rltk::line2d(
        rltk::LineAlg::Bresenham,
        rltk::Point::new(from.x, from.y),
        rltk::Point::new(to.x, to.y),
    );
    let mut out: Vec<Point> = Vec::new();
    for p in ray.iter() {
        out.push(Point { x: p.x, y: p.y });
    }
    out
}

/// A map the AI can scan, whose coordinates the terminal library's line
/// drawing takes.
pub open spec fn ai_map(m: &TileMap) -> bool {
    scan_map(m) && m.width <= 0x4000_0000 && m.height <= 0x4000_0000
}

/// `p` is a tile of the map.
pub open spec fn on_map(m: &TileMap, p: Point) -> bool {
    0 <= p.x < m.width && 0 <= p.y < m.height
}

/// No opaque tile lies strictly between the ends of `ray`.
pub open spec fn ray_clear(m: &TileMap, ray: Seq<Point>) -> bool {
    ray.len() <= 2 || forall|i: int| 1 <= i < ray.len() - 1 ==> !m.spec_opaque(m.idx_of(#[trigger] ray[i].x as int, ray[i].y as int))
}

/// Clear line of sight between two tiles: no opaque tile strictly between
/// them on the Bresenham line.
pub open spec fn spec_los(m: &TileMap, from: Point, to: Point) -> bool {
    ray_clear(m, bresenham_line(from, to))
}

/// Whether no opaque tile lies strictly between the ends of `ray`, a line of
/// map tiles.
pub fn los_clear(m: &TileMap, ray: &Vec<Point>) -> (r: bool)
    requires
        ai_map(m),
        forall|i: int| 0 <= i < ray@.len() ==> on_map(m, #[trigger] ray@[i]),
    ensures
        r == ray_clear(m, ray@),
{
    let n = ray.len();
    if n <= 2 {
        return true;
    }
    let mut i: usize = 1;
    while i < n - 1
        invariant
            ai_map(m),
            n == ray@.len(),
            n > 2,
            forall|j: int| 0 <= j < ray@.len() ==> on_map(m, #[trigger] ray@[j]),
            1 <= i <= n - 1,
            forall|j: int| 1 <= j < i ==> !m.spec_opaque(m.idx_of(#[trigger] ray@[j].x as int, ray@[j].y as int)),
        decreases n - 1 - i,
    {
        let p = ray[i];
        proof {
            assert(on_map(m, ray@[i as int]));
            assert(0 <= p.y * m.width + p.x < m.len()) by (nonlinear_arith)
                requires
                    0 <= p.x < m.width,
                    0 <= p.y < m.height,
            ;
        }
        if m.is_opaque(m.pos_idx(p)) {
            return false;
        }
        i = i + 1;
    }
    true
}

/// Clear line of sight between two map tiles.
pub fn has_los(from: Point, to: Point, m: &TileMap) -> (r: bool)
    requires
        ai_map(m),
        on_map(m, from),
        on_map(m, to),
    ensures
        r == spec_los(m, from, to),
{
    let ray = line_points(from, to);
    proof {
        assert forall|i: int| 0 <= i < ray@.len() implies on_map(m, #[trigger] ray@[i]) by {
            assert(in_box(ray@[i], from, to));
        }
    }
    los_clear(m, &ray)
}

// ---------------------------------------------------------------------------
// Profiles and decisions
// ---------------------------------------------------------------------------

#[derive(Clone, Copy, PartialEq, Eq, Structural, Debug)]
pub enum Profile {
    Patrol {
        /// Index of the shared, read-only route this actor follows.
        route_id: usize,
        waypoint_index: usize,
        combat_tactic: CombatTactic,
    },
    Guard { anchor: Point, combat_tactic: CombatTactic },
}

impl Profile {
    pub fn combat_tactic(&self) -> (r: CombatTactic)
        ensures
            r == (match *self {
                Profile::Patrol { combat_tactic, .. } => combat_tactic,
                Profile::Guard { combat_tactic, .. } => combat_tactic,
            }),
    {
        match self {
            Profile::Patrol { combat_tactic, .. } => *combat_tactic,
            Profile::Guard { combat_tactic, .. } => *combat_tactic,
        }
    }
}

/// Whether a GoTo destination is worth a shared flow field, and its extent:
/// FullMap for a static goal (patrol, guard post), Bounded for a dynamic goal
/// whose interested agents cluster nearby, PerAgent for a goal not worth
/// sharing.
#[derive(Clone, Copy, PartialEq, Eq, Structural, Debug)]
pub enum FieldPref {
    PerAgent,
    FullMap,
    Bounded,
}

/// A resolved AI decision for this turn.
#[derive(Clone, Copy, PartialEq, Eq, Structural, Debug)]
pub enum Decision {
    Idle,
    /// Holster the equipped weapon (relaxed guard at its post).
    Holster,
    /// Turn to a fixed facing.
    Turn { dir: Direction },
    /// Raise the alarm.
    Shout,
    /// Throw the carried explosive `item_id` at `target`.
    ThrowGrenade { item_id: usize, target: Point },
    /// Prime the carried explosive `item_id` (thrown next turn).
    PrimeGrenade { item_id: usize },
    GetReadyForCombat,
    GoTo { dest: Point, tolerance: u32, field: FieldPref },
    Face { toward: Point },
    Flee { threat: Point },
    Engage { target_id: usize, last_seen: Point },
}

pub open spec fn spec_nav_goal(d: Decision) -> Option<(Point, bool)> {
    match d {
        Decision::GoTo { dest, field: FieldPref::FullMap, .. } => Some((dest, false)),
        Decision::GoTo { dest, field: FieldPref::Bounded, .. } => Some((dest, true)),
        _ => None,
    }
}

impl Decision {
    /// The shared flow-field goal this decision heads to (if any) and whether
    /// a bounded field suffices.
    pub fn nav_goal(&self) -> (r: Option<(Point, bool)>)
        ensures
            r == spec_nav_goal(*self),
    {
        match self {
            Decision::GoTo { dest, field: FieldPref::FullMap, .. } => Some((*dest, false)),
            Decision::GoTo { dest, field: FieldPref::Bounded, .. } => Some((*dest, true)),
            _ => None,
        }
    }
}

/// What the AI reads of the entity it drives.
pub struct ActorView {
    pub position: Point,
    pub center: Point,
    pub facing: Direction,
    /// The tiles the entity currently sees.
    pub visible_tiles: Vec<Point>,
    /// How far the entity can see.
    pub view_range: u32,
    /// Whether a weapon is equipped in the primary hand (or turret).
    pub has_primary_weapon: bool,
    /// Whether the equipped weapon is a firearm with ammunition.
    pub combat_ready: bool,
    /// Id and blast radius of a primed explosive carried, if any.
    pub primed_grenade: Option<(usize, u32)>,
    /// Id of an unprimed explosive carried, if any.
    pub carried_grenade: Option<usize>,
}

/// The entity sees tile `p`.
pub open spec fn can_see(v: &ActorView, p: Point) -> bool {
    v.visible_tiles@.contains(p)
}

/// Whether the entity sees tile `p`.
pub fn sees(v: &ActorView, p: Point) -> (r: bool)
    ensures
        r == can_see(v, p),
{
    let mut i: usize = 0;
    while i < v.visible_tiles.len()
        invariant
            i <= v.visible_tiles@.len(),
            forall|j: int| 0 <= j < i ==> v.visible_tiles@[j] != p,
        decreases v.visible_tiles@.len() - i,
    {
        if v.visible_tiles[i] == p {
            return true;
        }
        i = i + 1;
    }
    false
}

/// An actor driven by the guard / patrol behaviour.
pub struct ActorAI {
    pub profile: Profile,
    pub alert: AlertLevel,
    /// Map index of the current path destination, if a path is cached.
    pub path_target: Option<usize>,
    /// Last decided shared-field goal (tile, and whether bounded).
    pub nav_goal: Option<(Point, bool)>,
}

pub open spec fn spec_anchor(p: Profile) -> Option<Point> {
    match p {
        Profile::Guard { anchor, .. } => Some(anchor),
        _ => None,
    }
}

/// The guard strays beyond its anchor leash (more than 3 tiles away); never
/// for non-guards.
pub open spec fn spec_far_from_anchor(p: Profile, pos: Point) -> bool {
    match p {
        Profile::Guard { anchor, .. } => spec_sq_dist(pos, anchor) > 9,
        _ => false,
    }
}

/// The confirmed enemy position a guard would aim a grenade at, if any.
pub open spec fn spec_known_enemy(a: AlertLevel) -> Option<Point> {
    match a {
        AlertLevel::Combat { last_seen, .. } => Some(last_seen),
        AlertLevel::Alert { last_known, .. } => Some(last_known),
        _ => None,
    }
}

/// The entity sees the centre of its combat target (when that entity still
/// exists).
pub open spec fn spec_can_see_target(v: &ActorView, target_center: Option<Point>) -> bool {
    target_center matches Some(c) && can_see(v, c)
}

/// `target` lies within vision range with a clear sight line from the
/// entity's centre: it would see it after turning to face it.
pub open spec fn spec_can_turn_to_see(v: &ActorView, m: &TileMap, target: Point) -> bool {
    spec_sq_dist(v.center, target) <= (v.view_range as int) * (v.view_range as int) && spec_los(m, v.center, target)
}

/// The points the AI reasons about are tiles of a map it can scan.
pub open spec fn view_ok(v: &ActorView, m: &TileMap) -> bool {
    &&& ai_map(m)
    &&& on_map(m, v.position)
    &&& on_map(m, v.center)
}

/// The points held in an alert level are map tiles.
pub open spec fn alert_on_map(a: AlertLevel, m: &TileMap) -> bool {
    match a {
        AlertLevel::Unaware => true,
        AlertLevel::Suspicious { origin, .. } => on_map(m, origin),
        AlertLevel::Alert { last_known, .. } => on_map(m, last_known),
        AlertLevel::Combat { last_seen, .. } => on_map(m, last_seen),
    }
}

/// The points held in a profile are map tiles.
pub open spec fn profile_on_map(p: Profile, m: &TileMap) -> bool {
    match p {
        Profile::Guard { anchor, .. } => on_map(m, anchor),
        _ => true,
    }
}

impl ActorAI {
    pub fn new(profile: Profile) -> (r: ActorAI)
        ensures
            r.profile == profile,
            r.alert == AlertLevel::Unaware,
            r.path_target is None,
            r.nav_goal is None,
    {
        ActorAI { profile, alert: AlertLevel::Unaware, path_target: None, nav_goal: None }
    }

    /// The shared flow-field goal this actor is heading to, decided last turn.
    pub fn nav_field_goal(&self) -> (r: Option<(Point, bool)>)
        ensures
            r == self.nav_goal,
    {
        self.nav_goal
    }

    /// This actor's guard anchor, if it is a guard.
    pub fn anchor(&self) -> (r: Option<Point>)
        ensures
            r == spec_anchor(self.profile),
    {
        match &self.profile {
            Profile::Guard { anchor, .. } => Some(*anchor),
            _ => None,
        }
    }

    /// Whether `pos` lies beyond the guard's anchor leash. False for
    /// non-guards (they have no post to hold).
    pub fn far_from_anchor(&self, pos: Point) -> (r: bool)
        ensures
            r == spec_far_from_anchor(self.profile, pos),
    {
        match self.anchor() {
            Some(a) => sq_dist_wide(pos, a) > 9,
            None => false,
        }
    }

    /// The confirmed enemy position the actor would aim a grenade at.
    pub fn known_enemy(&self) -> (r: Option<Point>)
        ensures
            r == spec_known_enemy(self.alert),
    {
        match &self.alert {
            AlertLevel::Combat { last_seen, .. } => Some(*last_seen),
            AlertLevel::Alert { last_known, .. } => Some(*last_known),
            _ => None,
        }
    }

    /// A fresh perception updates what the actor believes (see
    /// [`spec_update_target`]).
    pub fn update_target(&mut self, perception: Perception)
        requires
            sighting_named(old(self).alert, perception),
        ensures
            final(self).alert == spec_update_target(old(self).alert, perception),
            final(self).profile == old(self).profile,
            final(self).path_target == old(self).path_target,
            final(self).nav_goal == old(self).nav_goal,
    {
        if let AlertLevel::Combat { target_id, last_seen } = self.alert {
            if perception.confirmed_visually && perception.confirmed_hostile {
                if let Some(id) = perception.target_id {
                    self.alert = AlertLevel::Combat { target_id: id, last_seen: perception.origin };
                }
            }
            return;
        }
        if perception.confirmed_visually && perception.confirmed_hostile {
            let id = match perception.target_id {
                Some(id) => id,
                None => 0,
            };
            self.alert = AlertLevel::Combat { target_id: id, last_seen: perception.origin };
            return;
        }
        if matches!(self.alert, AlertLevel::Alert { .. }) {
            return;
        }
        if perception.confirmed_hostile {
            self.alert = AlertLevel::Alert { last_known: perception.origin, search_ticks: 0 };
        } else {
            self.alert = AlertLevel::Suspicious { origin: perception.origin, turns_remaining: SUSPICIOUS_TURNS };
        }
    }

    /// Whether the entity would see `target` after turning to face it.
    pub fn can_turn_to_see(&self, v: &ActorView, m: &TileMap, target: Point) -> (r: bool)
        requires
            view_ok(v, m),
            on_map(m, target),
        ensures
            r == spec_can_turn_to_see(v, m, target),
    {
        let range = v.view_range as i128;
        proof {
            assert(0 <= range * range <= 0x1_0000_0000 * 0x1_0000_0000) by (nonlinear_arith)
                requires
                    0 <= range < 0x1_0000_0000,
            ;
        }
        sq_dist_wide(v.center, target) <= range * range && has_los(v.center, target, m)
    }

    /// Alertness decays: combat is given up when the target is lost (a guard
    /// only once driven off its post with no way left to reacquire; others
    /// once they reach where the target was last seen), suspicion is dropped
    /// when a guard strays past its leash, and otherwise suspicion runs down
    /// a turn at a time.
    pub fn decay_alertness(&mut self, v: &ActorView, m: &TileMap, target_center: Option<Point>)
        requires
            view_ok(v, m),
            alert_on_map(old(self).alert, m),
            profile_on_map(old(self).profile, m),
        ensures
            final(self).profile == old(self).profile,
            final(self).path_target == old(self).path_target,
            final(self).nav_goal == old(self).nav_goal,
            final(self).alert == spec_decay(old(self).alert, old(self).profile, v, m, target_center),
    {
        if let AlertLevel::Combat { target_id, last_seen } = self.alert {
            let lost = !match target_center {
                Some(c) => sees(v, c),
                None => false,
            };
            let give_up = match &self.profile {
                Profile::Guard { .. } => lost && self.far_from_anchor(v.position) && !sees(v, last_seen)
                    && !self.can_turn_to_see(v, m, last_seen),
                _ => lost && sq_dist_wide(v.position, last_seen) <= 2,
            };
            if give_up {
                self.alert = AlertLevel::Alert { last_known: last_seen, search_ticks: 0 };
            }
            return;
        }
        if matches!(self.alert, AlertLevel::Suspicious { .. }) && self.far_from_anchor(v.position) {
            self.alert = AlertLevel::Unaware;
            return;
        }
        if let AlertLevel::Suspicious { origin, turns_remaining } = self.alert {
            if turns_remaining == 0 {
                self.alert = AlertLevel::Unaware;
            } else {
                self.alert = AlertLevel::Suspicious { origin, turns_remaining: turns_remaining - 1 };
            }
        }
    }

    /// Advances the search clock at the end of the turn.
    pub fn end_turn(&mut self)
        requires
            old(self).alert matches AlertLevel::Alert { search_ticks, .. } ==> search_ticks < u32::MAX,
        ensures
            final(self).alert == spec_end_turn(old(self).alert),
            final(self).profile == old(self).profile,
            final(self).path_target == old(self).path_target,
            final(self).nav_goal == old(self).nav_goal,
    {
        if let AlertLevel::Alert { last_known, search_ticks } = self.alert {
            self.alert = AlertLevel::Alert { last_known, search_ticks: search_ticks + 1 };
        }
    }

    /// Advance a patroller to its next waypoint once it stands on the current
    /// one (`route` is the patroller's route).
    pub fn advance_waypoint(&mut self, position: Point, route: &Vec<Point>)
        requires
            old(self).profile matches Profile::Patrol { waypoint_index, .. } ==> route@.len() == 0 || waypoint_index
                < route@.len(),
        ensures
            final(self).alert == old(self).alert,
            final(self).nav_goal == old(self).nav_goal,
            at_waypoint(old(self).alert, old(self).profile, route@, position) ==> final(self).profile == spec_next_waypoint(
                old(self).profile,
                route@.len() as int,
            ) && final(self).path_target is None,
            !at_waypoint(old(self).alert, old(self).profile, route@, position) ==> final(self).profile == old(self).profile
                && final(self).path_target == old(self).path_target,
    {
        if !matches!(self.alert, AlertLevel::Unaware) {
            return;
        }
        if let Profile::Patrol { route_id, waypoint_index, combat_tactic } = self.profile {
            if route.len() > 0 && route[waypoint_index] == position {
                let next = (waypoint_index + 1) % route.len();
                self.profile = Profile::Patrol { route_id, waypoint_index: next, combat_tactic };
                self.path_target = None;
            }
        }
    }
}

/// An unaware patroller stands on its current waypoint.
pub open spec fn at_waypoint(a: AlertLevel, p: Profile, route: Seq<Point>, position: Point) -> bool {
    match p {
        Profile::Patrol { waypoint_index, .. } => a == AlertLevel::Unaware && route.len() > 0 && route[waypoint_index as int]
            == position,
        _ => false,
    }
}

/// The patrol profile moved on to the next waypoint of a route of `len`
/// waypoints, wrapping around.
pub open spec fn spec_next_waypoint(p: Profile, len: int) -> Profile {
    match p {
        Profile::Patrol { route_id, waypoint_index, combat_tactic } => Profile::Patrol {
            route_id,
            waypoint_index: ((waypoint_index + 1) % len) as usize,
            combat_tactic,
        },
        _ => p,
    }
}

/// Alert level after decay (see [`ActorAI::decay_alertness`]).
pub open spec fn spec_decay(a: AlertLevel, p: Profile, v: &ActorView, m: &TileMap, target_center: Option<Point>) -> AlertLevel {
    match a {
        AlertLevel::Combat { last_seen, .. } => {
            let lost = !spec_can_see_target(v, target_center);
            let give_up = match p {
                Profile::Guard { .. } => lost && spec_far_from_anchor(p, v.position) && !can_see(v, last_seen)
                    && !spec_can_turn_to_see(v, m, last_seen),
                _ => lost && spec_sq_dist(v.position, last_seen) <= 2,
            };
            if give_up {
                AlertLevel::Alert { last_known: last_seen, search_ticks: 0 }
            } else {
                a
            }
        },
        AlertLevel::Suspicious { .. } => if spec_far_from_anchor(p, v.position) {
            AlertLevel::Unaware
        } else {
            spec_tick_suspicion(a)
        },
        _ => a,
    }
}


// ---------------------------------------------------------------------------
// Searches
// ---------------------------------------------------------------------------

/// The grenade nearest to `from` among the first `k` whose blast (radius plus
/// a margin of 2 tiles) reaches `from`, with its squared distance; the first
/// one on a tie.
pub open spec fn nearest_grenade_upto(from: Point, gs: Seq<(Point, u32)>, k: int) -> Option<(Point, int)>
    decreases k,
{
    if k <= 0 {
        None
    } else {
        let prev = nearest_grenade_upto(from, gs, k - 1);
        let (pos, radius) = gs[k - 1];
        let d = spec_sq_dist(pos, from);
        if spec_sq_dist(from, pos) <= (radius + 2) * (radius + 2) {
            match prev {
                Some((p, bd)) => if d < bd {
                    Some((pos, d))
                } else {
                    prev
                },
                None => Some((pos, d)),
            }
        } else {
            prev
        }
    }
}

/// The nearest live grenade whose blast reaches `from` (within its radius
/// plus a margin of 2 tiles).
pub fn nearest_grenade(from: Point, grenades: &[(Point, u32)]) -> (r: Option<Point>)
    ensures
        r == (match nearest_grenade_upto(from, grenades@, grenades@.len() as int) {
            Some((p, _)) => Some(p),
            None => None,
        }),
{
    let mut best: Option<(Point, i128)> = None;
    let mut i: usize = 0;
    while i < grenades.len()
        invariant
            i <= grenades@.len(),
            match (best, nearest_grenade_upto(from, grenades@, i as int)) {
                (Some((p, d)), Some((q, e))) => p == q && d == e,
                (None, None) => true,
                _ => false,
            },
        decreases grenades@.len() - i,
    {
        let (pos, radius) = grenades[i];
        let reach = radius as i128 + 2;
        proof {
            assert(0 <= reach * reach <= 0x1_0000_0002 * 0x1_0000_0002) by (nonlinear_arith)
                requires
                    0 <= reach <= 0x1_0000_0002,
            ;
        }
        if sq_dist_wide(from, pos) <= reach * reach {
            let d = sq_dist_wide(pos, from);
            match best {
                Some((_, bd)) => {
                    if d < bd {
                        best = Some((pos, d));
                    }
                },
                None => {
                    best = Some((pos, d));
                },
            }
        }
        i = i + 1;
    }
    match best {
        Some((p, _)) => Some(p),
        None => None,
    }
}

/// The eight neighbour offsets in the order the flee search tries them.
pub open spec fn flee_delta(k: int) -> (int, int) {
    if k == 0 {
        (-1, -1)
    } else if k == 1 {
        (-1, 0)
    } else if k == 2 {
        (-1, 1)
    } else if k == 3 {
        (0, -1)
    } else if k == 4 {
        (0, 1)
    } else if k == 5 {
        (1, -1)
    } else if k == 6 {
        (1, 0)
    } else {
        (1, 1)
    }
}

/// Among the first `k` neighbours of `pos` that are on the map and not
/// blocked, the one farthest (squared) from `threat`, the last one on a tie.
pub open spec fn flee_best_upto(m: &TileMap, pos: Point, threat: Point, k: int) -> Option<(Point, int)>
    decreases k,
{
    if k <= 0 {
        None
    } else {
        let prev = flee_best_upto(m, pos, threat, k - 1);
        let p = Point { x: (pos.x + flee_delta(k - 1).0) as i32, y: (pos.y + flee_delta(k - 1).1) as i32 };
        if on_map(m, p) && !m.spec_blocked_idx(m.idx_of(p.x as int, p.y as int)) {
            let d = spec_sq_dist(p, threat);
            match prev {
                Some((q, bd)) => if d >= bd {
                    Some((p, d))
                } else {
                    prev
                },
                None => Some((p, d)),
            }
        } else {
            prev
        }
    }
}

/// The free neighbouring tile farthest from `threat` (the last such in the
/// search order on a tie), or `pos` itself when no neighbour is free.
pub open spec fn spec_flee_pos(m: &TileMap, pos: Point, threat: Point) -> Point {
    match flee_best_upto(m, pos, threat, 8) {
        Some((p, _)) => p,
        None => pos,
    }
}

/// Where to run from `threat`: the free neighbouring tile farthest from it.
pub fn flee_pos(position: Point, threat: Point, m: &TileMap) -> (r: Point)
    requires
        ai_map(m),
        on_map(m, position),
    ensures
        r == spec_flee_pos(m, position, threat),
{
    let mut best: Option<(Point, i128)> = None;
    let mut k: usize = 0;
    while k < 8
        invariant
            ai_map(m),
            on_map(m, position),
            k <= 8,
            match (best, flee_best_upto(m, position, threat, k as int)) {
                (Some((p, d)), Some((q, e))) => p == q && d == e,
                (None, None) => true,
                _ => false,
            },
        decreases 8 - k,
    {
        let (dx, dy): (i32, i32) = if k == 0 {
            (-1, -1)
        } else if k == 1 {
            (-1, 0)
        } else if k == 2 {
            (-1, 1)
        } else if k == 3 {
            (0, -1)
        } else if k == 4 {
            (0, 1)
        } else if k == 5 {
            (1, -1)
        } else if k == 6 {
            (1, 0)
        } else {
            (1, 1)
        };
        let p = Point { x: position.x + dx, y: position.y + dy };
        if p.x >= 0 && p.y >= 0 && p.x < m.width as i32 && p.y < m.height as i32 {
            proof {
                assert(0 <= p.y * m.width + p.x < m.len()) by (nonlinear_arith)
                    requires
                        0 <= p.x < m.width,
                        0 <= p.y < m.height,
                ;
            }
            if !m.blocked(p.x, p.y) {
                let d = sq_dist_wide(p, threat);
                match best {
                    Some((_, bd)) => {
                        if d >= bd {
                            best = Some((p, d));
                        }
                    },
                    None => {
                        best = Some((p, d));
                    },
                }
            }
        }
        k = k + 1;
    }
    match best {
        Some((p, _)) => p,
        None => position,
    }
}

pub open spec fn clamp_int(v: int, lo: int, hi: int) -> int {
    if v < lo {
        lo
    } else if v > hi {
        hi
    } else {
        v
    }
}

/// A widening search sweep target around `origin`: the heading rotates
/// every [`SEARCH_DIR_HOLD`] turns (clockwise from north) and the radius
/// grows by one every [`SEARCH_GROW_EVERY`] turns from
/// [`SEARCH_START_RADIUS`] up to [`SEARCH_MAX_RADIUS`]; clamped to the map.
pub open spec fn spec_patrol_search_target(origin: Point, ticks: u32, width: int, height: int) -> Point {
    let radius = if 2 + ticks / 6 <= 10 { 2 + ticks / 6 } else { 10 };
    let d = spec_delta(dir_at(((ticks / 3) % 8) as int));
    Point {
        x: clamp_int(origin.x + d.0 * radius, 0, width - 1) as i32,
        y: clamp_int(origin.y + d.1 * radius, 0, height - 1) as i32,
    }
}

/// The tile a searching patroller heads for after `ticks` turns of search.
pub fn patrol_search_target(origin: Point, ticks: u32, m: &TileMap) -> (r: Point)
    requires
        ai_map(m),
        on_map(m, origin),
    ensures
        r == spec_patrol_search_target(origin, ticks, m.width as int, m.height as int),
{
    let grow = (ticks / SEARCH_GROW_EVERY) as i32;
    let radius = if SEARCH_START_RADIUS + grow <= SEARCH_MAX_RADIUS { SEARCH_START_RADIUS + grow } else { SEARCH_MAX_RADIUS };
    let dir = Direction::from_index(((ticks / SEARCH_DIR_HOLD) % 8) as usize);
    let (dx, dy) = dir.delta_pos();
    assert(-10 <= dx * radius <= 10 && -10 <= dy * radius <= 10) by (nonlinear_arith)
        requires
            -1 <= dx <= 1,
            -1 <= dy <= 1,
            0 <= radius <= 10,
    ;
    let x = origin.x + dx * radius;
    let y = origin.y + dy * radius;
    let w = m.width as i32;
    let h = m.height as i32;
    let cx = if x < 0 { 0 } else if x > w - 1 { w - 1 } else { x };
    let cy = if y < 0 { 0 } else if y > h - 1 { h - 1 } else { y };
    Point { x: cx, y: cy }
}

/// Offset of cell `k` of a square search of radius `r`: rows from the top,
/// each from the left.
pub open spec fn square_cell(r: int, k: int) -> (int, int) {
    (k % (2 * r + 1) - r, k / (2 * r + 1) - r)
}

/// Best throw spot among the first `k` cells of the throw square around
/// `from`: a map tile other than `from`, within throw range, beyond the blast
/// `radius`, in sight; scored nearest `toward` if known, else farthest from
/// `from`; the first best on a tie.
pub open spec fn grenade_spot_upto(m: &TileMap, from: Point, radius: u32, toward: Option<Point>, k: int) -> Option<(Point, int)>
    decreases k,
{
    if k <= 0 {
        None
    } else {
        let prev = grenade_spot_upto(m, from, radius, toward, k - 1);
        let c = square_cell(5, k - 1);
        let p = Point { x: (from.x + c.0) as i32, y: (from.y + c.1) as i32 };
        if p != from && on_map(m, p) && spec_sq_dist(from, p) <= 25 && spec_sq_dist(from, p) > (radius as int) * (
        radius as int) && spec_los(m, from, p) {
            let score = match toward {
                Some(t) => -spec_sq_dist(p, t),
                None => spec_sq_dist(p, from),
            };
            match prev {
                Some((q, bs)) => if score > bs {
                    Some((p, score))
                } else {
                    prev
                },
                None => Some((p, score)),
            }
        } else {
            prev
        }
    }
}

/// Best in-throw-range tile for a grenade of blast `radius` (see
/// [`grenade_spot_upto`]).
pub fn grenade_spot(m: &TileMap, from: Point, radius: u32, toward: Option<Point>) -> (r: Option<Point>)
    requires
        ai_map(m),
        on_map(m, from),
    ensures
        r == (match grenade_spot_upto(m, from, radius, toward, 121) {
            Some((p, _)) => Some(p),
            None => None,
        }),
{
    proof {
        assert(0 <= radius * radius <= 0x1_0000_0000 * 0x1_0000_0000) by (nonlinear_arith)
            requires
                0 <= radius < 0x1_0000_0000,
        ;
    }
    let rr = (radius as i128) * (radius as i128);
    let mut best: Option<(Point, i128)> = None;
    let mut k: usize = 0;
    while k < 121
        invariant
            ai_map(m),
            on_map(m, from),
            rr == radius * radius,
            k <= 121,
            match (best, grenade_spot_upto(m, from, radius, toward, k as int)) {
                (Some((p, d)), Some((q, e))) => p == q && d == e,
                (None, None) => true,
                _ => false,
            },
        decreases 121 - k,
    {
        assert(k % 11 <= 10 && k / 11 <= 10);
        let dx = (k % 11) as i32 - 5;
        let dy = (k / 11) as i32 - 5;
        let p = Point { x: from.x + dx, y: from.y + dy };
        if p != from && p.x >= 0 && p.y >= 0 && p.x < m.width as i32 && p.y < m.height as i32 {
            let df = sq_dist_wide(from, p);
            if df <= 25 && df > rr && has_los(from, p, m) {
                let score = match toward {
                    Some(t) => -sq_dist_wide(p, t),
                    None => sq_dist_wide(p, from),
                };
                match best {
                    Some((_, bs)) => {
                        if score > bs {
                            best = Some((p, score));
                        }
                    },
                    None => {
                        best = Some((p, score));
                    },
                }
            }
        }
        k = k + 1;
    }
    match best {
        Some((p, _)) => Some(p),
        None => None,
    }
}

/// The nearest tile (by squared offset) within [`SPOT_SEARCH`] of the
/// entity among the first `k` cells of its search square: on the map, not
/// blocked, within vision range of `target` with a clear sight line to it;
/// the first on a tie.
pub open spec fn spot_upto(m: &TileMap, from: Point, range: u32, target: Point, k: int) -> Option<(Point, int)>
    decreases k,
{
    if k <= 0 {
        None
    } else {
        let prev = spot_upto(m, from, range, target, k - 1);
        let c = square_cell(3, k - 1);
        let p = Point { x: (from.x + c.0) as i32, y: (from.y + c.1) as i32 };
        if !(c.0 == 0 && c.1 == 0) && on_map(m, p) && !m.spec_blocked_idx(m.idx_of(p.x as int, p.y as int))
            && spec_sq_dist(p, target) <= (range as int) * (range as int) && spec_los(m, p, target) {
            let d = c.0 * c.0 + c.1 * c.1;
            match prev {
                Some((q, bd)) => if d < bd {
                    Some((p, d))
                } else {
                    prev
                },
                None => Some((p, d)),
            }
        } else {
            prev
        }
    }
}

/// The nearest free tile within [`SPOT_SEARCH`] that has a clear sight line
/// to `target` in range (see [`spot_upto`]).
pub fn spot_to_see(v: &ActorView, m: &TileMap, target: Point) -> (r: Option<Point>)
    requires
        view_ok(v, m),
        on_map(m, target),
    ensures
        r == (match spot_upto(m, v.position, v.view_range, target, 49) {
            Some((p, _)) => Some(p),
            None => None,
        }),
{
    let from = v.position;
    let range = v.view_range as i128;
    proof {
        assert(0 <= range * range <= 0x1_0000_0000 * 0x1_0000_0000) by (nonlinear_arith)
            requires
                0 <= range < 0x1_0000_0000,
        ;
    }
    let mut best: Option<(Point, i32)> = None;
    let mut k: usize = 0;
    while k < 49
        invariant
            view_ok(v, m),
            on_map(m, target),
            from == v.position,
            range == v.view_range,
            0 <= range * range <= 0x1_0000_0000 * 0x1_0000_0000,
            k <= 49,
            match (best, spot_upto(m, from, v.view_range, target, k as int)) {
                (Some((p, d)), Some((q, e))) => p == q && d == e,
                (None, None) => true,
                _ => false,
            },
        decreases 49 - k,
    {
        assert(k % 7 <= 6 && k / 7 <= 6);
        let dx = (k % 7) as i32 - 3;
        let dy = (k / 7) as i32 - 3;
        assert(0 <= dx * dx <= 9 && 0 <= dy * dy <= 9) by (nonlinear_arith)
            requires
                -3 <= dx <= 3,
                -3 <= dy <= 3,
        ;
        if !(dx == 0 && dy == 0) {
            let p = Point { x: from.x + dx, y: from.y + dy };
            if p.x >= 0 && p.y >= 0 && p.x < m.width as i32 && p.y < m.height as i32 {
                proof {
                    assert(0 <= p.y * m.width + p.x < m.len()) by (nonlinear_arith)
                        requires
                            0 <= p.x < m.width,
                            0 <= p.y < m.height,
                    ;
                }
                if !m.blocked(p.x, p.y) && sq_dist_wide(p, target) <= range * range && has_los(p, target, m) {
                    let d = dx * dx + dy * dy;
                    match best {
                        Some((_, bd)) => {
                            if d < bd {
                                best = Some((p, d));
                            }
                        },
                        None => {
                            best = Some((p, d));
                        },
                    }
                }
            }
        }
        k = k + 1;
    }
    match best {
        Some((p, _)) => Some(p),
        None => None,
    }
}


// ---------------------------------------------------------------------------
// The decision tree
// ---------------------------------------------------------------------------

pub open spec fn first_of(o: Option<(Point, int)>) -> Option<Point> {
    match o {
        Some((p, _)) => Some(p),
        None => None,
    }
}

/// Where to lob an already-primed grenade of blast `radius`: at the enemy
/// if it is in throw range with a clear lob, otherwise the best safe tile;
/// flee our own blast if no tile is safe.
pub open spec fn spec_throw_primed(v: &ActorView, m: &TileMap, item_id: usize, radius: u32, target: Option<Point>) -> Decision {
    if target matches Some(t) && spec_sq_dist(v.center, t) <= 25 && spec_los(m, v.center, t) {
        Decision::ThrowGrenade { item_id, target: target->0 }
    } else {
        match first_of(grenade_spot_upto(m, v.position, radius, target, 121)) {
            Some(spot) => Decision::ThrowGrenade { item_id, target: spot },
            None => Decision::Flee { threat: v.position },
        }
    }
}

/// The "always" grenade block: get rid of a primed grenade (ideally onto the
/// enemy), else run from a live grenade about to go off nearby.
pub open spec fn spec_grenade_reaction(a: AlertLevel, v: &ActorView, m: &TileMap, grenades: Seq<(Point, u32)>) -> Option<Decision> {
    match v.primed_grenade {
        Some((item_id, radius)) => Some(spec_throw_primed(v, m, item_id, radius, spec_known_enemy(a))),
        None => match first_of(nearest_grenade_upto(v.position, grenades, grenades.len() as int)) {
            Some(threat) => Some(Decision::Flee { threat }),
            None => None,
        },
    }
}

/// The guard's combat ladder: prime a grenade when the enemy's last-seen
/// tile is in throw range with a clear lob; then, with a working firearm,
/// shoot a visible target, close half the gap to a visible last-seen tile,
/// turn toward it if that would show it, move to a spot that sees it, or
/// hold and face it.
pub open spec fn spec_guard_combat(v: &ActorView, m: &TileMap, target_center: Option<Point>, target_id: usize, last_seen: Point) -> Decision {
    if v.carried_grenade is Some && spec_sq_dist(v.center, last_seen) <= 25 && spec_los(m, v.center, last_seen) {
        Decision::PrimeGrenade { item_id: v.carried_grenade->0 }
    } else if !v.combat_ready {
        Decision::GetReadyForCombat
    } else if spec_can_see_target(v, target_center) {
        Decision::Engage { target_id, last_seen }
    } else if can_see(v, last_seen) {
        Decision::GoTo {
            dest: Point {
                x: trunc_half(v.position.x + last_seen.x) as i32,
                y: trunc_half(v.position.y + last_seen.y) as i32,
            },
            tolerance: 0,
            field: FieldPref::PerAgent,
        }
    } else if spec_can_turn_to_see(v, m, last_seen) {
        Decision::Face { toward: last_seen }
    } else {
        match first_of(spot_upto(m, v.position, v.view_range, last_seen, 49)) {
            Some(spot) => Decision::GoTo { dest: spot, tolerance: 0, field: FieldPref::Bounded },
            None => Decision::Face { toward: last_seen },
        }
    }
}

/// The patroller's combat behaviour: prefer a grenade in throw range, shoot
/// while the enemy is in sight, otherwise chase to where it was last seen.
pub open spec fn spec_patrol_combat(v: &ActorView, m: &TileMap, target_center: Option<Point>, target_id: usize, last_seen: Point) -> Decision {
    if v.carried_grenade is Some && spec_sq_dist(v.center, last_seen) <= 25 && spec_los(m, v.center, last_seen) {
        Decision::PrimeGrenade { item_id: v.carried_grenade->0 }
    } else if !v.combat_ready {
        Decision::GetReadyForCombat
    } else if spec_can_see_target(v, target_center) {
        Decision::Engage { target_id, last_seen }
    } else {
        Decision::GoTo { dest: last_seen, tolerance: 0, field: FieldPref::Bounded }
    }
}

/// The decision tree: from the actor's (alert, profile) state and what it
/// perceives to a decision. `waypoint` is the patroller's current waypoint
/// (None when its route has none), `roll` a draw in `0..100` and
/// `rand_dir` a random facing.
pub open spec fn spec_decide(
    ai: &ActorAI,
    v: &ActorView,
    m: &TileMap,
    target_center: Option<Point>,
    waypoint: Option<Point>,
    grenades: Seq<(Point, u32)>,
    roll: u32,
    rand_dir: Direction,
) -> Decision {
    let pos = v.position;
    match spec_grenade_reaction(ai.alert, v, m, grenades) {
        Some(d) => d,
        None => match ai.alert {
            AlertLevel::Unaware => match ai.profile {
                Profile::Patrol { .. } => if v.has_primary_weapon {
                    Decision::Holster
                } else {
                    match waypoint {
                        Some(dest) => Decision::GoTo { dest, tolerance: 0, field: FieldPref::FullMap },
                        None => Decision::Idle,
                    }
                },
                Profile::Guard { anchor, .. } => if pos != anchor {
                    Decision::GoTo { dest: anchor, tolerance: 0, field: FieldPref::FullMap }
                } else if v.has_primary_weapon {
                    Decision::Holster
                } else if roll < UNAWARE_IDLE_PCT {
                    Decision::Idle
                } else {
                    Decision::Turn { dir: rand_dir }
                },
            },
            AlertLevel::Suspicious { origin, .. } => if !v.combat_ready {
                Decision::GetReadyForCombat
            } else if spec_far_from_anchor(ai.profile, pos) {
                Decision::GoTo {
                    dest: match spec_anchor(ai.profile) {
                        Some(a) => a,
                        None => origin,
                    },
                    tolerance: 0,
                    field: FieldPref::FullMap,
                }
            } else {
                Decision::GoTo { dest: origin, tolerance: 0, field: FieldPref::Bounded }
            },
            AlertLevel::Alert { last_known, search_ticks } => if !v.combat_ready {
                Decision::GetReadyForCombat
            } else {
                match ai.profile {
                    Profile::Guard { anchor, .. } => if spec_far_from_anchor(ai.profile, pos) {
                        Decision::GoTo { dest: anchor, tolerance: 0, field: FieldPref::FullMap }
                    } else if roll < ALERT_ROTATE_PCT {
                        Decision::Turn { dir: rand_dir }
                    } else if roll < ALERT_STEP_PCT {
                        Decision::GoTo {
                            dest: Point {
                                x: (pos.x + spec_delta(v.facing).0) as i32,
                                y: (pos.y + spec_delta(v.facing).1) as i32,
                            },
                            tolerance: 0,
                            field: FieldPref::PerAgent,
                        }
                    } else {
                        Decision::Idle
                    },
                    Profile::Patrol { .. } => if search_ticks % SHOUT_INTERVAL == 0 {
                        Decision::Shout
                    } else {
                        Decision::GoTo {
                            dest: spec_patrol_search_target(last_known, search_ticks, m.width as int, m.height as int),
                            tolerance: 0,
                            field: FieldPref::Bounded,
                        }
                    },
                }
            },
            AlertLevel::Combat { target_id, last_seen } => match ai.profile {
                Profile::Patrol { combat_tactic: CombatTactic::Flee, .. } => Decision::Flee { threat: last_seen },
                Profile::Guard { combat_tactic: CombatTactic::Flee, .. } => Decision::Flee { threat: last_seen },
                Profile::Guard { .. } => spec_guard_combat(v, m, target_center, target_id, last_seen),
                Profile::Patrol { .. } => spec_patrol_combat(v, m, target_center, target_id, last_seen),
            },
        },
    }
}

/// Everything the decision tree reads lies on the map.
pub open spec fn decide_inputs_ok(ai: &ActorAI, v: &ActorView, m: &TileMap, target_center: Option<Point>, grenades: Seq<(Point, u32)>) -> bool {
    &&& view_ok(v, m)
    &&& alert_on_map(ai.alert, m)
    &&& profile_on_map(ai.profile, m)
}

impl ActorAI {
    /// The primed-grenade throw decision.
    pub fn throw_primed(&self, v: &ActorView, m: &TileMap, item_id: usize, radius: u32, target: Option<Point>) -> (r: Decision)
        requires
            view_ok(v, m),
            target matches Some(t) ==> on_map(m, t),
        ensures
            r == spec_throw_primed(v, m, item_id, radius, target),
    {
        let from = v.position;
        let center = v.center;
        if let Some(t) = target {
            let in_range = sq_dist_wide(center, t) <= 25;
            if in_range && has_los(center, t, m) {
                return Decision::ThrowGrenade { item_id, target: t };
            }
        }
        match grenade_spot(m, from, radius, target) {
            Some(spot) => Decision::ThrowGrenade { item_id, target: spot },
            None => Decision::Flee { threat: from },
        }
    }

    /// The "always" grenade block (see [`spec_grenade_reaction`]).
    pub fn grenade_reaction(&self, v: &ActorView, m: &TileMap, grenades: &[(Point, u32)]) -> (r: Option<Decision>)
        requires
            view_ok(v, m),
            alert_on_map(self.alert, m),
        ensures
            r == spec_grenade_reaction(self.alert, v, m, grenades@),
    {
        if let Some((item_id, radius)) = v.primed_grenade {
            return Some(self.throw_primed(v, m, item_id, radius, self.known_enemy()));
        }
        if let Some(threat) = nearest_grenade(v.position, grenades) {
            return Some(Decision::Flee { threat });
        }
        None
    }

    /// Whether the entity sees the centre of its combat target.
    pub fn can_see_target(&self, v: &ActorView, target_center: Option<Point>) -> (r: bool)
        ensures
            r == spec_can_see_target(v, target_center),
    {
        match target_center {
            Some(c) => sees(v, c),
            None => false,
        }
    }

    /// The guard's combat ladder (see [`spec_guard_combat`]).
    pub fn guard_combat(&self, v: &ActorView, m: &TileMap, target_center: Option<Point>, target_id: usize, last_seen: Point) -> (r: Decision)
        requires
            view_ok(v, m),
            on_map(m, last_seen),
        ensures
            r == spec_guard_combat(v, m, target_center, target_id, last_seen),
    {
        if let Some(item_id) = v.carried_grenade {
            if sq_dist_wide(v.center, last_seen) <= 25 && has_los(v.center, last_seen, m) {
                return Decision::PrimeGrenade { item_id };
            }
        }
        if !v.combat_ready {
            return Decision::GetReadyForCombat;
        }
        if self.can_see_target(v, target_center) {
            return Decision::Engage { target_id, last_seen };
        }
        if sees(v, last_seen) {
            return Decision::GoTo { dest: halfway(v.position, last_seen), tolerance: 0, field: FieldPref::PerAgent };
        }
        if self.can_turn_to_see(v, m, last_seen) {
            return Decision::Face { toward: last_seen };
        }
        match spot_to_see(v, m, last_seen) {
            Some(spot) => Decision::GoTo { dest: spot, tolerance: 0, field: FieldPref::Bounded },
            None => Decision::Face { toward: last_seen },
        }
    }

    /// The patroller's combat behaviour (see [`spec_patrol_combat`]).
    pub fn patrol_combat(&self, v: &ActorView, m: &TileMap, target_center: Option<Point>, target_id: usize, last_seen: Point) -> (r: Decision)
        requires
            view_ok(v, m),
            on_map(m, last_seen),
        ensures
            r == spec_patrol_combat(v, m, target_center, target_id, last_seen),
    {
        if let Some(item_id) = v.carried_grenade {
            if sq_dist_wide(v.center, last_seen) <= 25 && has_los(v.center, last_seen, m) {
                return Decision::PrimeGrenade { item_id };
            }
        }
        if !v.combat_ready {
            return Decision::GetReadyForCombat;
        }
        if self.can_see_target(v, target_center) {
            return Decision::Engage { target_id, last_seen };
        }
        Decision::GoTo { dest: last_seen, tolerance: 0, field: FieldPref::Bounded }
    }

    /// The decision tree (see [`spec_decide`]).
    pub fn decide(
        &self,
        v: &ActorView,
        m: &TileMap,
        target_center: Option<Point>,
        waypoint: Option<Point>,
        grenades: &[(Point, u32)],
        roll: u32,
        rand_dir: Direction,
    ) -> (r: Decision)
        requires
            decide_inputs_ok(self, v, m, target_center, grenades@),
        ensures
            r == spec_decide(self, v, m, target_center, waypoint, grenades@, roll, rand_dir),
    {
        let pos = v.position;
        if let Some(d) = self.grenade_reaction(v, m, grenades) {
            return d;
        }
        match self.alert {
            AlertLevel::Unaware => match self.profile {
                Profile::Patrol { .. } => if v.has_primary_weapon {
                    Decision::Holster
                } else {
                    match waypoint {
                        Some(dest) => Decision::GoTo { dest, tolerance: 0, field: FieldPref::FullMap },
                        None => Decision::Idle,
                    }
                },
                Profile::Guard { anchor, .. } => if pos != anchor {
                    Decision::GoTo { dest: anchor, tolerance: 0, field: FieldPref::FullMap }
                } else if v.has_primary_weapon {
                    Decision::Holster
                } else if roll < UNAWARE_IDLE_PCT {
                    Decision::Idle
                } else {
                    Decision::Turn { dir: rand_dir }
                },
            },
            AlertLevel::Suspicious { origin, .. } => {
                if !v.combat_ready {
                    Decision::GetReadyForCombat
                } else if self.far_from_anchor(pos) {
                    let dest = match self.anchor() {
                        Some(a) => a,
                        None => origin,
                    };
                    Decision::GoTo { dest, tolerance: 0, field: FieldPref::FullMap }
                } else {
                    Decision::GoTo { dest: origin, tolerance: 0, field: FieldPref::Bounded }
                }
            },
            AlertLevel::Alert { last_known, search_ticks } => {
                if !v.combat_ready {
                    Decision::GetReadyForCombat
                } else {
                    match self.profile {
                        Profile::Guard { anchor, .. } => if self.far_from_anchor(pos) {
                            Decision::GoTo { dest: anchor, tolerance: 0, field: FieldPref::FullMap }
                        } else if roll < ALERT_ROTATE_PCT {
                            Decision::Turn { dir: rand_dir }
                        } else if roll < ALERT_STEP_PCT {
                            Decision::GoTo { dest: forward_tile(pos, v.facing), tolerance: 0, field: FieldPref::PerAgent }
                        } else {
                            Decision::Idle
                        },
                        Profile::Patrol { .. } => if search_ticks % SHOUT_INTERVAL == 0 {
                            Decision::Shout
                        } else {
                            Decision::GoTo {
                                dest: patrol_search_target(last_known, search_ticks, m),
                                tolerance: 0,
                                field: FieldPref::Bounded,
                            }
                        },
                    }
                }
            },
            AlertLevel::Combat { target_id, last_seen } => match self.profile.combat_tactic() {
                CombatTactic::Flee => Decision::Flee { threat: last_seen },
                _ => match self.profile {
                    Profile::Guard { .. } => self.guard_combat(v, m, target_center, target_id, last_seen),
                    Profile::Patrol { .. } => self.patrol_combat(v, m, target_center, target_id, last_seen),
                },
            },
        }
    }

    /// Updates beliefs for this turn: alertness decays, then the most urgent
    /// perception (if any) updates the target.
    pub fn update_beliefs(&mut self, v: &ActorView, m: &TileMap, target_center: Option<Point>, perception: Option<Perception>)
        requires
            view_ok(v, m),
            alert_on_map(old(self).alert, m),
            profile_on_map(old(self).profile, m),
            perception matches Some(p) ==> (p.confirmed_visually && p.confirmed_hostile ==> p.target_id is Some),
        ensures
            final(self).profile == old(self).profile,
            final(self).path_target == old(self).path_target,
            final(self).nav_goal == old(self).nav_goal,
            final(self).alert == (match perception {
                Some(p) => spec_update_target(spec_decay(old(self).alert, old(self).profile, v, m, target_center), p),
                None => spec_decay(old(self).alert, old(self).profile, v, m, target_center),
            }),
    {
        self.decay_alertness(v, m, target_center);
        if let Some(p) = perception {
            self.update_target(p);
        }
    }

    /// Decides this turn and records the decision's shared-field goal for
    /// the next turn's flow-field pass.
    pub fn decide_and_record(
        &mut self,
        v: &ActorView,
        m: &TileMap,
        target_center: Option<Point>,
        waypoint: Option<Point>,
        grenades: &[(Point, u32)],
        roll: u32,
        rand_dir: Direction,
    ) -> (r: Decision)
        requires
            decide_inputs_ok(old(self), v, m, target_center, grenades@),
        ensures
            r == spec_decide(old(self), v, m, target_center, waypoint, grenades@, roll, rand_dir),
            final(self).nav_goal == spec_nav_goal(r),
            final(self).profile == old(self).profile,
            final(self).alert == old(self).alert,
            final(self).path_target == old(self).path_target,
    {
        let decision = self.decide(v, m, target_center, waypoint, grenades, roll, rand_dir);
        self.nav_goal = decision.nav_goal();
        decision
    }
}


// ---------------------------------------------------------------------------
// Laws
// ---------------------------------------------------------------------------

/// A confirmed sighting of a hostile (naming whom it saw) always puts the
/// actor in combat with that target at the sighted position, from any state.
pub proof fn law_sighting_enters_combat(alert: AlertLevel, p: Perception)
    requires
        p.confirmed_visually,
        p.confirmed_hostile,
        p.target_id is Some,
    ensures
        spec_update_target(alert, p) == (AlertLevel::Combat { target_id: p.target_id->0, last_seen: p.origin }),
{
}

/// Lesser stimuli never pull an actor out of combat, and never restart the
/// search of an actor already searching (its search clock is kept).
pub proof fn law_lesser_stimuli_keep_combat_and_search(alert: AlertLevel, p: Perception)
    requires
        !(p.confirmed_visually && p.confirmed_hostile),
        alert is Combat || alert is Alert,
    ensures
        spec_update_target(alert, p) == alert,
{
}

/// An alerted actor does not calm down by itself: decay leaves Alert as it is.
pub proof fn law_alert_does_not_decay(
    last_known: Point,
    search_ticks: u32,
    p: Profile,
    v: &ActorView,
    m: &TileMap,
    target_center: Option<Point>,
)
    ensures
        spec_decay(AlertLevel::Alert { last_known, search_ticks }, p, v, m, target_center) == (AlertLevel::Alert {
            last_known,
            search_ticks,
        }),
{
}

/// Combat decays only into a fresh search at the last-seen position (or not
/// at all); it never drops straight to Unaware or Suspicious.
pub proof fn law_combat_decays_to_search(target_id: usize, last_seen: Point, p: Profile, v: &ActorView, m: &TileMap, target_center: Option<Point>)
    ensures
        spec_decay(AlertLevel::Combat { target_id, last_seen }, p, v, m, target_center) == (AlertLevel::Combat {
            target_id,
            last_seen,
        }) || spec_decay(AlertLevel::Combat { target_id, last_seen }, p, v, m, target_center) == (AlertLevel::Alert {
            last_known: last_seen,
            search_ticks: 0,
        }),
{
}

/// A door stands on tile `i`.
pub open spec fn door_at(m: &TileMap, i: int) -> bool {
    m.pawns@[i] matches Some(p) && p.is_door
}

/// Only walls and doors cut a line of sight: two maps of the same width
/// and tiles whose doors stand in the same places give the same line of
/// sight between any two tiles, whoever else stands where.
pub proof fn law_los_ignores_non_doors(m1: &TileMap, m2: &TileMap, from: Point, to: Point)
    requires
        m1.width == m2.width,
        m1.tiles@ == m2.tiles@,
        forall|i: int| #[trigger] door_at(m1, i) == door_at(m2, i),
    ensures
        spec_los(m1, from, to) == spec_los(m2, from, to),
{
    let ray = bresenham_line(from, to);
    assert forall|i: int| 1 <= i < ray.len() - 1 implies m1.spec_opaque(m1.idx_of(#[trigger] ray[i].x as int, ray[i].y as int))
        == m2.spec_opaque(m2.idx_of(ray[i].x as int, ray[i].y as int)) by {
        let t = m1.idx_of(ray[i].x as int, ray[i].y as int);
        assert(door_at(m1, t) == door_at(m2, t));
    }
}

/// An actor in combat never breaks off while it still sees its target:
/// whatever its profile, when the target's centre is among the tiles it
/// sees, decay leaves it in combat with the same target and last sighting.
pub proof fn law_visible_target_keeps_combat(
    target_id: usize,
    last_seen: Point,
    p: Profile,
    v: &ActorView,
    m: &TileMap,
    c: Point,
)
    requires
        v.visible_tiles@.contains(c),
    ensures
        spec_decay(AlertLevel::Combat { target_id, last_seen }, p, v, m, Some(c)) == (AlertLevel::Combat {
            target_id,
            last_seen,
        }),
{
}

/// A patroller in combat that has lost its target gives up exactly when it
/// stands on or next to where it last saw it (within squared distance 2),
/// and then searches from there.
pub proof fn law_patroller_gives_up_at_last_sighting(
    target_id: usize,
    last_seen: Point,
    route_id: usize,
    waypoint_index: usize,
    combat_tactic: CombatTactic,
    v: &ActorView,
    m: &TileMap,
    target_center: Option<Point>,
)
    requires
        !(target_center matches Some(c) && v.visible_tiles@.contains(c)),
    ensures
        ({
            let dx = v.position.x - last_seen.x;
            let dy = v.position.y - last_seen.y;
            let after = spec_decay(
                AlertLevel::Combat { target_id, last_seen },
                Profile::Patrol { route_id, waypoint_index, combat_tactic },
                v,
                m,
                target_center,
            );
            &&& dx * dx + dy * dy <= 2 ==> after == (AlertLevel::Alert { last_known: last_seen, search_ticks: 0 })
            &&& dx * dx + dy * dy > 2 ==> after == (AlertLevel::Combat { target_id, last_seen })
        }),
{
}

/// Alert level after `k` turns of decay with nothing perceived.
pub open spec fn decay_n(a: AlertLevel, p: Profile, v: &ActorView, m: &TileMap, target_center: Option<Point>, k: nat) -> AlertLevel
    decreases k,
{
    if k == 0 {
        a
    } else {
        decay_n(spec_decay(a, p, v, m, target_center), p, v, m, target_center, (k - 1) as nat)
    }
}

/// Suspicion decays: with nothing perceived, a Suspicious actor with `t`
/// turns remaining is Unaware after `t + 1` turns.
pub proof fn law_suspicion_decays(origin: Point, t: u32, p: Profile, v: &ActorView, m: &TileMap, target_center: Option<Point>)
    ensures
        decay_n(AlertLevel::Suspicious { origin, turns_remaining: t }, p, v, m, target_center, (t + 1) as nat)
            == AlertLevel::Unaware,
    decreases t,
{
    let a = AlertLevel::Suspicious { origin, turns_remaining: t };
    assert(decay_n(a, p, v, m, target_center, (t + 1) as nat) == decay_n(spec_decay(a, p, v, m, target_center), p, v, m, target_center, t as nat));
    if spec_far_from_anchor(p, v.position) {
        assert(spec_decay(a, p, v, m, target_center) == AlertLevel::Unaware);
        lemma_unaware_stays(p, v, m, target_center, t as nat);
    } else if t == 0 {
        assert(spec_decay(a, p, v, m, target_center) == AlertLevel::Unaware);
    } else {
        assert(spec_decay(a, p, v, m, target_center) == AlertLevel::Suspicious { origin, turns_remaining: (t - 1) as u32 });
        law_suspicion_decays(origin, (t - 1) as u32, p, v, m, target_center);
    }
}

proof fn lemma_unaware_stays(p: Profile, v: &ActorView, m: &TileMap, target_center: Option<Point>, k: nat)
    ensures
        decay_n(AlertLevel::Unaware, p, v, m, target_center, k) == AlertLevel::Unaware,
    decreases k,
{
    if k > 0 {
        lemma_unaware_stays(p, v, m, target_center, (k - 1) as nat);
    }
}

/// Grenades trump every alert state: an actor holding a primed grenade
/// throws it or flees its blast, whatever its alert level or profile.
pub proof fn law_primed_grenade_comes_first(
    ai: &ActorAI,
    v: &ActorView,
    m: &TileMap,
    target_center: Option<Point>,
    waypoint: Option<Point>,
    grenades: Seq<(Point, u32)>,
    roll: u32,
    rand_dir: Direction,
)
    requires
        v.primed_grenade is Some,
    ensures
        spec_decide(ai, v, m, target_center, waypoint, grenades, roll, rand_dir) is ThrowGrenade || spec_decide(
            ai,
            v,
            m,
            target_center,
            waypoint,
            grenades,
            roll,
            rand_dir,
        ) is Flee,
{
}

/// The more urgent of two perceptions is at least as urgent as each, and the
/// left one wins a tie.
pub proof fn law_most_urgent(l: Perception, r: Perception)
    ensures
        urgency(spec_most_urgent(Some(l), Some(r))->0) >= urgency(l),
        urgency(spec_most_urgent(Some(l), Some(r))->0) >= urgency(r),
        urgency(l) == urgency(r) ==> spec_most_urgent(Some(l), Some(r)) == Some(l),
{
}

} // verus!
