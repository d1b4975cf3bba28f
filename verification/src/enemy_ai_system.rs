//! Foot soldier behaviour on the enemy turn: one that sees the player first
//! turns toward the next step of its path to the player, then walks it, and
//! stops once next to the player.
use vstd::prelude::*;
use crate::geom::{Direction, Point, dir_of_delta, direction_to, spec_sq_dist, sq_dist_wide};
use crate::sprite::{Sprite, spec_glyph};
use crate::map::{TileMap, Pawn};
use crate::state::RunState;

verus! {

/// What one enemy turn changes for a foot soldier.
#[derive(Clone, Copy, PartialEq, Eq, Structural, Debug)]
pub struct EnemyUpdate {
    pub facing: Direction,
    /// Whether the field of view must be recomputed.
    pub dirty: bool,
    /// The glyph to draw, when the soldier saw the player this turn.
    pub glyph: Option<u16>,
    /// The tile the soldier stepped onto, if it moved.
    pub moved_to: Option<Point>,
}

/// The facing toward the adjacent tile `step`; north when `step` is not one
/// step away.
pub open spec fn spec_step_facing(pos: Point, step: Point) -> Direction {
    match dir_of_delta(step.x - pos.x, step.y - pos.y) {
        Some(d) => d,
        None => Direction::Up,
    }
}

/// What [`enemy_ai_step`] decides, as a value.
pub open spec fn spec_enemy_step(
    pos: Point,
    facing: Direction,
    player_pos: Point,
    sees_player: bool,
    path_step: Option<Point>,
) -> EnemyUpdate {
    if !sees_player || path_step is None {
        EnemyUpdate { facing, dirty: false, glyph: None, moved_to: None }
    } else {
        let d = spec_step_facing(pos, path_step->0);
        let glyph = Some(spec_glyph(Sprite::Human, d, 0));
        if d != facing {
            EnemyUpdate { facing: d, dirty: true, glyph, moved_to: None }
        } else if spec_sq_dist(pos, player_pos) <= 2 {
            EnemyUpdate { facing, dirty: false, glyph, moved_to: None }
        } else {
            EnemyUpdate { facing, dirty: true, glyph, moved_to: path_step }
        }
    }
}

/// One enemy turn of a soldier at `pos` facing `facing` that sees the player
/// at `player_pos` when `sees_player`. `path_step` is the second tile of the
/// path found to the player (the first step), when a path was found. The
/// soldier turns toward that step if not already facing it; otherwise it
/// steps onto it, unless it is already next to the player (closer than 1.5
/// tiles, that is within squared distance 2).
pub fn enemy_ai_step(pos: Point, facing: Direction, player_pos: Point, sees_player: bool, path_step: Option<Point>) -> (r: EnemyUpdate)
    ensures
        !sees_player || path_step is None ==> r == (EnemyUpdate { facing, dirty: false, glyph: None, moved_to: None }),
        sees_player && path_step is Some ==> {
            let d = spec_step_facing(pos, path_step->0);
            &&& r.facing == d
            &&& r.glyph == Some(spec_glyph(Sprite::Human, d, 0))
            &&& d != facing ==> r.dirty && r.moved_to is None
            &&& d == facing && spec_sq_dist(pos, player_pos) <= 2 ==> !r.dirty && r.moved_to is None
            &&& d == facing && spec_sq_dist(pos, player_pos) > 2 ==> r.dirty && r.moved_to == path_step
        },
        r == spec_enemy_step(pos, facing, player_pos, sees_player, path_step),
{
    if !sees_player {
        return EnemyUpdate { facing, dirty: false, glyph: None, moved_to: None };
    }
    let step = match path_step {
        Some(s) => s,
        None => {
            return EnemyUpdate { facing, dirty: false, glyph: None, moved_to: None };
        },
    };
    let new_direction = match direction_to(pos, step) {
        Some(d) => d,
        None => Direction::Up,
    };
    let glyph = Sprite::Human.glyph(new_direction, 0);
    if new_direction != facing {
        return EnemyUpdate { facing: new_direction, dirty: true, glyph: Some(glyph), moved_to: None };
    }
    if sq_dist_wide(pos, player_pos) <= 2 {
        EnemyUpdate { facing, dirty: false, glyph: Some(glyph), moved_to: None }
    } else {
        EnemyUpdate { facing, dirty: true, glyph: Some(glyph), moved_to: Some(step) }
    }
}

/// The map with the occupant of tile `from` moved to tile `to`.
pub open spec fn moved_pawns(pawns: Seq<Option<Pawn>>, from: int, to: int) -> Seq<Option<Pawn>> {
    pawns.update(from, None).update(to, pawns[from])
}

/// One soldier's part of the enemy turn: nothing happens unless the game is
/// on the enemy turn; then the soldier decides as [`enemy_ai_step`] does, and
/// when it steps, its occupancy of the map moves with it, from its old tile
/// to the new one. Returns the decision, `None` outside the enemy turn.
pub fn enemy_turn(
    run_state: RunState,
    m: &mut TileMap,
    pos: Point,
    facing: Direction,
    player_pos: Point,
    sees_player: bool,
    path_step: Option<Point>,
) -> (r: Option<EnemyUpdate>)
    requires
        old(m).wf(),
        run_state == RunState::EnemyTurn ==> 0 <= pos.x < old(m).width && 0 <= pos.y < old(m).height,
        run_state == RunState::EnemyTurn ==> (path_step matches Some(s) ==> 0 <= s.x < old(m).width && 0 <= s.y
            < old(m).height),
    ensures
        run_state != RunState::EnemyTurn ==> r is None && *final(m) == *old(m),
        run_state == RunState::EnemyTurn ==> r == Some(spec_enemy_step(pos, facing, player_pos, sees_player, path_step)),
        final(m).wf(),
        final(m).width == old(m).width && final(m).height == old(m).height,
        final(m).tiles@ == old(m).tiles@ && final(m).items@ == old(m).items@,
        final(m).revealed_tiles@ == old(m).revealed_tiles@ && final(m).visible_tiles@ == old(m).visible_tiles@,
        r is Some && r->0.moved_to is Some ==> final(m).pawns@ == moved_pawns(
            old(m).pawns@,
            old(m).idx_of(pos.x as int, pos.y as int),
            old(m).idx_of(r->0.moved_to->0.x as int, r->0.moved_to->0.y as int),
        ),
        !(r is Some && r->0.moved_to is Some) ==> final(m).pawns@ == old(m).pawns@,
{
    if run_state != RunState::EnemyTurn {
        return None;
    }
    let u = enemy_ai_step(pos, facing, player_pos, sees_player, path_step);
    match u.moved_to {
        Some(s) => {
            proof {
                assert(pos.y * m.width + pos.x < m.len()) by (nonlinear_arith)
                    requires
                        0 <= pos.x < m.width,
                        0 <= pos.y < m.height,
                ;
                assert(s.y * m.width + s.x < m.len()) by (nonlinear_arith)
                    requires
                        0 <= s.x < m.width,
                        0 <= s.y < m.height,
                ;
            }
            let from = m.xy_idx(pos.x, pos.y);
            let to = m.xy_idx(s.x, s.y);
            let who = m.pawns[from];
            m.pawns.set(from, None);
            m.pawns.set(to, who);
        },
        None => {},
    }
    Some(u)
}

} // verus!
