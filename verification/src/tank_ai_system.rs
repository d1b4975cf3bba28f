//! Tank turret behaviour on the enemy turn: a tank that sees the player turns
//! toward it and redraws its 3 by 3 sprite for the new facing.
use vstd::prelude::*;
use crate::geom::{Direction, Point, dir_toward, dir_of_delta, sign, fits_i32, trunc_half};
use crate::sprite::{Sprite, spec_tank_sheet};
use crate::state::RunState;

verus! {

/// What one enemy turn changes for a tank.
#[derive(Clone, Copy, Debug)]
pub struct TankUpdate {
    /// The tank's facing after the turn.
    pub facing: Direction,
    /// Whether the field of view must be recomputed (the facing changed).
    pub dirty: bool,
    /// The sprite glyphs to draw, when the tank saw the player this turn.
    pub glyphs: Option<[u16; 9]>,
}

/// The tile a tank turns around: its top-left tile offset by half its size
/// (halves rounded toward zero).
pub open spec fn spec_tank_center(position: Point, size: Option<Point>) -> (int, int) {
    match size {
        Some(s) => (position.x + trunc_half(s.x as int), position.y + trunc_half(s.y as int)),
        None => (position.x as int, position.y as int),
    }
}

/// The facing toward the player: the direction of the signs of the offset,
/// north when the tank sits on the player.
pub open spec fn spec_turn_toward(center: Point, player: Point) -> Direction {
    if center == player {
        Direction::Up
    } else {
        dir_of_delta(sign(player.x - center.x), sign(player.y - center.y))->0
    }
}

/// One enemy turn of a tank at `position` (with its `size`, if larger than a
/// tile) facing `facing`: if it sees the player at `player_pos`, it turns to
/// face the player (marking its view dirty when the facing changes) and
/// redraws its sprite; otherwise nothing changes.
pub fn tank_ai_step(position: Point, size: Option<Point>, facing: Direction, player_pos: Point, sees_player: bool) -> (r: TankUpdate)
    requires
        size matches Some(s) ==> fits_i32(position.x + trunc_half(s.x as int)) && fits_i32(position.y + trunc_half(s.y as int)),
        sees_player ==> fits_i32(spec_tank_center(position, size).0 - player_pos.x),
        sees_player ==> fits_i32(spec_tank_center(position, size).1 - player_pos.y),
    ensures
        !sees_player ==> r == (TankUpdate { facing, dirty: false, glyphs: None }),
        sees_player ==> {
            let c = spec_tank_center(position, size);
            let d = spec_turn_toward(Point { x: c.0 as i32, y: c.1 as i32 }, player_pos);
            &&& r.facing == d
            &&& r.dirty == (d != facing)
            &&& r.glyphs matches Some(g) && g@ == spec_tank_sheet(d)
        },
{
    let pos = match size {
        Some(s) => Point { x: position.x + s.x / 2, y: position.y + s.y / 2 },
        None => Point { x: position.x, y: position.y },
    };
    if !sees_player {
        return TankUpdate { facing, dirty: false, glyphs: None };
    }
    let ghost c = spec_tank_center(position, size);
    assert(pos.x == c.0 && pos.y == c.1);
    assert(pos == Point { x: c.0 as i32, y: c.1 as i32 });
    let new_direction = dir_toward(pos, player_pos);
    let dirty = new_direction != facing;
    let glyphs = Sprite::Tank.tank_sprite_sheet(new_direction);
    TankUpdate { facing: new_direction, dirty, glyphs: Some(glyphs) }
}

/// One tank's part of the enemy turn: nothing happens unless the game is on
/// the enemy turn; then the tank decides as [`tank_ai_step`] does, and its
/// view stays out of date if it already was (`dirty`) or becomes so when the
/// facing changed. `None` outside the enemy turn.
pub fn tank_turn(
    run_state: RunState,
    position: Point,
    size: Option<Point>,
    facing: Direction,
    dirty: bool,
    player_pos: Point,
    sees_player: bool,
) -> (r: Option<TankUpdate>)
    requires
        run_state == RunState::EnemyTurn ==> (size matches Some(s) ==> fits_i32(position.x + trunc_half(s.x as int))
            && fits_i32(position.y + trunc_half(s.y as int))),
        run_state == RunState::EnemyTurn && sees_player ==> fits_i32(spec_tank_center(position, size).0 - player_pos.x)
            && fits_i32(spec_tank_center(position, size).1 - player_pos.y),
    ensures
        run_state != RunState::EnemyTurn ==> r is None,
        run_state == RunState::EnemyTurn && !sees_player ==> r == Some(TankUpdate { facing, dirty, glyphs: None }),
        run_state == RunState::EnemyTurn && sees_player ==> {
            let c = spec_tank_center(position, size);
            let d = spec_turn_toward(Point { x: c.0 as i32, y: c.1 as i32 }, player_pos);
            &&& r matches Some(u)
            &&& r->0.facing == d
            &&& r->0.dirty == (dirty || d != facing)
            &&& r->0.glyphs matches Some(g) && g@ == spec_tank_sheet(d)
        },
{
    if run_state != RunState::EnemyTurn {
        return None;
    }
    let u = tank_ai_step(position, size, facing, player_pos, sees_player);
    Some(TankUpdate { facing: u.facing, dirty: dirty || u.dirty, glyphs: u.glyphs })
}

} // verus!
