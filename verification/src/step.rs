//! What a step in a direction turns into: a turn, a move, opening a door,
//! boarding a vehicle or a melee attack, depending on the stepping entity's
//! facing and the tile ahead. Shared by the player's movement keys and the AI.
use vstd::prelude::*;
use crate::error::{Error, GameError};
use crate::geom::{Direction, Point, spec_delta, dir_at, dir_index};
use crate::components::Intent;
use crate::intent::ExecutionPhase;
use crate::map::TileMap;

verus! {

/// The action a step resolves to, with the tile it acts on.
#[derive(Clone, Copy, PartialEq, Eq, Structural, Debug)]
pub enum StepAction {
    Turn(Direction),
    OpenDoor(Point),
    Embark(Point),
    Melee(Point),
    Move(Point),
}

/// A resolved step: the phase it acts in and what it does.
#[derive(Clone, Copy, PartialEq, Eq, Structural, Debug)]
pub struct StepIntent {
    pub phase: ExecutionPhase,
    pub action: StepAction,
}

/// What the world knows of the stepping entity.
#[derive(Clone, Copy, PartialEq, Eq, Structural, Debug)]
pub struct Stepper {
    pub position: Point,
    pub facing: Direction,
    /// It can walk or drive.
    pub can_move: bool,
    /// It can board a vehicle.
    pub can_embark: bool,
    /// It is a vehicle being driven.
    pub driving: bool,
    /// Its body fits on the tile ahead.
    pub fits_ahead: bool,
}

/// The tile one step from the stepper's position in `direction`.
pub open spec fn step_target(s: Stepper, direction: Direction) -> Point {
    Point {
        x: (s.position.x + spec_delta(direction).0) as i32,
        y: (s.position.y + spec_delta(direction).1) as i32,
    }
}

/// The stepper's position leaves room for one step in every direction.
pub open spec fn step_room(s: Stepper) -> bool {
    i32::MIN < s.position.x < i32::MAX && i32::MIN < s.position.y < i32::MAX
}

/// `p` lies on the map.
pub open spec fn on_map(m: &TileMap, p: Point) -> bool {
    0 <= p.x < m.width && 0 <= p.y < m.height
}

/// The entity standing on tile `p`, if any.
pub open spec fn occupant(m: &TileMap, p: Point) -> Option<crate::map::Pawn> {
    m.pawns@[m.idx_of(p.x as int, p.y as int)]
}

/// Resolves a step of `stepper` in `direction` (`drivable[id]`: the entity
/// `id` is a vehicle that can be boarded):
/// - an entity that can neither walk nor drive cannot move (an error);
/// - facing elsewhere, it turns toward `direction`;
/// - on foot, stepping off the map is an error; a door ahead is opened, a
///   vehicle ahead is boarded (an error without the skill), anyone else ahead
///   is attacked, and an empty tile is entered if the body fits (else an
///   error);
/// - driving, the vehicle moves if it fits, else nothing happens.
pub fn resolve_step(stepper: &Stepper, direction: Direction, m: &TileMap, drivable: &Vec<bool>) -> (r: Result<
    Option<StepIntent>,
    GameError,
>)
    requires
        m.wf(),
        step_room(*stepper),
        on_map(m, step_target(*stepper, direction)) && occupant(m, step_target(*stepper, direction)) is Some
            ==> occupant(m, step_target(*stepper, direction))->0.entity_id < drivable@.len(),
    ensures
        ({
            let t = step_target(*stepper, direction);
            if !stepper.can_move {
                r matches Err(e) && e.error == Error::BadPrecondition && e.message@ == "Player can not move"@
            } else if stepper.facing != direction {
                r == Ok::<Option<StepIntent>, GameError>(
                    Some(StepIntent { phase: ExecutionPhase::Movement, action: StepAction::Turn(direction) }),
                )
            } else if !stepper.driving {
                if !on_map(m, t) {
                    r matches Err(e) && e.error == Error::MapExit && e.message@ == Seq::<char>::empty()
                } else {
                    match occupant(m, t) {
                        Some(p) => if p.is_door {
                            r == Ok::<Option<StepIntent>, GameError>(
                                Some(StepIntent { phase: ExecutionPhase::Movement, action: StepAction::OpenDoor(t) }),
                            )
                        } else if drivable@[p.entity_id as int] {
                            if stepper.can_embark {
                                r == Ok::<Option<StepIntent>, GameError>(
                                    Some(StepIntent { phase: ExecutionPhase::Movement, action: StepAction::Embark(t) }),
                                )
                            } else {
                                r matches Err(e) && e.error == Error::BadPrecondition && e.message@
                                    == "You don't know how to operate that vehicle."@
                            }
                        } else {
                            r == Ok::<Option<StepIntent>, GameError>(
                                Some(StepIntent { phase: ExecutionPhase::Attack, action: StepAction::Melee(t) }),
                            )
                        },
                        None => if stepper.fits_ahead {
                            r == Ok::<Option<StepIntent>, GameError>(
                                Some(StepIntent { phase: ExecutionPhase::Movement, action: StepAction::Move(t) }),
                            )
                        } else {
                            r matches Err(e) && e.error == Error::BadPrecondition && e.message@ == "Bump!"@
                        },
                    }
                }
            } else if stepper.fits_ahead {
                r == Ok::<Option<StepIntent>, GameError>(
                    Some(StepIntent { phase: ExecutionPhase::Movement, action: StepAction::Move(t) }),
                )
            } else {
                r == Ok::<Option<StepIntent>, GameError>(None)
            }
        }),
{
    if !stepper.can_move {
        return Err(GameError::new(Error::BadPrecondition, "Player can not move"));
    }
    if stepper.facing != direction {
        return Ok(Some(StepIntent { phase: ExecutionPhase::Movement, action: StepAction::Turn(direction) }));
    }
    let (dx, dy) = direction.delta_pos();
    let target = Point { x: stepper.position.x + dx, y: stepper.position.y + dy };
    assert(target == step_target(*stepper, direction));
    if !stepper.driving {
        if target.x < 0 || target.y < 0 || target.x as usize >= m.width || target.y as usize >= m.height {
            proof {
                reveal_strlit("");
            }
            return Err(GameError::new(Error::MapExit, ""));
        }
        proof {
            assert(target.y * m.width + target.x < m.len()) by (nonlinear_arith)
                requires
                    0 <= target.x < m.width,
                    0 <= target.y < m.height,
            ;
        }
        let index = m.xy_idx(target.x, target.y);
        match m.pawns[index] {
            Some(pawn) => {
                if pawn.is_door {
                    Ok(Some(StepIntent { phase: ExecutionPhase::Movement, action: StepAction::OpenDoor(target) }))
                } else if drivable[pawn.entity_id] {
                    if !stepper.can_embark {
                        return Err(GameError::new(Error::BadPrecondition, "You don't know how to operate that vehicle."));
                    }
                    Ok(Some(StepIntent { phase: ExecutionPhase::Movement, action: StepAction::Embark(target) }))
                } else {
                    Ok(Some(StepIntent { phase: ExecutionPhase::Attack, action: StepAction::Melee(target) }))
                }
            },
            None => {
                if !stepper.fits_ahead {
                    return Err(GameError::new(Error::BadPrecondition, "Bump!"));
                }
                Ok(Some(StepIntent { phase: ExecutionPhase::Movement, action: StepAction::Move(target) }))
            },
        }
    } else if stepper.fits_ahead {
        Ok(Some(StepIntent { phase: ExecutionPhase::Movement, action: StepAction::Move(target) }))
    } else {
        Ok(None)
    }
}

/// The player's intent for a movement key in `direction`, given the
/// player's position and facing (`None`: there is no player, an error):
/// turn when facing elsewhere, else attack whoever stands on the tile ahead,
/// or move onto it.
pub fn move_player_intent(direction: Direction, player: Option<(Point, Direction)>, m: &TileMap) -> (r: Result<
    Intent,
    GameError,
>)
    requires
        m.wf(),
        match player {
            Some((pos, facing)) => facing == direction ==> {
                let t = Point {
                    x: (pos.x + spec_delta(direction).0) as i32,
                    y: (pos.y + spec_delta(direction).1) as i32,
                };
                &&& i32::MIN < pos.x < i32::MAX && i32::MIN < pos.y < i32::MAX
                &&& on_map(m, t)
            },
            None => true,
        },
    ensures
        match player {
            None => r matches Err(e) && e.error == Error::BadPrecondition && e.message@ == "Player does not exist"@,
            Some((pos, facing)) => {
                let t = Point {
                    x: (pos.x + spec_delta(direction).0) as i32,
                    y: (pos.y + spec_delta(direction).1) as i32,
                };
                if facing != direction {
                    r == Ok::<Intent, GameError>(Intent::Turn(direction))
                } else if occupant(m, t) is Some {
                    r == Ok::<Intent, GameError>(Intent::Melee(t))
                } else {
                    r == Ok::<Intent, GameError>(Intent::Move(t))
                }
            },
        },
{
    match player {
        None => Err(GameError::new(Error::BadPrecondition, "Player does not exist")),
        Some((pos, facing)) => {
            if facing != direction {
                return Ok(Intent::Turn(direction));
            }
            let (dx, dy) = direction.delta_pos();
            let target = Point { x: pos.x + dx, y: pos.y + dy };
            proof {
                assert(target.y * m.width + target.x < m.len()) by (nonlinear_arith)
                    requires
                        0 <= target.x < m.width,
                        0 <= target.y < m.height,
                ;
            }
            let index = m.xy_idx(target.x, target.y);
            if m.pawns[index].is_some() {
                Ok(Intent::Melee(target))
            } else {
                Ok(Intent::Move(target))
            }
        },
    }
}

/// The facing after a turn toward `direction`: one who walks turns at once;
/// a vehicle turns only to a neighbouring direction (45 degrees either way);
/// `None` when the turn cannot happen (a vehicle asked to turn further, or
/// an entity that can neither walk nor drive).
pub fn turn_to(can_walk: bool, can_drive: bool, facing: Direction, direction: Direction) -> (r: Option<Direction>)
    ensures
        can_walk ==> r == Some(direction),
        !can_walk && can_drive ==> r == (if direction == dir_at(dir_index(facing) + 1) || direction == dir_at(
            dir_index(facing) + 7,
        ) {
            Some(direction)
        } else {
            None::<Direction>
        }),
        !can_walk && !can_drive ==> r is None,
{
    if can_walk {
        Some(direction)
    } else if can_drive {
        if facing.clockwise() == direction || facing.counter_clockwise() == direction {
            Some(direction)
        } else {
            None
        }
    } else {
        None
    }
}

} // verus!
