use dieselrogue::error::Error;
use dieselrogue::geom::{Direction, Point};
use dieselrogue::intent::ExecutionPhase;
use dieselrogue::map::{Pawn, TileMap};
use dieselrogue::components::Intent;
use dieselrogue::step::{move_player_intent, resolve_step, StepAction, StepIntent, Stepper};

fn walker(facing: Direction) -> Stepper {
    Stepper {
        position: Point { x: 2, y: 2 },
        facing,
        can_move: true,
        can_embark: false,
        driving: false,
        fits_ahead: true,
    }
}

fn arena() -> TileMap {
    let mut m = TileMap::new_empty_map(5, 5);
    m.pawns[1 * 5 + 2] = Some(Pawn { entity_id: 0, is_door: true });
    m.pawns[2 * 5 + 3] = Some(Pawn { entity_id: 1, is_door: false });
    m.pawns[3 * 5 + 2] = Some(Pawn { entity_id: 2, is_door: false });
    m
}

fn ok(phase: ExecutionPhase, action: StepAction) -> Option<StepIntent> {
    Some(StepIntent { phase, action })
}

#[test]
fn turning_comes_before_stepping() {
    let m = arena();
    let r = resolve_step(&walker(Direction::Left), Direction::Up, &m, &vec![false, false, true]).unwrap();
    assert_eq!(r, ok(ExecutionPhase::Movement, StepAction::Turn(Direction::Up)));
}

#[test]
fn doors_enemies_vehicles_and_open_ground() {
    let m = arena();
    let drivable = vec![false, false, true];
    let up = resolve_step(&walker(Direction::Up), Direction::Up, &m, &drivable).unwrap();
    assert_eq!(up, ok(ExecutionPhase::Movement, StepAction::OpenDoor(Point { x: 2, y: 1 })));
    let right = resolve_step(&walker(Direction::Right), Direction::Right, &m, &drivable).unwrap();
    assert_eq!(right, ok(ExecutionPhase::Attack, StepAction::Melee(Point { x: 3, y: 2 })));
    let left = resolve_step(&walker(Direction::Left), Direction::Left, &m, &drivable).unwrap();
    assert_eq!(left, ok(ExecutionPhase::Movement, StepAction::Move(Point { x: 1, y: 2 })));

    let e = resolve_step(&walker(Direction::Down), Direction::Down, &m, &drivable).unwrap_err();
    assert_eq!(e.error, Error::BadPrecondition);
    assert_eq!(e.message, "You don't know how to operate that vehicle.");
    let mut driver = walker(Direction::Down);
    driver.can_embark = true;
    let board = resolve_step(&driver, Direction::Down, &m, &drivable).unwrap();
    assert_eq!(board, ok(ExecutionPhase::Movement, StepAction::Embark(Point { x: 2, y: 3 })));
}

#[test]
fn step_errors() {
    let m = arena();
    let drivable = vec![false, false, true];
    let mut stuck = walker(Direction::Left);
    stuck.can_move = false;
    let e = resolve_step(&stuck, Direction::Left, &m, &drivable).unwrap_err();
    assert_eq!((e.error, e.message.as_str()), (Error::BadPrecondition, "Player can not move"));

    let mut wide = walker(Direction::Left);
    wide.fits_ahead = false;
    let e = resolve_step(&wide, Direction::Left, &m, &drivable).unwrap_err();
    assert_eq!((e.error, e.message.as_str()), (Error::BadPrecondition, "Bump!"));

    let mut edge = walker(Direction::Left);
    edge.position = Point { x: 0, y: 2 };
    let e = resolve_step(&edge, Direction::Left, &m, &drivable).unwrap_err();
    assert_eq!((e.error, e.message.as_str()), (Error::MapExit, ""));
}

#[test]
fn driving_moves_or_waits() {
    let m = arena();
    let mut tank = walker(Direction::Right);
    tank.driving = true;
    let r = resolve_step(&tank, Direction::Right, &m, &vec![false, false, false]).unwrap();
    assert_eq!(r, ok(ExecutionPhase::Movement, StepAction::Move(Point { x: 3, y: 2 })));
    tank.fits_ahead = false;
    assert_eq!(resolve_step(&tank, Direction::Right, &m, &vec![false, false, false]).unwrap(), None);
}

#[test]
fn player_movement_keys() {
    let m = arena();
    let at = Point { x: 2, y: 2 };
    assert_eq!(move_player_intent(Direction::Up, Some((at, Direction::Left)), &m).unwrap(), Intent::Turn(Direction::Up));
    assert_eq!(move_player_intent(Direction::Right, Some((at, Direction::Right)), &m).unwrap(), Intent::Melee(Point { x: 3, y: 2 }));
    assert_eq!(move_player_intent(Direction::Left, Some((at, Direction::Left)), &m).unwrap(), Intent::Move(Point { x: 1, y: 2 }));
    let e = move_player_intent(Direction::Left, None, &m).unwrap_err();
    assert_eq!((e.error, e.message.as_str()), (Error::BadPrecondition, "Player does not exist"));
}

use dieselrogue::viewshed::{mark_visible, Viewshed};

fn around() -> Vec<Point> {
    vec![
        Point { x: 5, y: 5 },
        Point { x: 5, y: 4 },
        Point { x: 5, y: 6 },
        Point { x: 6, y: 5 },
        Point { x: 4, y: 5 },
        Point { x: 5, y: 0 },
        Point { x: -1, y: 3 },
    ]
}

#[test]
fn view_is_cut_to_the_facing_side() {
    let pos = Point { x: 5, y: 5 };
    let mut vs = Viewshed::new();
    assert!(vs.dirty && vs.range == 10 && vs.visible_tiles.is_empty());
    vs.update(pos, Direction::Up, 10, 10, around());
    assert!(!vs.dirty);
    assert_eq!(
        vs.visible_tiles,
        vec![Point { x: 5, y: 5 }, Point { x: 5, y: 4 }, Point { x: 6, y: 5 }, Point { x: 4, y: 5 }]
    );
    // a clean viewshed is left alone
    vs.update(pos, Direction::Down, 10, 10, vec![]);
    assert_eq!(vs.visible_tiles.len(), 4);

    let mut diag = Viewshed::new();
    diag.update(pos, Direction::UpRight, 10, 10, around());
    assert_eq!(diag.visible_tiles, vec![Point { x: 5, y: 5 }, Point { x: 5, y: 4 }, Point { x: 6, y: 5 }]);
}

#[test]
fn marking_what_the_player_sees() {
    let mut m = TileMap::new_empty_map(4, 3);
    m.visible_tiles[0] = true;
    for r in m.revealed_tiles.iter_mut() {
        *r = false;
    }
    mark_visible(&mut m, &vec![Point { x: 1, y: 1 }, Point { x: 3, y: 2 }]);
    let seen: Vec<usize> = (0..12).filter(|&i| m.visible_tiles[i]).collect();
    assert_eq!(seen, vec![5, 11]);
    let known: Vec<usize> = (0..12).filter(|&i| m.revealed_tiles[i]).collect();
    assert_eq!(known, vec![5, 11]);
    mark_visible(&mut m, &vec![Point { x: 0, y: 0 }]);
    let seen: Vec<usize> = (0..12).filter(|&i| m.visible_tiles[i]).collect();
    assert_eq!(seen, vec![0]);
    let known: Vec<usize> = (0..12).filter(|&i| m.revealed_tiles[i]).collect();
    assert_eq!(known, vec![0, 5, 11]);
}

use dieselrogue::animation::{Animation, AnimationSystem};

fn anim(durations: Vec<u32>) -> Animation {
    Animation { frame_durations: durations, current_frame: 0, time_spent_in_current_frame: 0, done: false }
}

#[test]
fn frames_follow_their_durations() {
    let mut a = anim(vec![100, 50]);
    a.advance(60);
    assert_eq!((a.current_frame, a.time_spent_in_current_frame, a.done), (0, 60, false));
    a.advance(60);
    assert_eq!((a.current_frame, a.time_spent_in_current_frame, a.done), (1, 20, false));
    a.advance(200);
    assert_eq!((a.current_frame, a.time_spent_in_current_frame, a.done), (2, 170, true));
}

#[test]
fn the_system_reports_when_all_are_done() {
    let mut sys = AnimationSystem::new();
    assert!(sys.animations.is_empty() && sys.start_time == 0);
    sys.animations.push(anim(vec![10]));
    sys.animations.push(anim(vec![10]));
    sys.animations[1].current_frame = 0;
    sys.animations[1].time_spent_in_current_frame = 7;
    sys.animations[1].done = true;
    sys.init_render(1000);
    assert_eq!(sys.start_time, 1000);
    assert!(sys.animations.iter().all(|a| a.current_frame == 0 && a.time_spent_in_current_frame == 0 && !a.done));
    assert!(!sys.advance(1005));
    assert_eq!(sys.start_time, 1005);
    assert!(sys.advance(1012));
    assert!(sys.animations.iter().all(|a| a.done && a.time_spent_in_current_frame == 2));
}
