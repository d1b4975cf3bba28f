use dieselrogue::components::SlotType;
use dieselrogue::enemy_ai_system::enemy_turn;
use dieselrogue::firearm::{burst_fire, fan_fire, melee, rocket_fire, single_fire, Damage, Firearm, Hit, Target};
use dieselrogue::step::turn_to;
use dieselrogue::geom::{Direction, Point};
use dieselrogue::input::{
    main_screen_step, targeting_step, ActionSource, Bindings, Command, Key, LookState, PendingAction, TargetData,
    TargetingOutcome,
};
use dieselrogue::map::{Pawn, TileMap};
use dieselrogue::state::RunState;
use dieselrogue::tank_ai_system::tank_turn;
use dieselrogue::viewshed::{refresh_view, Viewshed};

fn rifle(ammo: u32) -> Firearm {
    Firearm { ammo, max_ammo: 5, damage: Damage(10, 0, 2, 0), range: 4 }
}

#[test]
fn fan_fire_hits_every_part_in_the_cone() {
    let width = 4;
    let mut targets: Vec<Option<Target>> = vec![None; 16];
    targets[1 * 4 + 2] = Some(Target { entity_id: 7, parts: 2 });
    targets[2 * 4 + 3] = Some(Target { entity_id: 9, parts: 1 });
    let cone = vec![Point::new(1, 1), Point::new(2, 1), Point::new(3, 2)];
    let r = fan_fire(rifle(3), Point::new(0, 0), Point::new(3, 2), &cone, &targets, width);
    assert_eq!(r.gun.ammo, 2);
    assert_eq!(r.gun.max_ammo, 5);
    assert_eq!(r.arc, cone);
    let dmg = Damage(10, 0, 2, 0);
    assert_eq!(
        r.hits,
        vec![
            Hit { entity_id: 7, bodypart_index: 0, raw_damage: dmg },
            Hit { entity_id: 7, bodypart_index: 1, raw_damage: dmg },
            Hit { entity_id: 9, bodypart_index: 0, raw_damage: dmg },
        ]
    );
}

#[test]
fn fan_fire_with_an_empty_gun_only_clicks() {
    let targets: Vec<Option<Target>> = vec![Some(Target { entity_id: 1, parts: 3 }); 4];
    let cone = vec![Point::new(1, 0)];
    let r = fan_fire(rifle(0), Point::new(0, 0), Point::new(1, 0), &cone, &targets, 2);
    assert_eq!(r.gun, rifle(0));
    assert!(r.hits.is_empty() && r.arc.is_empty());
    // aimed at the shooter's own tile: a charge goes, nothing is hit
    let r = fan_fire(rifle(1), Point::new(1, 1), Point::new(1, 1), &cone, &targets, 2);
    assert_eq!(r.gun.ammo, 0);
    assert!(r.hits.is_empty() && r.arc.is_empty());
}

fn bindings() -> Bindings {
    Bindings {
        move_left: Key::Other(104),
        move_right: Key::Other(108),
        move_up: Key::Other(107),
        move_down: Key::Other(106),
        move_up_left: Key::Other(121),
        move_up_right: Key::Other(117),
        move_down_right: Key::Other(110),
        move_down_left: Key::Other(98),
        wait: Key::Other(46),
        get_item: Key::Other(103),
        disembark: Key::Other(120),
        inventory: Key::Other(105),
        equipment: Key::Other(101),
        ability: Key::Other(97),
        juke: Key::Other(106),
        look: Key::Other(59),
        open_menu: Key::Escape,
        freelook: Key::Other(102),
    }
}

#[test]
fn main_screen_keys_name_their_commands() {
    let b = bindings();
    let look = LookState { freelook: false, freelook_pos: Point::new(3, 3) };
    assert_eq!(main_screen_step(look, Some(Key::Numpad4), &b, None, 10, 10), (look, Command::Move(Direction::Left)));
    assert_eq!(main_screen_step(look, Some(Key::Other(117)), &b, None, 10, 10), (look, Command::Move(Direction::UpRight)));
    // the down binding shadows the juke binding on the same key
    assert_eq!(main_screen_step(look, Some(Key::Other(106)), &b, None, 10, 10), (look, Command::Move(Direction::Down)));
    assert_eq!(main_screen_step(look, Some(Key::Other(46)), &b, None, 10, 10), (look, Command::Wait));
    assert_eq!(main_screen_step(look, Some(Key::Escape), &b, None, 10, 10), (look, Command::OpenMainMenu));
    assert_eq!(main_screen_step(look, Some(Key::Key1), &b, None, 10, 10), (look, Command::LevelUp));
    assert_eq!(main_screen_step(look, Some(Key::F12), &b, None, 10, 10), (look, Command::ToggleDebug));
    assert_eq!(main_screen_step(look, Some(Key::Other(1)), &b, None, 10, 10), (look, Command::Idle));
    assert_eq!(main_screen_step(look, None, &b, None, 10, 10), (look, Command::Idle));
}

#[test]
fn freelook_moves_the_view_and_stays_on_the_map() {
    let b = bindings();
    let off = LookState { freelook: false, freelook_pos: Point::new(0, 0) };
    let (on, cmd) = main_screen_step(off, Some(Key::Other(102)), &b, Some(Point::new(4, 5)), 10, 10);
    assert_eq!(cmd, Command::FreelookOn);
    assert_eq!(on, LookState { freelook: true, freelook_pos: Point::new(4, 5) });
    let (moved, cmd) = main_screen_step(on, Some(Key::Numpad9), &b, None, 10, 10);
    assert_eq!(cmd, Command::Idle);
    assert_eq!(moved.freelook_pos, Point::new(5, 4));
    let corner = LookState { freelook: true, freelook_pos: Point::new(9, 0) };
    let (kept, _) = main_screen_step(corner, Some(Key::Numpad9), &b, None, 10, 10);
    assert_eq!(kept.freelook_pos, Point::new(9, 0));
    let (back, cmd) = main_screen_step(kept, Some(Key::Other(102)), &b, None, 10, 10);
    assert_eq!(cmd, Command::FreelookOff);
    assert!(!back.freelook);
}

fn aim(positional: bool, max_range: Option<u32>) -> PendingAction {
    PendingAction { positional, max_range, source: Some(ActionSource::EquippedSlot(SlotType::PrimaryHand)), action_id: 4 }
}

#[test]
fn targeting_cursor_stays_on_the_map() {
    let c = Point::new(0, 4);
    assert_eq!(
        targeting_step(c, Some(Key::Numpad1), 5, 5, true, None, None),
        TargetingOutcome::Continue { cursor: Point::new(0, 4), pending: None }
    );
    assert_eq!(
        targeting_step(c, Some(Key::Numpad9), 5, 5, true, None, None),
        TargetingOutcome::Continue { cursor: Point::new(1, 3), pending: None }
    );
    assert_eq!(targeting_step(c, Some(Key::Escape), 5, 5, true, None, Some(aim(true, None))), TargetingOutcome::Cancel {
        pending: Some(aim(true, None)),
    });
}

#[test]
fn targeting_confirms_or_refuses() {
    let c = Point::new(4, 0);
    let player = Some(Point::new(0, 0));
    assert_eq!(
        targeting_step(c, Some(Key::Return), 5, 5, true, player, Some(aim(true, Some(4)))),
        TargetingOutcome::Confirm { action_id: 4, data: TargetData::TargetWithEquipment { slot: SlotType::PrimaryHand, target: c } }
    );
    // out of reach: refused, the action stays pending
    assert_eq!(
        targeting_step(c, Some(Key::Return), 5, 5, true, player, Some(aim(true, Some(3)))),
        TargetingOutcome::Continue { cursor: c, pending: Some(aim(true, Some(3))) }
    );
    // out of sight: refused
    assert_eq!(
        targeting_step(c, Some(Key::Return), 5, 5, false, player, Some(aim(true, None))),
        TargetingOutcome::Continue { cursor: c, pending: Some(aim(true, None)) }
    );
    assert_eq!(
        targeting_step(c, Some(Key::Return), 5, 5, true, player, Some(aim(false, None))),
        TargetingOutcome::PickBodypart { cursor: c, pending: aim(false, None) }
    );
    assert_eq!(targeting_step(c, Some(Key::Return), 5, 5, true, player, None), TargetingOutcome::NoPending);
}

#[test]
fn enemy_turn_moves_the_soldier_off_its_old_tile() {
    let mut m = TileMap::new_empty_map(5, 5);
    let soldier = Pawn { entity_id: 3, is_door: false };
    m.pawns[2 * 5 + 1] = Some(soldier);
    // facing right already, player four tiles away: one step right
    let u = enemy_turn(RunState::EnemyTurn, &mut m, Point::new(1, 2), Direction::Right, Point::new(4, 2), true, Some(Point::new(2, 2)))
        .unwrap();
    assert_eq!(u.moved_to, Some(Point::new(2, 2)));
    assert_eq!(m.pawns[2 * 5 + 1], None);
    assert_eq!(m.pawns[2 * 5 + 2], Some(soldier));
    // not the enemy turn: nothing happens
    let r = enemy_turn(RunState::AwaitingInput, &mut m, Point::new(2, 2), Direction::Right, Point::new(4, 2), true, Some(Point::new(3, 2)));
    assert!(r.is_none());
    assert_eq!(m.pawns[2 * 5 + 2], Some(soldier));
}

#[test]
fn tank_turn_keeps_an_old_dirty_view() {
    assert!(tank_turn(RunState::AwaitingInput, Point::new(0, 0), None, Direction::Up, false, Point::new(5, 0), true).is_none());
    let u = tank_turn(RunState::EnemyTurn, Point::new(0, 0), None, Direction::Right, true, Point::new(5, 0), true).unwrap();
    assert_eq!(u.facing, Direction::Right);
    assert!(u.dirty);
    let u = tank_turn(RunState::EnemyTurn, Point::new(0, 0), None, Direction::Right, false, Point::new(5, 0), false).unwrap();
    assert!(!u.dirty && u.glyphs.is_none());
}

#[test]
fn refresh_view_marks_the_players_view() {
    let mut m = TileMap::new_empty_map(4, 4);
    m.revealed_tiles[0] = true;
    let mut vs = Viewshed::new();
    let fov = vec![Point::new(1, 1), Point::new(1, 3), Point::new(3, 1)];
    refresh_view(&mut m, &mut vs, true, Point::new(1, 2), Direction::Up, fov.clone());
    assert!(!vs.dirty);
    // facing up keeps the tiles on or above the viewer's row
    assert_eq!(vs.visible_tiles, vec![Point::new(1, 1), Point::new(3, 1)]);
    assert!(m.visible_tiles[1 * 4 + 1] && m.visible_tiles[1 * 4 + 3]);
    assert!(!m.visible_tiles[3 * 4 + 1]);
    assert!(m.revealed_tiles[0] && m.revealed_tiles[1 * 4 + 1]);
    // a clean view changes nothing
    refresh_view(&mut m, &mut vs, true, Point::new(1, 2), Direction::Down, fov);
    assert_eq!(vs.visible_tiles, vec![Point::new(1, 1), Point::new(3, 1)]);
}

#[test]
fn single_burst_and_rocket_fire() {
    let dmg = Damage(10, 0, 2, 0);
    let t = Target { entity_id: 4, parts: 3 };
    let s = single_fire(rifle(2), Some(t), 1);
    assert_eq!(s.gun.ammo, 1);
    assert_eq!(s.hits, vec![Hit { entity_id: 4, bodypart_index: 1, raw_damage: dmg }]);
    assert!(single_fire(rifle(2), None, 1).hits.is_empty());
    let click = single_fire(rifle(0), Some(t), 1);
    assert_eq!(click.gun, rifle(0));
    assert!(click.hits.is_empty());
    // a burst fires five rounds, or what is left
    let b = burst_fire(rifle(3), Some(t), 0);
    assert_eq!(b.gun.ammo, 0);
    assert_eq!(b.hits.len(), 3);
    let b = burst_fire(Firearm { ammo: 12, ..rifle(0) }, Some(t), 2);
    assert_eq!(b.gun.ammo, 7);
    assert_eq!(b.hits.len(), 5);
    assert!(b.hits.iter().all(|h| h.bodypart_index == 2 && h.entity_id == 4));
    // a rocket hits every body part
    let r = rocket_fire(rifle(1), Some(t));
    assert_eq!(r.gun.ammo, 0);
    assert_eq!(r.hits.iter().map(|h| h.bodypart_index).collect::<Vec<_>>(), vec![0, 1, 2]);
    assert_eq!(melee(t), Hit { entity_id: 4, bodypart_index: 1, raw_damage: Damage(1, 0, 0, 0) });
}

#[test]
fn vehicles_turn_one_step_at_a_time() {
    assert_eq!(turn_to(true, false, Direction::Up, Direction::Down), Some(Direction::Down));
    assert_eq!(turn_to(false, true, Direction::Up, Direction::UpRight), Some(Direction::UpRight));
    assert_eq!(turn_to(false, true, Direction::Up, Direction::UpLeft), Some(Direction::UpLeft));
    assert_eq!(turn_to(false, true, Direction::Up, Direction::Right), None);
    assert_eq!(turn_to(false, false, Direction::Up, Direction::UpRight), None);
}
