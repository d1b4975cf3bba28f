//! Turning key presses into what the game does next: the main screen's key
//! table, free-look, and picking a target tile with the cursor.
use vstd::prelude::*;
use crate::geom::{Direction, Point, spec_delta, spec_sq_dist};
use crate::components::SlotType;

verus! {

/// The keys the game tells apart; every other key is `Other` with its code.
#[derive(Clone, Copy, PartialEq, Eq, Structural, Debug)]
pub enum Key {
    Left,
    Right,
    Up,
    Down,
    Numpad1,
    Numpad2,
    Numpad3,
    Numpad4,
    Numpad6,
    Numpad7,
    Numpad8,
    Numpad9,
    Key1,
    F10,
    F12,
    Escape,
    Return,
    Other(u32),
}

/// The rebindable keys of the main screen.
#[derive(Clone, Copy, PartialEq, Eq, Structural, Debug)]
pub struct Bindings {
    pub move_left: Key,
    pub move_right: Key,
    pub move_up: Key,
    pub move_down: Key,
    pub move_up_left: Key,
    pub move_up_right: Key,
    pub move_down_right: Key,
    pub move_down_left: Key,
    pub wait: Key,
    pub get_item: Key,
    pub disembark: Key,
    pub inventory: Key,
    pub equipment: Key,
    pub ability: Key,
    pub juke: Key,
    pub look: Key,
    pub open_menu: Key,
    pub freelook: Key,
}

/// What a key on the main screen asks the game to do.
#[derive(Clone, Copy, PartialEq, Eq, Structural, Debug)]
pub enum Command {
    /// Nothing more than what the step itself changed.
    Idle,
    /// The player steps (or turns) this way.
    Move(Direction),
    Wait,
    GetItem,
    Disembark,
    OpenInventory,
    OpenEquipment,
    OpenAbilities,
    Juke,
    /// Look around with the cursor, starting on the player.
    Look,
    OpenMainMenu,
    FreelookOn,
    FreelookOff,
    LevelUp,
    ToggleParallelAi,
    ToggleDebug,
}

/// Free-look: whether the movement keys move the view instead of the
/// player, and where the view is centred.
#[derive(Clone, Copy, PartialEq, Eq, Structural, Debug)]
pub struct LookState {
    pub freelook: bool,
    pub freelook_pos: Point,
}

/// The direction a movement key stands for: the numpad always, then the
/// bound movement keys.
pub open spec fn move_key(key: Key, b: Bindings) -> Option<Direction> {
    if key == Key::Numpad4 {
        Some(Direction::Left)
    } else if key == Key::Numpad6 {
        Some(Direction::Right)
    } else if key == Key::Numpad8 {
        Some(Direction::Up)
    } else if key == Key::Numpad2 {
        Some(Direction::Down)
    } else if key == Key::Numpad7 {
        Some(Direction::UpLeft)
    } else if key == Key::Numpad9 {
        Some(Direction::UpRight)
    } else if key == Key::Numpad3 {
        Some(Direction::DownRight)
    } else if key == Key::Numpad1 {
        Some(Direction::DownLeft)
    } else if key == b.move_left {
        Some(Direction::Left)
    } else if key == b.move_right {
        Some(Direction::Right)
    } else if key == b.move_up {
        Some(Direction::Up)
    } else if key == b.move_down {
        Some(Direction::Down)
    } else if key == b.move_up_left {
        Some(Direction::UpLeft)
    } else if key == b.move_up_right {
        Some(Direction::UpRight)
    } else if key == b.move_down_right {
        Some(Direction::DownRight)
    } else if key == b.move_down_left {
        Some(Direction::DownLeft)
    } else {
        None
    }
}

/// The command of a key that is no movement key, checked in the order the
/// main screen checks them; the free-look key is handled apart.
pub open spec fn other_command(key: Key, b: Bindings) -> Command {
    if key == b.wait {
        Command::Wait
    } else if key == b.get_item {
        Command::GetItem
    } else if key == b.disembark {
        Command::Disembark
    } else if key == b.inventory {
        Command::OpenInventory
    } else if key == b.equipment {
        Command::OpenEquipment
    } else if key == b.ability {
        Command::OpenAbilities
    } else if key == b.juke {
        Command::Juke
    } else if key == b.look {
        Command::Look
    } else if key == b.open_menu {
        Command::OpenMainMenu
    } else if key == Key::Key1 {
        Command::LevelUp
    } else if key == Key::F10 {
        Command::ToggleParallelAi
    } else if key == Key::F12 {
        Command::ToggleDebug
    } else {
        Command::Idle
    }
}

/// `v` kept within `lo..=hi`.
pub open spec fn clamp(v: int, lo: int, hi: int) -> int {
    if v < lo {
        lo
    } else if v > hi {
        hi
    } else {
        v
    }
}

/// The free-look centre moved one step `d`, kept on the map.
pub open spec fn spec_freelook_move(pos: Point, d: Direction, map_w: int, map_h: int) -> Point {
    Point {
        x: clamp(pos.x + spec_delta(d).0, 0, map_w - 1) as i32,
        y: clamp(pos.y + spec_delta(d).1, 0, map_h - 1) as i32,
    }
}

/// The main screen's answer to `key`, with the free-look state after it.
pub open spec fn spec_main_screen(
    look: LookState,
    key: Option<Key>,
    b: Bindings,
    player_center: Option<Point>,
    map_w: int,
    map_h: int,
) -> (LookState, Command) {
    match key {
        None => (look, Command::Idle),
        Some(k) => match move_key(k, b) {
            Some(d) => if look.freelook {
                (LookState { freelook: true, freelook_pos: spec_freelook_move(look.freelook_pos, d, map_w, map_h) }, Command::Idle)
            } else {
                (look, Command::Move(d))
            },
            None => if k != b.wait && k != b.get_item && k != b.disembark && k != b.inventory && k != b.equipment && k
                != b.ability && k != b.juke && k != b.look && k != b.open_menu && k == b.freelook {
                if look.freelook {
                    (LookState { freelook: false, freelook_pos: look.freelook_pos }, Command::FreelookOff)
                } else {
                    (
                        LookState {
                            freelook: true,
                            freelook_pos: match player_center {
                                Some(c) => c,
                                None => Point { x: 0, y: 0 },
                            },
                        },
                        Command::FreelookOn,
                    )
                }
            } else {
                (look, other_command(k, b))
            },
        },
    }
}

fn freelook_move(pos: Point, d: Direction, map_w: usize, map_h: usize) -> (r: Point)
    requires
        1 <= map_w <= i32::MAX,
        1 <= map_h <= i32::MAX,
        i32::MIN < pos.x < i32::MAX,
        i32::MIN < pos.y < i32::MAX,
    ensures
        r == spec_freelook_move(pos, d, map_w as int, map_h as int),
{
    let (dx, dy) = d.delta_pos();
    let w = map_w as i32;
    let h = map_h as i32;
    let x = pos.x + dx;
    let y = pos.y + dy;
    let cx = if x < 0 { 0 } else if x > w - 1 { w - 1 } else { x };
    let cy = if y < 0 { 0 } else if y > h - 1 { h - 1 } else { y };
    Point { x: cx, y: cy }
}

/// One key press on the main screen: movement keys (the numpad, then the
/// bound ones) move the player, or the free-look view when free-look is on,
/// kept on the map; the free-look key toggles free-look, starting the view
/// on the player; the other bound keys and the fixed level-up and debug keys
/// name their command; anything else does nothing.
pub fn main_screen_step(
    look: LookState,
    key: Option<Key>,
    b: &Bindings,
    player_center: Option<Point>,
    map_w: usize,
    map_h: usize,
) -> (r: (LookState, Command))
    requires
        look.freelook && key is Some && move_key(key->0, *b) is Some ==> {
            &&& 1 <= map_w <= i32::MAX
            &&& 1 <= map_h <= i32::MAX
            &&& i32::MIN < look.freelook_pos.x < i32::MAX
            &&& i32::MIN < look.freelook_pos.y < i32::MAX
        },
    ensures
        r == spec_main_screen(look, key, *b, player_center, map_w as int, map_h as int),
{
    let k = match key {
        None => {
            return (look, Command::Idle);
        },
        Some(k) => k,
    };
    let dir = if k == Key::Numpad4 {
        Some(Direction::Left)
    } else if k == Key::Numpad6 {
        Some(Direction::Right)
    } else if k == Key::Numpad8 {
        Some(Direction::Up)
    } else if k == Key::Numpad2 {
        Some(Direction::Down)
    } else if k == Key::Numpad7 {
        Some(Direction::UpLeft)
    } else if k == Key::Numpad9 {
        Some(Direction::UpRight)
    } else if k == Key::Numpad3 {
        Some(Direction::DownRight)
    } else if k == Key::Numpad1 {
        Some(Direction::DownLeft)
    } else if k == b.move_left {
        Some(Direction::Left)
    } else if k == b.move_right {
        Some(Direction::Right)
    } else if k == b.move_up {
        Some(Direction::Up)
    } else if k == b.move_down {
        Some(Direction::Down)
    } else if k == b.move_up_left {
        Some(Direction::UpLeft)
    } else if k == b.move_up_right {
        Some(Direction::UpRight)
    } else if k == b.move_down_right {
        Some(Direction::DownRight)
    } else if k == b.move_down_left {
        Some(Direction::DownLeft)
    } else {
        None
    };
    match dir {
        Some(d) => {
            if look.freelook {
                let p = freelook_move(look.freelook_pos, d, map_w, map_h);
                return (LookState { freelook: true, freelook_pos: p }, Command::Idle);
            }
            return (look, Command::Move(d));
        },
        None => {},
    }
    if k == b.wait {
        (look, Command::Wait)
    } else if k == b.get_item {
        (look, Command::GetItem)
    } else if k == b.disembark {
        (look, Command::Disembark)
    } else if k == b.inventory {
        (look, Command::OpenInventory)
    } else if k == b.equipment {
        (look, Command::OpenEquipment)
    } else if k == b.ability {
        (look, Command::OpenAbilities)
    } else if k == b.juke {
        (look, Command::Juke)
    } else if k == b.look {
        (look, Command::Look)
    } else if k == b.open_menu {
        (look, Command::OpenMainMenu)
    } else if k == b.freelook {
        if look.freelook {
            (LookState { freelook: false, freelook_pos: look.freelook_pos }, Command::FreelookOff)
        } else {
            let start = match player_center {
                Some(c) => c,
                None => Point { x: 0, y: 0 },
            };
            (LookState { freelook: true, freelook_pos: start }, Command::FreelookOn)
        }
    } else if k == Key::Key1 {
        (look, Command::LevelUp)
    } else if k == Key::F10 {
        (look, Command::ToggleParallelAi)
    } else if k == Key::F12 {
        (look, Command::ToggleDebug)
    } else {
        (look, Command::Idle)
    }
}

/// Where an action's item comes from.
#[derive(Clone, Copy, PartialEq, Eq, Structural, Debug)]
pub enum ActionSource {
    InventoryItem(usize),
    EquippedSlot(SlotType),
}

/// An action waiting for its target: whether it targets a tile (else a body
/// part of whoever stands there), how far it reaches, where its item comes
/// from, and which action it is.
#[derive(Clone, Copy, PartialEq, Eq, Structural, Debug)]
pub struct PendingAction {
    pub positional: bool,
    pub max_range: Option<u32>,
    pub source: Option<ActionSource>,
    pub action_id: usize,
}

/// The target part of the player's intent.
#[derive(Clone, Copy, PartialEq, Eq, Structural, Debug)]
pub enum TargetData {
    TargetWithInventory { item: usize, target: Point },
    TargetWithEquipment { slot: SlotType, target: Point },
    Target(Point),
}

/// What a key press while picking a target tile leads to.
#[derive(Clone, Copy, PartialEq, Eq, Structural, Debug)]
pub enum TargetingOutcome {
    /// Keep picking, with this cursor and this pending action.
    Continue { cursor: Point, pending: Option<PendingAction> },
    /// Back to the main screen; the pending action is left as it was.
    Cancel { pending: Option<PendingAction> },
    /// Nothing was pending: back to the main screen.
    NoPending,
    /// The target is taken: the player's intent is the action on it, resolved
    /// at once.
    Confirm { action_id: usize, data: TargetData },
    /// A body part is to be chosen at the cursor; the action stays pending.
    PickBodypart { cursor: Point, pending: PendingAction },
}

/// The cursor moved by key `k`, kept on a `w` by `h` map.
pub open spec fn cursor_after(c: Point, k: Key, w: int, h: int) -> Point {
    let left = if c.x - 1 < 0 { 0 } else { c.x - 1 };
    let right = if c.x + 1 > w - 1 { w - 1 } else { c.x + 1 };
    let up = if c.y - 1 < 0 { 0 } else { c.y - 1 };
    let down = if c.y + 1 > h - 1 { h - 1 } else { c.y + 1 };
    if k == Key::Left || k == Key::Numpad4 {
        Point { x: left as i32, y: c.y }
    } else if k == Key::Right || k == Key::Numpad6 {
        Point { x: right as i32, y: c.y }
    } else if k == Key::Up || k == Key::Numpad8 {
        Point { x: c.x, y: up as i32 }
    } else if k == Key::Down || k == Key::Numpad2 {
        Point { x: c.x, y: down as i32 }
    } else if k == Key::Numpad9 {
        Point { x: right as i32, y: up as i32 }
    } else if k == Key::Numpad7 {
        Point { x: left as i32, y: up as i32 }
    } else if k == Key::Numpad3 {
        Point { x: right as i32, y: down as i32 }
    } else if k == Key::Numpad1 {
        Point { x: left as i32, y: down as i32 }
    } else {
        c
    }
}

/// The intent data of a confirmed target.
pub open spec fn target_data(source: Option<ActionSource>, target: Point) -> TargetData {
    match source {
        Some(ActionSource::InventoryItem(item)) => TargetData::TargetWithInventory { item, target },
        Some(ActionSource::EquippedSlot(slot)) => TargetData::TargetWithEquipment { slot, target },
        None => TargetData::Target(target),
    }
}

/// The cursor is out of the pending action's reach from the player.
pub open spec fn out_of_reach(cursor: Point, player: Option<Point>, max_range: Option<u32>) -> bool {
    match (max_range, player) {
        (Some(r), Some(p)) => (cursor.x - p.x) * (cursor.x - p.x) + (cursor.y - p.y) * (cursor.y - p.y) > r * r,
        _ => false,
    }
}

/// What a key press while picking a target tile leads to (see
/// [`targeting_step`]).
pub open spec fn spec_targeting(
    cursor: Point,
    key: Option<Key>,
    w: int,
    h: int,
    cursor_visible: bool,
    player: Option<Point>,
    pending: Option<PendingAction>,
) -> TargetingOutcome {
    match key {
        None => TargetingOutcome::Continue { cursor, pending },
        Some(k) => if k == Key::Escape {
            TargetingOutcome::Cancel { pending }
        } else if k == Key::Return {
            match pending {
                None => TargetingOutcome::NoPending,
                Some(p) => if !p.positional {
                    TargetingOutcome::PickBodypart { cursor, pending: p }
                } else if !cursor_visible || out_of_reach(cursor, player, p.max_range) {
                    TargetingOutcome::Continue { cursor, pending }
                } else {
                    TargetingOutcome::Confirm { action_id: p.action_id, data: target_data(p.source, cursor) }
                },
            }
        } else {
            TargetingOutcome::Continue { cursor: cursor_after(cursor, k, w, h), pending }
        },
    }
}

/// One key press while picking a target tile for a pending action. Arrow
/// and numpad keys move the cursor, never off the `map_w` by `map_h` map;
/// Escape goes back to the main screen. Return confirms the cursor: with
/// nothing pending, back to the main screen; for an action aimed at a body
/// part, the body part is to be picked next; for an action aimed at a tile,
/// a tile out of sight (`cursor_visible` false) or farther from the player
/// than the action reaches is refused and the action stays pending, and
/// otherwise the player's intent becomes the action on the cursor tile.
pub fn targeting_step(
    cursor: Point,
    key: Option<Key>,
    map_w: usize,
    map_h: usize,
    cursor_visible: bool,
    player: Option<Point>,
    pending: Option<PendingAction>,
) -> (r: TargetingOutcome)
    requires
        1 <= map_w <= i32::MAX,
        1 <= map_h <= i32::MAX,
        0 <= cursor.x < map_w,
        0 <= cursor.y < map_h,
        (key == Some(Key::Return) && pending is Some && pending->0.positional && pending->0.max_range is Some
            && player is Some) ==> spec_sq_dist(cursor, player->0) <= i32::MAX && pending->0.max_range->0
            * pending->0.max_range->0 <= i32::MAX,
    ensures
        r == spec_targeting(cursor, key, map_w as int, map_h as int, cursor_visible, player, pending),
        r matches TargetingOutcome::Continue { cursor: c, .. } ==> 0 <= c.x < map_w && 0 <= c.y < map_h,
{
    let k = match key {
        None => {
            return TargetingOutcome::Continue { cursor, pending };
        },
        Some(k) => k,
    };
    if k == Key::Escape {
        return TargetingOutcome::Cancel { pending };
    }
    if k == Key::Return {
        let p = match pending {
            None => {
                return TargetingOutcome::NoPending;
            },
            Some(p) => p,
        };
        if !p.positional {
            return TargetingOutcome::PickBodypart { cursor, pending: p };
        }
        if !cursor_visible {
            return TargetingOutcome::Continue { cursor, pending };
        }
        match (p.max_range, player) {
            (Some(range), Some(pp)) => {
                let dx = cursor.x as i64 - pp.x as i64;
                let dy = cursor.y as i64 - pp.y as i64;
                proof {
                    assert(dx * dx >= 0 && dy * dy >= 0) by (nonlinear_arith);
                    assert(dx * dx <= i32::MAX && dy * dy <= i32::MAX);
                }
                let d2 = dx * dx + dy * dy;
                let r2 = range as i64 * range as i64;
                if d2 > r2 {
                    return TargetingOutcome::Continue { cursor, pending };
                }
            },
            _ => {},
        }
        let data = match p.source {
            Some(ActionSource::InventoryItem(item)) => TargetData::TargetWithInventory { item, target: cursor },
            Some(ActionSource::EquippedSlot(slot)) => TargetData::TargetWithEquipment { slot, target: cursor },
            None => TargetData::Target(cursor),
        };
        return TargetingOutcome::Confirm { action_id: p.action_id, data };
    }
    let w = map_w as i32;
    let h = map_h as i32;
    let left = if cursor.x - 1 < 0 { 0 } else { cursor.x - 1 };
    let right = if cursor.x + 1 > w - 1 { w - 1 } else { cursor.x + 1 };
    let up = if cursor.y - 1 < 0 { 0 } else { cursor.y - 1 };
    let down = if cursor.y + 1 > h - 1 { h - 1 } else { cursor.y + 1 };
    let c = if k == Key::Left || k == Key::Numpad4 {
        Point { x: left, y: cursor.y }
    } else if k == Key::Right || k == Key::Numpad6 {
        Point { x: right, y: cursor.y }
    } else if k == Key::Up || k == Key::Numpad8 {
        Point { x: cursor.x, y: up }
    } else if k == Key::Down || k == Key::Numpad2 {
        Point { x: cursor.x, y: down }
    } else if k == Key::Numpad9 {
        Point { x: right, y: up }
    } else if k == Key::Numpad7 {
        Point { x: left, y: up }
    } else if k == Key::Numpad3 {
        Point { x: right, y: down }
    } else if k == Key::Numpad1 {
        Point { x: left, y: down }
    } else {
        cursor
    };
    TargetingOutcome::Continue { cursor: c, pending }
}

} // verus!
