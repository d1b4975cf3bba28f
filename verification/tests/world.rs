use dieselrogue::ai::{
    flee_pos, has_los, most_urgent, nearest_grenade, patrol_search_target, process_sounds, scramble, ActorAI,
    ActorView, AlertLevel, CombatTactic, Decision, FieldPref, Perception, Profile, SoundEvent, SoundKind,
};
use dieselrogue::enemy_ai_system::enemy_ai_step;
use dieselrogue::geom::{Direction, Point};
use dieselrogue::map::{Pawn, TileMap, TileQuery};
use dieselrogue::spawn::{
    analyze, cardinal_passable_count, classify_boundary, doorway_run, find_regions, find_tank_spawns, find_zones,
    fy_shuffle, interesting_from_draws, reachable_zones, region_has_wide_door, zone_depths, BoundaryKind,
    SpawnCategory, ZoneBoundary, ZoneMap,
};
use dieselrogue::tank_ai_system::tank_ai_step;
use dieselrogue::tile::TileType;
use std::collections::HashSet;

fn map_of(rows: &[&str]) -> TileMap {
    let h = rows.len();
    let w = rows[0].len();
    let mut m = TileMap::new_empty_map(w, h);
    for (y, row) in rows.iter().enumerate() {
        for (x, c) in row.chars().enumerate() {
            m.tiles[y * w + x] = match c {
                '.' => TileType::Ground,
                '-' => TileType::Floor,
                '_' => TileType::Road,
                'W' => TileType::Wall,
                'D' => TileType::Doorway,
                'x' => TileType::Window,
                _ => TileType::Fence,
            };
        }
    }
    m
}

fn two_rooms() -> TileMap {
    map_of(&[
        "WWWWWWWWW",
        "W---W---W",
        "W---D---W",
        "W---W---W",
        "WWWWWWWWW",
    ])
}

#[test]
fn map_indexing_round_trips() {
    let m = TileMap::new_empty_map(7, 5);
    assert_eq!(m.xy_idx(3, 2), 17);
    assert_eq!(m.idx_pos(17), Point::new(3, 2));
    assert_eq!(m.pos_idx(Point::new(6, 4)), 34);
    assert_eq!(m.tiles.len(), 35);
    assert!(m.revealed_tiles.iter().all(|r| *r));
    assert!(m.visible_tiles.iter().all(|v| !*v));
    let g = TileMap::new_game_map(2);
    assert_eq!(g.width, 64);
    assert_eq!(g.tiles.len(), 64 * 64);
}

#[test]
fn blocking_and_opacity() {
    let mut m = two_rooms();
    assert!(m.blocked(0, 0));
    assert!(!m.blocked(1, 1));
    assert!(!m.blocked(4, 2));
    m.pawns[2 * 9 + 4] = Some(Pawn { entity_id: 7, is_door: true });
    assert!(m.blocked(4, 2));
    assert!(m.is_opaque(2 * 9 + 4));
    assert!(m.is_opaque(0));
    assert!(!m.is_opaque(10));
    assert_eq!(m.get_tile(4, 2), TileType::Doorway);
    assert!(m.is_exit_valid(1, 1));
    assert!(!m.is_exit_valid(0, 1));
    assert!(!m.is_exit_valid(4, 2));
}

#[test]
fn vicinity_lists_pawns_column_by_column() {
    let mut m = TileMap::new_empty_map(10, 10);
    m.pawns[5 * 10 + 4] = Some(Pawn { entity_id: 1, is_door: false });
    m.pawns[3 * 10 + 5] = Some(Pawn { entity_id: 2, is_door: false });
    m.pawns[4 * 10 + 4] = Some(Pawn { entity_id: 3, is_door: false });
    m.pawns[9 * 10 + 9] = Some(Pawn { entity_id: 4, is_door: false });
    let ids = m.get_entities_in_vicinity(Point::new(5, 5), 2);
    assert_eq!(ids, vec![3, 1, 2]);
}

#[test]
fn nearest_free_positions() {
    let mut m = TileMap::new_empty_map(12, 12);
    assert_eq!(m.nearest_free_pawn_position(Point::new(6, 6)).unwrap(), Point::new(6, 6));
    m.pawns[6 * 12 + 6] = Some(Pawn { entity_id: 1, is_door: false });
    // the square search visits columns left to right, each top to bottom
    assert_eq!(m.find_nearest_tile(Point::new(6, 6), 1, TileQuery::FreeForPawn).unwrap(), Point::new(5, 5));
    m.items[5 * 12 + 5] = Some(3);
    assert_eq!(m.find_nearest_tile(Point::new(6, 6), 1, TileQuery::FreeForItem).unwrap(), Point::new(6, 6));
    m.items[6 * 12 + 6] = Some(4);
    assert_eq!(m.nearest_free_item_position(Point::new(6, 6)).unwrap(), Point::new(5, 6));
    let mut solid = map_of(&["WWWWWWW", "WWWWWWW", "WWWWWWW", "WWW-WWW", "WWWWWWW", "WWWWWWW", "WWWWWWW"]);
    solid.pawns[3 * 7 + 3] = Some(Pawn { entity_id: 1, is_door: false });
    let err = solid.find_nearest_tile(Point::new(3, 3), 2, TileQuery::FreeForPawn).unwrap_err();
    assert_eq!(err.error, dieselrogue::error::Error::UnsolvableSituation);
    assert_eq!(err.message, "Could not find open spot");
}

#[test]
fn exits_of_a_tile() {
    let m = TileMap::new_empty_map(4, 4);
    let exits = m.available_exits(5);
    assert_eq!(exits, vec![(6, false), (9, false), (10, true)]);
    let corner = m.available_exits(15);
    // row and column 3 are inside the map, row and column 0 are not steppable
    assert_eq!(corner, vec![(14, false), (11, false), (10, true)]);
}

#[test]
fn regions_and_spawn_points() {
    let m = two_rooms();
    let regions = find_regions(&m);
    assert_eq!(regions.len(), 2);
    assert_eq!(regions[0].tiles.len(), 9);
    assert_eq!(regions[0].tiles[0], 10);
    assert_eq!(regions[1].tiles[0], 14);
    assert_eq!(regions[0].center_idx, 2 * 9 + 2);
    assert!(!regions[0].is_room);
    let sm = analyze(&m);
    // each 3x3 room: the centre has four open neighbours but the room is small,
    // so it is a junction; the edge middles have three.
    let junctions: Vec<usize> =
        sm.spawn_points.iter().filter(|s| s.category == SpawnCategory::Junction).map(|s| s.idx).collect();
    assert_eq!(junctions, vec![11, 15, 19, 20, 21, 23, 24, 25, 29, 33]);
    assert!(sm.spawn_points.iter().all(|s| s.category != SpawnCategory::DeadEnd));
    assert_eq!(sm.spawn_points[0].pos, Point::new(2, 1));
    assert_eq!(cardinal_passable_count(&m, 20), 4);
    assert_eq!(cardinal_passable_count(&m, 22), 2);
}

#[test]
fn big_room_is_a_room() {
    let m = map_of(&["WWWWWW", "W----W", "W----W", "W----W", "W----W", "WWWWWW"]);
    let regions = find_regions(&m);
    assert_eq!(regions.len(), 1);
    assert!(regions[0].is_room);
    let sm = analyze(&m);
    let interior: Vec<usize> =
        sm.spawn_points.iter().filter(|s| s.category == SpawnCategory::RoomInterior).map(|s| s.idx).collect();
    assert_eq!(interior, vec![14, 15, 20, 21]);
}

#[test]
fn zones_boundaries_and_depths() {
    let m = map_of(&["WWWWWWWWWWWWW", "W---W---W---W", "W---D---D---W", "W---W---W---W", "WWWWWWWWWWWWW"]);
    let zm = find_zones(&m);
    assert_eq!(zm.zones.len(), 3);
    assert_eq!(zm.boundaries.len(), 2);
    assert_eq!((zm.boundaries[0].zone_a, zm.boundaries[0].zone_b), (0, 1));
    assert_eq!(zm.boundaries[0].door_tiles, vec![2 * 13 + 4]);
    assert_eq!((zm.boundaries[1].zone_a, zm.boundaries[1].zone_b), (1, 2));
    assert_eq!(zm.tile_zone[2 * 13 + 4], None);
    assert_eq!(zm.tile_zone[14], Some(0));
    assert_eq!(zone_depths(&zm, 0), vec![0, 1, 2]);
    assert_eq!(zone_depths(&zm, 1), vec![1, 0, 1]);
    assert_eq!(zone_depths(&zm, 5), vec![usize::MAX; 3]);
}

#[test]
fn unreachable_zone_has_max_depth() {
    let zm = ZoneMap {
        tile_zone: vec![],
        zones: vec![vec![], vec![], vec![]],
        boundaries: vec![ZoneBoundary { zone_a: 0, zone_b: 1, door_tiles: vec![] }],
    };
    assert_eq!(zone_depths(&zm, 0), vec![0, 1, usize::MAX]);
}

#[test]
fn locked_doors_stop_reachability() {
    let adj = vec![vec![(1, None)], vec![(0, None), (2, Some(5))], vec![(1, Some(5))]];
    let mut unlocked = HashSet::new();
    assert_eq!(reachable_zones(&adj, 0, 3, &unlocked), vec![true, true, false]);
    unlocked.insert(5);
    assert_eq!(reachable_zones(&adj, 0, 3, &unlocked), vec![true, true, true]);
    assert_eq!(reachable_zones(&adj, 7, 3, &unlocked), vec![false, false, false]);
}

#[test]
fn hangar_doors_and_tank_spawns() {
    let m = map_of(&[
        "WWWWWWWWW",
        "W-------W",
        "W-------W",
        "W-------W",
        "WWDDDWWWW",
        "_________",
    ]);
    assert_eq!(doorway_run(&m, 3, 4, 1, 0), 3);
    assert_eq!(doorway_run(&m, 3, 4, 0, 1), 1);
    let regions = find_regions(&m);
    assert_eq!(regions.len(), 2);
    assert!(regions[0].is_room);
    assert!(region_has_wide_door(&m, &regions[0]));
    let ts = find_tank_spawns(&m, &regions);
    assert_eq!(ts.hangar_tiles.len(), 21);
    // the road's end tiles have one open neighbour
    assert_eq!(ts.road_tiles, vec![46, 47, 48, 49, 50, 51, 52]);
}

#[test]
fn boundary_kinds() {
    let m = TileMap::new_game_map(4);
    let outer = ZoneBoundary { zone_a: 0, zone_b: 1, door_tiles: vec![5] };
    assert_eq!(classify_boundary(&m, &outer), BoundaryKind::OuterWall);
    let inner = ZoneBoundary { zone_a: 0, zone_b: 1, door_tiles: vec![40 * 128 + 40] };
    assert_eq!(classify_boundary(&m, &inner), BoundaryKind::InnerWall);
    let both = ZoneBoundary { zone_a: 0, zone_b: 1, door_tiles: vec![40 * 128 + 40, 5] };
    assert_eq!(classify_boundary(&m, &both), BoundaryKind::OuterWall);
    // a 3-block map has no inner ring
    let small = TileMap::new_game_map(3);
    let mid = ZoneBoundary { zone_a: 0, zone_b: 1, door_tiles: vec![40 * 96 + 40] };
    assert_eq!(classify_boundary(&small, &mid), BoundaryKind::Regular);
    let big = TileMap::new_game_map(8);
    let ring = ZoneBoundary { zone_a: 0, zone_b: 1, door_tiles: vec![70 * 256 + 70] };
    assert_eq!(classify_boundary(&big, &ring), BoundaryKind::InnerWall);
    let middle = ZoneBoundary { zone_a: 0, zone_b: 1, door_tiles: vec![110 * 256 + 110] };
    assert_eq!(classify_boundary(&big, &middle), BoundaryKind::Regular);
}

#[test]
fn interesting_zones_follow_draws() {
    let m = map_of(&["WWWWWW", "W----W", "W----W", "W----W", "W----W", "WWWWWW"]);
    let zm = find_zones(&m);
    let sm = analyze(&m);
    assert_eq!(interesting_from_draws(&zm, &sm, &vec![0]), vec![true]);
    assert_eq!(interesting_from_draws(&zm, &sm, &vec![1]), vec![false]);
}

#[test]
fn shuffle_keeps_the_elements() {
    let mut rng = rltk::RandomNumberGenerator::seeded(7);
    let mut v: Vec<usize> = (0..20).collect();
    fy_shuffle(&mut v, &mut rng);
    let mut sorted = v.clone();
    sorted.sort();
    assert_eq!(sorted, (0..20).collect::<Vec<usize>>());
}

#[test]
fn scramble_is_splitmix_finalizer() {
    assert_eq!(scramble(0), 0);
    assert_eq!(scramble(1), 6238072747940578789);
    assert_eq!(scramble(12345), 17540659726606785873);
}

#[test]
fn sounds_make_perceptions() {
    let center = Point::new(5, 5);
    let sounds = [
        SoundEvent { pos: Point::new(6, 5), volume: 5, kind: SoundKind::Footstep },
        SoundEvent { pos: Point::new(8, 5), volume: 5, kind: SoundKind::Engine },
        SoundEvent { pos: Point::new(9, 5), volume: 3, kind: SoundKind::Gunshot },
    ];
    let p = process_sounds(center, &sounds).unwrap();
    assert!(!p.confirmed_hostile);
    assert_eq!(p.origin, Point::new(8, 5));
    let loud = [SoundEvent { pos: Point::new(8, 5), volume: 5, kind: SoundKind::Engine },
        SoundEvent { pos: Point::new(8, 9), volume: 5, kind: SoundKind::Shout }];
    let p2 = process_sounds(center, &loud).unwrap();
    assert!(p2.confirmed_hostile);
    assert_eq!(p2.origin, Point::new(8, 9));
    assert_eq!(process_sounds(center, &[]), None);
}

fn perception(h: bool, v: bool, o: bool, x: i32) -> Perception {
    Perception { confirmed_hostile: h, confirmed_visually: v, confirmed_origin: o, origin: Point::new(x, 0), target_id: None }
}

#[test]
fn urgency_order() {
    let a = perception(true, false, false, 1);
    let b = perception(false, true, true, 2);
    assert_eq!(most_urgent(Some(a), Some(b)), Some(a));
    assert_eq!(most_urgent(Some(b), Some(a)), Some(a));
    let c = perception(true, false, false, 3);
    assert_eq!(most_urgent(Some(a), Some(c)), Some(a));
    assert_eq!(most_urgent(None, Some(c)), Some(c));
}

#[test]
fn alert_transitions() {
    let mut ai = ActorAI::new(Profile::Guard { anchor: Point::new(2, 2), combat_tactic: CombatTactic::Hold });
    ai.update_target(perception(false, false, true, 4));
    assert_eq!(ai.alert, AlertLevel::Suspicious { origin: Point::new(4, 0), turns_remaining: 30 });
    ai.update_target(perception(true, false, false, 5));
    assert_eq!(ai.alert, AlertLevel::Alert { last_known: Point::new(5, 0), search_ticks: 0 });
    ai.end_turn();
    ai.update_target(perception(true, false, false, 6));
    assert_eq!(ai.alert, AlertLevel::Alert { last_known: Point::new(5, 0), search_ticks: 1 });
    let mut seen = perception(true, true, true, 7);
    seen.target_id = Some(9);
    ai.update_target(seen);
    assert_eq!(ai.alert, AlertLevel::Combat { target_id: 9, last_seen: Point::new(7, 0) });
    ai.update_target(perception(true, false, false, 1));
    assert_eq!(ai.alert, AlertLevel::Combat { target_id: 9, last_seen: Point::new(7, 0) });
}

fn view(pos: Point) -> ActorView {
    ActorView {
        position: pos,
        center: pos,
        facing: Direction::Up,
        visible_tiles: vec![],
        view_range: 8,
        has_primary_weapon: false,
        combat_ready: true,
        primed_grenade: None,
        carried_grenade: None,
    }
}

#[test]
fn suspicion_runs_down() {
    let m = TileMap::new_empty_map(20, 20);
    let mut ai = ActorAI::new(Profile::Patrol { route_id: 0, waypoint_index: 0, combat_tactic: CombatTactic::Pursue });
    ai.alert = AlertLevel::Suspicious { origin: Point::new(3, 3), turns_remaining: 1 };
    let v = view(Point::new(5, 5));
    ai.decay_alertness(&v, &m, None);
    assert_eq!(ai.alert, AlertLevel::Suspicious { origin: Point::new(3, 3), turns_remaining: 0 });
    ai.decay_alertness(&v, &m, None);
    assert_eq!(ai.alert, AlertLevel::Unaware);
}

#[test]
fn guard_decisions() {
    let m = TileMap::new_empty_map(20, 20);
    let ai = ActorAI::new(Profile::Guard { anchor: Point::new(5, 5), combat_tactic: CombatTactic::Hold });
    let away = view(Point::new(9, 9));
    assert_eq!(
        ai.decide(&away, &m, None, None, &[], 0, Direction::Left),
        Decision::GoTo { dest: Point::new(5, 5), tolerance: 0, field: FieldPref::FullMap }
    );
    let home = view(Point::new(5, 5));
    assert_eq!(ai.decide(&home, &m, None, None, &[], 10, Direction::Left), Decision::Idle);
    assert_eq!(ai.decide(&home, &m, None, None, &[], 97, Direction::Left), Decision::Turn { dir: Direction::Left });
    // a live grenade nearby makes it flee whatever its state
    assert_eq!(
        ai.decide(&home, &m, None, None, &[(Point::new(6, 6), 2)], 10, Direction::Left),
        Decision::Flee { threat: Point::new(6, 6) }
    );
    let mut alarmed = ActorAI::new(Profile::Guard { anchor: Point::new(5, 5), combat_tactic: CombatTactic::Hold });
    alarmed.alert = AlertLevel::Alert { last_known: Point::new(10, 10), search_ticks: 3 };
    assert_eq!(
        alarmed.decide(&home, &m, None, None, &[], 60, Direction::Left),
        Decision::GoTo { dest: Point::new(5, 4), tolerance: 0, field: FieldPref::PerAgent }
    );
}

#[test]
fn patrol_decisions() {
    let m = TileMap::new_empty_map(40, 40);
    let mut ai = ActorAI::new(Profile::Patrol { route_id: 0, waypoint_index: 1, combat_tactic: CombatTactic::Pursue });
    let v = view(Point::new(10, 10));
    assert_eq!(
        ai.decide(&v, &m, None, Some(Point::new(20, 10)), &[], 0, Direction::Up),
        Decision::GoTo { dest: Point::new(20, 10), tolerance: 0, field: FieldPref::FullMap }
    );
    ai.alert = AlertLevel::Alert { last_known: Point::new(10, 10), search_ticks: 8 };
    assert_eq!(ai.decide(&v, &m, None, None, &[], 0, Direction::Up), Decision::Shout);
    ai.alert = AlertLevel::Alert { last_known: Point::new(10, 10), search_ticks: 7 };
    // heading index 7 / 3 = 2 (east), radius 2 + 7 / 6 = 3
    assert_eq!(
        ai.decide(&v, &m, None, None, &[], 0, Direction::Up),
        Decision::GoTo { dest: Point::new(13, 10), tolerance: 0, field: FieldPref::Bounded }
    );
    ai.alert = AlertLevel::Combat { target_id: 1, last_seen: Point::new(14, 10) };
    assert_eq!(
        ai.decide(&v, &m, Some(Point::new(14, 10)), None, &[], 0, Direction::Up),
        Decision::GoTo { dest: Point::new(14, 10), tolerance: 0, field: FieldPref::Bounded }
    );
    let mut sees = view(Point::new(10, 10));
    sees.visible_tiles = vec![Point::new(14, 10)];
    assert_eq!(
        ai.decide(&sees, &m, Some(Point::new(14, 10)), None, &[], 0, Direction::Up),
        Decision::Engage { target_id: 1, last_seen: Point::new(14, 10) }
    );
}

#[test]
fn waypoints_advance() {
    let mut ai = ActorAI::new(Profile::Patrol { route_id: 0, waypoint_index: 1, combat_tactic: CombatTactic::Pursue });
    let route = vec![Point::new(1, 1), Point::new(2, 2)];
    ai.advance_waypoint(Point::new(2, 2), &route);
    assert_eq!(ai.profile, Profile::Patrol { route_id: 0, waypoint_index: 0, combat_tactic: CombatTactic::Pursue });
    ai.advance_waypoint(Point::new(2, 2), &route);
    assert_eq!(ai.profile, Profile::Patrol { route_id: 0, waypoint_index: 0, combat_tactic: CombatTactic::Pursue });
}

#[test]
fn search_target_and_flight() {
    let m = TileMap::new_empty_map(20, 20);
    assert_eq!(patrol_search_target(Point::new(1, 1), 0, &m), Point::new(1, 0));
    assert_eq!(patrol_search_target(Point::new(18, 5), 100, &m), Point::new(19, 0));
    assert_eq!(flee_pos(Point::new(5, 5), Point::new(6, 6), &m), Point::new(4, 4));
    assert_eq!(nearest_grenade(Point::new(5, 5), &[(Point::new(9, 5), 1), (Point::new(6, 5), 0)]), Some(Point::new(6, 5)));
    assert_eq!(nearest_grenade(Point::new(5, 5), &[(Point::new(9, 5), 1)]), None);
}

#[test]
fn line_of_sight() {
    let m = map_of(&[".....", "..W..", ".....", "....."]);
    assert!(!has_los(Point::new(0, 1), Point::new(4, 1), &m));
    assert!(has_los(Point::new(0, 0), Point::new(4, 0), &m));
    assert!(has_los(Point::new(0, 1), Point::new(1, 1), &m));
}

#[test]
fn tank_turns_toward_player() {
    let u = tank_ai_step(Point::new(10, 10), Some(Point::new(3, 3)), Direction::Up, Point::new(20, 11), true);
    assert_eq!(u.facing, Direction::Right);
    assert!(u.dirty);
    assert_eq!(u.glyphs.unwrap()[4], 219);
    let still = tank_ai_step(Point::new(10, 10), None, Direction::Up, Point::new(20, 11), false);
    assert_eq!(still.facing, Direction::Up);
    assert!(!still.dirty && still.glyphs.is_none());
}

#[test]
fn soldier_turns_then_walks() {
    let turn = enemy_ai_step(Point::new(5, 5), Direction::Up, Point::new(9, 5), true, Some(Point::new(6, 5)));
    assert_eq!(turn.facing, Direction::Right);
    assert!(turn.dirty && turn.moved_to.is_none());
    assert_eq!(turn.glyph, Some(54));
    let walk = enemy_ai_step(Point::new(5, 5), Direction::Right, Point::new(9, 5), true, Some(Point::new(6, 5)));
    assert_eq!(walk.moved_to, Some(Point::new(6, 5)));
    let close = enemy_ai_step(Point::new(8, 4), Direction::Right, Point::new(9, 5), true, Some(Point::new(9, 4)));
    assert_eq!(close.moved_to, None);
    assert!(!close.dirty);
}

use dieselrogue::ai::{perceive, process_vision, Sightings};

fn watched_yard() -> (TileMap, Sightings) {
    let mut m = TileMap::new_empty_map(5, 5);
    m.pawns[1 * 5 + 1] = Some(Pawn { entity_id: 0, is_door: false });
    m.pawns[1 * 5 + 2] = Some(Pawn { entity_id: 1, is_door: false });
    m.items[3 * 5 + 3] = Some(3);
    m.items[4 * 5 + 4] = Some(2);
    let s = Sightings {
        is_player: vec![false, true],
        centers: vec![Point::new(1, 1), Point::new(2, 1)],
        is_corpse: vec![false, false, false, true],
    };
    (m, s)
}

#[test]
fn sight_notices_the_player_then_corpses() {
    let (m, s) = watched_yard();
    let corpse = process_vision(&vec![Point::new(1, 1), Point::new(4, 4), Point::new(3, 3), Point::new(2, 1)], &m, &s);
    assert_eq!(
        corpse,
        Some(Perception {
            confirmed_hostile: true,
            confirmed_visually: false,
            confirmed_origin: false,
            origin: Point::new(3, 3),
            target_id: None
        })
    );
    let player = process_vision(&vec![Point::new(2, 1), Point::new(3, 3)], &m, &s).unwrap();
    assert!(player.confirmed_hostile && player.confirmed_visually && player.confirmed_origin);
    assert_eq!((player.origin, player.target_id), (Point::new(2, 1), Some(1)));
    assert_eq!(process_vision(&vec![Point::new(1, 1), Point::new(4, 4)], &m, &s), None);
}

#[test]
fn perception_weighs_sight_against_sound() {
    let (m, s) = watched_yard();
    let shout = [SoundEvent { pos: Point::new(4, 2), volume: 5, kind: SoundKind::Shout }];
    let seen = perceive(Point::new(0, 0), &vec![Point::new(2, 1)], &m, &s, &shout).unwrap();
    assert_eq!(seen.target_id, Some(1));
    let heard = perceive(Point::new(0, 0), &vec![Point::new(1, 1)], &m, &s, &shout).unwrap();
    assert_eq!(heard.origin, Point::new(4, 2));
    assert!(heard.confirmed_hostile && !heard.confirmed_visually);
}
