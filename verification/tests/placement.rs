use dieselrogue::geom::{Direction, Point};
use dieselrogue::guards::{
    choose_patrollers, choose_sentinels, guard_posts, order_guard_posts, patrol_junctions, shuffled_indices,
    GuardPost, PatrolPick,
};
use dieselrogue::keys::{place_zone_keys, KeyPlacement, KEY_COPIES_PER_COLOR};
use dieselrogue::map::{Pawn, TileMap};
use dieselrogue::population::{
    assign_door_colors, build_weighted_pool, color_doors, loot_from_draws, loot_aim, nearest_open_depth, plan_loot, INNER_WALL_COLOR, OUTER_WALL_COLOR,
};
use dieselrogue::spawn::{analyze, find_zones, zone_depths, SpawnCategory, SpawnMap, SpawnPoint, ZoneBoundary, ZoneMap};
use dieselrogue::tile::TileType;

fn map_of(rows: &[&str]) -> TileMap {
    let h = rows.len();
    let w = rows[0].len();
    let mut m = TileMap::new_empty_map(w, h);
    for (y, row) in rows.iter().enumerate() {
        for (x, c) in row.chars().enumerate() {
            m.tiles[y * w + x] = match c {
                '.' => TileType::Ground,
                '-' => TileType::Floor,
                '_' => TileType::Road,
                'W' => TileType::Wall,
                'D' => TileType::Doorway,
                _ => TileType::Fence,
            };
        }
    }
    m
}

fn three_rooms() -> TileMap {
    map_of(&["WWWWWWWWWWWWW", "W---W---W---W", "W---D---D---W", "W---W---W---W", "WWWWWWWWWWWWW"])
}

#[test]
fn weighted_pool_repeats_common_items() {
    let pool = build_weighted_pool(&vec![0, 3, 4, 2]);
    assert_eq!(pool, vec![(0, 0), (0, 0), (0, 0), (0, 0), (1, 3), (3, 2), (3, 2)]);
    assert!(build_weighted_pool(&vec![4, 9]).is_empty());
}

#[test]
fn loot_goes_one_item_per_reached_zone() {
    let m = three_rooms();
    let zm = find_zones(&m);
    let sm = analyze(&m);
    let depths = zone_depths(&zm, 0);
    let mut rng = rltk::RandomNumberGenerator::seeded(11);
    let loot = plan_loot(&m, &zm, &sm, &depths, &vec![0, 4, 1], &mut rng);
    assert_eq!(loot.len(), 3);
    let mut zones = Vec::new();
    for item in &loot {
        assert!(item.pool_index == 0 || item.pool_index == 2);
        let idx = m.xy_idx(item.pos.x, item.pos.y);
        assert_eq!(m.tiles[idx], TileType::Floor);
        let z = zm.tile_zone[idx].unwrap();
        // an item of rarity 1 never lies in the start zone
        if item.pool_index == 2 {
            assert!(depths[z] >= 1);
        }
        assert!(!zones.contains(&z));
        zones.push(z);
    }
    // nothing can be drawn from an empty pool
    assert!(plan_loot(&m, &zm, &sm, &depths, &vec![4], &mut rng).is_empty());
}

#[test]
fn loot_skips_zones_not_reached() {
    let m = three_rooms();
    let zm = find_zones(&m);
    let sm = analyze(&m);
    let depths = vec![0, usize::MAX, usize::MAX];
    let mut rng = rltk::RandomNumberGenerator::seeded(3);
    let loot = plan_loot(&m, &zm, &sm, &depths, &vec![0], &mut rng);
    assert_eq!(loot.len(), 1);
    let idx = m.xy_idx(loot[0].pos.x, loot[0].pos.y);
    assert_eq!(zm.tile_zone[idx], Some(0));
}

#[test]
fn door_colors_by_wall_and_interest() {
    let m = TileMap::new_game_map(8);
    let zm = ZoneMap {
        tile_zone: vec![None; 256 * 256],
        zones: vec![vec![], vec![], vec![], vec![]],
        boundaries: vec![
            ZoneBoundary { zone_a: 0, zone_b: 1, door_tiles: vec![110 * 256 + 110] },
            ZoneBoundary { zone_a: 1, zone_b: 2, door_tiles: vec![5] },
            ZoneBoundary { zone_a: 0, zone_b: 3, door_tiles: vec![110 * 256 + 111] },
            ZoneBoundary { zone_a: 2, zone_b: 3, door_tiles: vec![120 * 256 + 120] },
            ZoneBoundary { zone_a: 3, zone_b: 2, door_tiles: vec![70 * 256 + 70] },
        ],
    };
    let depths = vec![0, 1, 2, 1];
    let interesting = vec![false, true, false, true];
    let colors = assign_door_colors(&m, &zm, &depths, &interesting, 16);
    assert_eq!(colors, vec![Some(0), Some(OUTER_WALL_COLOR), Some(1), None, Some(INNER_WALL_COLOR)]);
    assert_eq!(OUTER_WALL_COLOR, 15);
    assert_eq!(INNER_WALL_COLOR, 13);
}

#[test]
fn regular_colors_skip_the_wall_colors_and_wrap() {
    let m = TileMap::new_game_map(8);
    let mut boundaries = Vec::new();
    for i in 0..16 {
        boundaries.push(ZoneBoundary { zone_a: 0, zone_b: 1, door_tiles: vec![110 * 256 + 100 + i] });
    }
    let zm = ZoneMap { tile_zone: vec![None; 256 * 256], zones: vec![vec![], vec![]], boundaries };
    let colors = assign_door_colors(&m, &zm, &vec![0, 1], &vec![false, true], 16);
    let expected: Vec<Option<usize>> =
        vec![0, 1, 2, 3, 4, 5, 6, 7, 8, 9, 10, 11, 12, 14, 0, 1].into_iter().map(Some).collect();
    assert_eq!(colors, expected);
}

#[test]
fn keys_lie_before_their_doors() {
    let m = three_rooms();
    let zm = find_zones(&m);
    let sm = analyze(&m);
    let depths = zone_depths(&zm, 0);
    let mut rng = rltk::RandomNumberGenerator::seeded(5);
    let keys = place_zone_keys(&m, &zm, &sm, &depths, &vec![Some(2), Some(4)], 0, &mut rng);
    assert_eq!(keys.len(), 2);
    assert_eq!((keys[0].color, keys[0].zone), (2, 0));
    assert_eq!((keys[1].color, keys[1].zone), (4, 1));
    for k in &keys {
        let idx = m.xy_idx(k.pos.x, k.pos.y);
        assert_eq!(zm.tile_zone[idx], Some(k.zone));
    }
}

#[test]
fn keys_for_an_inner_door_spread_over_open_zones() {
    let m = three_rooms();
    let zm = find_zones(&m);
    let sm = analyze(&m);
    let depths = zone_depths(&zm, 0);
    let mut rng = rltk::RandomNumberGenerator::seeded(9);
    let keys = place_zone_keys(&m, &zm, &sm, &depths, &vec![None, Some(4)], 0, &mut rng);
    assert_eq!(keys.len(), 2);
    let mut zones: Vec<usize> = keys.iter().map(|k: &KeyPlacement| k.zone).collect();
    zones.sort();
    assert_eq!(zones, vec![0, 1]);
    assert!(keys.iter().all(|k| k.color == 4));
    assert_eq!(KEY_COPIES_PER_COLOR, 3);
    // no locked door, no key
    assert!(place_zone_keys(&m, &zm, &sm, &depths, &vec![None, None], 0, &mut rng).is_empty());
}

#[test]
fn keys_prefer_dead_ends() {
    let m = three_rooms();
    let zm = find_zones(&m);
    let sm = SpawnMap {
        spawn_points: vec![SpawnPoint { idx: 13 + 2, pos: Point { x: 2, y: 1 }, category: SpawnCategory::DeadEnd }],
        regions: vec![],
    };
    let depths = zone_depths(&zm, 0);
    let mut rng = rltk::RandomNumberGenerator::seeded(1);
    let keys = place_zone_keys(&m, &zm, &sm, &depths, &vec![Some(7), None], 0, &mut rng);
    assert_eq!(keys, vec![KeyPlacement { color: 7, zone: 0, pos: Point { x: 2, y: 1 } }]);
}

fn two_rooms() -> TileMap {
    map_of(&["WWWWWWWWW", "W---W---W", "W---D---W", "W---W---W", "WWWWWWWWW"])
}

#[test]
fn sentinel_posts_and_facing() {
    let m = two_rooms();
    let zm = find_zones(&m);
    let posts = guard_posts(&m, &zm, &vec![false, true]);
    assert_eq!(
        posts,
        vec![GuardPost { pos: Point { x: 7, y: 2 }, door: Point { x: 4, y: 2 }, guards_interesting: true }]
    );
    let dull = guard_posts(&m, &zm, &vec![false, false]);
    assert!(!dull[0].guards_interesting);

    let mut placed = Vec::new();
    let picks = choose_sentinels(&m, &posts, 1, &mut placed);
    assert_eq!(picks, vec![(Point { x: 7, y: 2 }, Direction::Left)]);
    assert_eq!(placed, vec![Point { x: 7, y: 2 }]);

    let mut crowded = vec![Point { x: 6, y: 2 }];
    assert!(choose_sentinels(&m, &posts, 1, &mut crowded).is_empty());
    let mut none = Vec::new();
    assert!(choose_sentinels(&m, &posts, 0, &mut none).is_empty());
}

#[test]
fn sentinel_off_floor_faces_away() {
    let m = map_of(&["WWWWWWWWW", "W...W...W", "W...D...W", "W...W...W", "WWWWWWWWW"]);
    let posts =
        vec![GuardPost { pos: Point { x: 7, y: 2 }, door: Point { x: 4, y: 2 }, guards_interesting: false }];
    let mut placed = Vec::new();
    let picks = choose_sentinels(&m, &posts, 3, &mut placed);
    assert_eq!(picks, vec![(Point { x: 7, y: 2 }, Direction::Right)]);
}

#[test]
fn interesting_posts_come_first() {
    let p = |x: i32, gi: bool| GuardPost { pos: Point { x, y: 0 }, door: Point { x, y: 1 }, guards_interesting: gi };
    let mut posts = vec![p(1, false), p(2, true), p(3, false), p(4, true)];
    let mut rng = rltk::RandomNumberGenerator::seeded(2);
    order_guard_posts(&mut posts, &mut rng);
    assert_eq!(posts.len(), 4);
    assert!(posts[0].guards_interesting && posts[1].guards_interesting);
    assert!(!posts[2].guards_interesting && !posts[3].guards_interesting);
    let mut xs: Vec<i32> = posts.iter().map(|g| g.pos.x).collect();
    xs.sort();
    assert_eq!(xs, vec![1, 2, 3, 4]);
}

#[test]
fn patrols_pair_distant_junctions() {
    let sp = |x: i32| SpawnPoint { idx: x as usize, pos: Point { x, y: 0 }, category: SpawnCategory::Junction };
    let sm = SpawnMap { spawn_points: vec![sp(0), sp(25), sp(100)], regions: vec![] };
    let mut placed = Vec::new();
    let picks = choose_patrollers(&sm, &vec![0, 1, 2], &vec![0, 1, 2], 5, &mut placed);
    assert_eq!(picks, vec![PatrolPick { pos: Point { x: 0, y: 0 }, facing: Direction::Right, from: 0, to: 1 }]);
    assert_eq!(placed, vec![Point { x: 0, y: 0 }]);

    let mut near = vec![Point { x: 3, y: 3 }];
    let picks = choose_patrollers(&sm, &vec![0, 1, 2], &vec![0, 1, 2], 5, &mut near);
    assert_eq!(picks, vec![PatrolPick { pos: Point { x: 25, y: 0 }, facing: Direction::Left, from: 1, to: 0 }]);
}

#[test]
fn junctions_on_roads_only() {
    let m = map_of(&["_____", "-----"]);
    let sm = SpawnMap {
        spawn_points: vec![
            SpawnPoint { idx: 1, pos: Point { x: 1, y: 0 }, category: SpawnCategory::Junction },
            SpawnPoint { idx: 6, pos: Point { x: 1, y: 1 }, category: SpawnCategory::Junction },
            SpawnPoint { idx: 2, pos: Point { x: 2, y: 0 }, category: SpawnCategory::DeadEnd },
            SpawnPoint { idx: 3, pos: Point { x: 3, y: 0 }, category: SpawnCategory::Junction },
        ],
        regions: vec![],
    };
    assert_eq!(patrol_junctions(&m, &sm), vec![0, 3]);
    let mut rng = rltk::RandomNumberGenerator::seeded(4);
    let mut order = shuffled_indices(6, &mut rng);
    order.sort();
    assert_eq!(order, vec![0, 1, 2, 3, 4, 5]);
}

#[test]
fn loot_aims_by_rarity() {
    assert_eq!(loot_aim(2, 9, -1), 5);
    assert_eq!(loot_aim(0, 9, -1), 0);
    assert_eq!(loot_aim(3, 9, 3), 9);
    assert_eq!(loot_aim(1, 10, 0), 3);
}

#[test]
fn nearest_open_depth_prefers_the_shallower_on_ties() {
    let by_depth = vec![vec![0], vec![1, 2], vec![3]];
    assert_eq!(nearest_open_depth(&by_depth, &vec![true, false, true, false], 2, 0), Some(2));
    assert_eq!(nearest_open_depth(&by_depth, &vec![true, false, true, false], 0, 0), Some(1));
    assert_eq!(nearest_open_depth(&by_depth, &vec![false, true, true, false], 1, 0), Some(0));
    assert_eq!(nearest_open_depth(&by_depth, &vec![true, true, true, true], 1, 0), None);
}

#[test]
fn nearest_open_depth_keeps_to_the_minimum_depth() {
    let by_depth = vec![vec![0], vec![1, 2], vec![3]];
    assert_eq!(nearest_open_depth(&by_depth, &vec![false, true, true, false], 0, 1), Some(2));
    assert_eq!(nearest_open_depth(&by_depth, &vec![false, false, true, true], 0, 2), None);
    assert_eq!(nearest_open_depth(&by_depth, &vec![false, false, true, true], 2, 3), None);
}

#[test]
fn rare_loot_stays_out_of_shallow_zones() {
    let m = three_rooms();
    let zm = find_zones(&m);
    let sm = analyze(&m);
    let depths = zone_depths(&zm, 0);
    let mut rng = rltk::RandomNumberGenerator::seeded(5);
    // one item kind, rarity 2: only the zone two boundaries deep may take it
    let loot = plan_loot(&m, &zm, &sm, &depths, &vec![2], &mut rng);
    assert_eq!(loot.len(), 1);
    let z = zm.tile_zone[m.xy_idx(loot[0].pos.x, loot[0].pos.y)].unwrap();
    assert_eq!(depths[z], 2);
}

#[test]
fn doors_take_their_boundary_colour() {
    let mut m = three_rooms();
    let zm = find_zones(&m);
    assert_eq!(zm.boundaries.len(), 2);
    for (b, boundary) in zm.boundaries.iter().enumerate() {
        for &t in &boundary.door_tiles {
            m.pawns[t] = Some(Pawn { entity_id: b, is_door: true });
        }
    }
    let mut entity_colors: Vec<Option<usize>> = vec![None, Some(9), Some(1)];
    color_doors(&m, &zm, &vec![Some(2), None], &mut entity_colors);
    assert_eq!(entity_colors, vec![Some(2), Some(9), Some(1)]);
    color_doors(&m, &zm, &vec![None, Some(6)], &mut entity_colors);
    assert_eq!(entity_colors, vec![Some(2), Some(6), Some(1)]);
}

#[test]
fn given_draws_fix_the_loot() {
    let m = three_rooms();
    let zm = find_zones(&m);
    let sm = analyze(&m);
    let depths = zone_depths(&zm, 0);
    assert_eq!(depths, vec![0, 1, 2]);
    let mut draws = vec![0usize; 2400];
    // first round: jitter offset 4 (jitter 3) aims past the deepest depth
    draws[1] = 4;
    let loot = loot_from_draws(&m, &zm, &sm, &depths, &vec![0], &draws);
    let zones: Vec<usize> = loot.iter().map(|l| zm.tile_zone[m.xy_idx(l.pos.x, l.pos.y)].unwrap()).collect();
    // deepest zone first, then the start zone, then the one left open
    assert_eq!(zones, vec![2, 0, 1]);
    assert!(loot.iter().all(|l| l.pool_index == 0));
    // the same draws always give the same loot
    assert_eq!(loot_from_draws(&m, &zm, &sm, &depths, &vec![0], &draws), loot);
}

#[test]
fn empty_maps_have_no_zones() {
    let m = TileMap::new_empty_map(0, 5);
    let zm = find_zones(&m);
    assert!(zm.zones.is_empty() && zm.boundaries.is_empty() && zm.tile_zone.is_empty());
}
