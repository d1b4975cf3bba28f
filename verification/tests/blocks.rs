use dieselrogue::wfc::{wfc_propagate, wfc_solve};
use dieselrogue::block::{
    block_tile_count, block_variants, block_xy_idx, is_block_valid, mirror_both, mirror_horizontal,
    mirror_vertical, parse_block, rotate_block_90cw, valid_tile_neighbors, Block, BLOCK_SIZE,
};
use dieselrogue::gen_blocks::{
    catalogue, mega_straight_v1, road_cross_v1, road_straight_v1, to_txt, Grid, T,
};
use dieselrogue::geom::Direction;
use dieselrogue::tile::TileType;

fn tile_of(t: T) -> TileType {
    match t {
        T::Ground => TileType::Ground,
        T::Road => TileType::Road,
        T::Floor => TileType::Floor,
        T::Wall => TileType::Wall,
        T::Doorway => TileType::Doorway,
        T::Window => TileType::Window,
        T::Fence => TileType::Fence,
    }
}

fn grid_tile(g: &Grid, x: usize, y: usize) -> T {
    g.cells[y * 32 + x]
}

#[test]
fn generated_block_files_are_valid() {
    let blocks = catalogue();
    assert_eq!(blocks.len(), 41);
    for (name, txt) in blocks.iter() {
        let text = String::from_utf8(txt.clone()).expect("block text is ASCII");
        let lines: Vec<&str> = text.lines().collect();
        assert_eq!(lines.len(), 32, "{} line count", name);
        for line in &lines {
            assert_eq!(line.chars().count(), 32, "{} line length", name);
            for c in line.chars() {
                assert!(".-_Wx D#".contains(c), "{} has unknown char {:?}", name, c);
            }
        }
        assert_eq!(block_tile_count(txt), 1024, "{} tile count", name);
    }
}

#[test]
fn catalogue_names_are_distinct_and_generated() {
    let blocks = catalogue();
    let mut names: Vec<&str> = blocks.iter().map(|(n, _)| *n).collect();
    assert!(names.iter().all(|n| n.contains("_gen_")));
    assert_eq!(names[0], "roadblock_gen_straight_v1");
    assert_eq!(names[40], "buildingblock_gen_v8");
    names.sort();
    names.dedup();
    assert_eq!(names.len(), 41);
}

#[test]
fn written_block_loads_back_identically() {
    for (_, txt) in catalogue().iter() {
        let block = parse_block(txt);
        assert_eq!(block.tiles.len(), 1024);
    }
    let g = mega_straight_v1();
    let block = parse_block(&to_txt(&g));
    for i in 0..1024 {
        assert_eq!(block.tiles[i], tile_of(g.cells[i]));
    }
}

#[test]
fn straight_road_covers_columns_13_to_18() {
    let g = road_straight_v1();
    for y in 0..32 {
        for x in 0..32 {
            let expected = if (13..19).contains(&x) { T::Road } else { T::Ground };
            assert_eq!(grid_tile(&g, x, y), expected);
        }
    }
}

#[test]
fn cross_road_text_first_row() {
    let g = road_cross_v1();
    let txt = to_txt(&g);
    assert_eq!(txt.len(), 33 * 32);
    let first: String = String::from_utf8(txt[0..33].to_vec()).unwrap();
    let expected = format!("{}{}{}\n", ".".repeat(13), "_".repeat(6), ".".repeat(13));
    assert_eq!(first, expected);
    let row16: String = String::from_utf8(txt[33 * 16..33 * 17].to_vec()).unwrap();
    assert_eq!(row16, "________________________________\n");
}

#[test]
fn mega_strip_edges_are_walls_with_windows() {
    let g = mega_straight_v1();
    // columns 8 and 23 are walls except windows every third row from row 1
    assert_eq!(grid_tile(&g, 8, 0), T::Wall);
    assert_eq!(grid_tile(&g, 8, 1), T::Window);
    assert_eq!(grid_tile(&g, 8, 2), T::Wall);
    assert_eq!(grid_tile(&g, 8, 4), T::Window);
    assert_eq!(grid_tile(&g, 23, 4), T::Window);
    assert_eq!(grid_tile(&g, 12, 10), T::Floor);
    assert_eq!(grid_tile(&g, 7, 10), T::Ground);
    assert_eq!(grid_tile(&g, 8, 31), T::Wall);
}

#[test]
fn tile_chars() {
    assert_eq!(T::Ground.ch(), '.');
    assert_eq!(T::Road.ch(), '_');
    assert_eq!(T::Floor.ch(), '-');
    assert_eq!(T::Wall.ch(), 'W');
    assert_eq!(T::Doorway.ch(), 'D');
    assert_eq!(T::Window.ch(), 'x');
    assert_eq!(T::Fence.ch(), '#');
}

fn numbered_block() -> Block {
    let kinds = [
        TileType::Ground,
        TileType::Road,
        TileType::Floor,
        TileType::Wall,
        TileType::Window,
        TileType::Doorway,
        TileType::Fence,
    ];
    let mut tiles = Vec::new();
    for i in 0..1024usize {
        tiles.push(kinds[(i * 7 + i / 32) % 7]);
    }
    Block { tiles }
}

#[test]
fn four_quarter_turns_give_back_the_block() {
    let b = numbered_block();
    let r = rotate_block_90cw(&rotate_block_90cw(&rotate_block_90cw(&rotate_block_90cw(&b))));
    assert_eq!(r.tiles, b.tiles);
    let half = rotate_block_90cw(&rotate_block_90cw(&b));
    assert_eq!(half.tiles, mirror_both(&b).tiles);
    assert_eq!(mirror_horizontal(&mirror_horizontal(&b)).tiles, b.tiles);
    assert_eq!(mirror_vertical(&mirror_horizontal(&b)).tiles, mirror_both(&b).tiles);
}

#[test]
fn rotation_moves_top_left_to_top_right() {
    let b = numbered_block();
    let r = rotate_block_90cw(&b);
    // the tile at (0, 0) ends at (31, 0) after a clockwise quarter turn
    assert_eq!(r.tiles[block_xy_idx(31, 0)], b.tiles[block_xy_idx(0, 0)]);
    assert_eq!(r.tiles[block_xy_idx(31, 5)], b.tiles[block_xy_idx(5, 0)]);
}

#[test]
fn block_variants_are_sixteen() {
    let b = numbered_block();
    let v = block_variants(&b);
    assert_eq!(v.len(), 16);
    assert_eq!(v[0].tiles, b.tiles);
}

#[test]
fn xy_index() {
    assert_eq!(block_xy_idx(0, 0), 0);
    assert_eq!(block_xy_idx(3, 2), 67);
    assert_eq!(BLOCK_SIZE, 32);
}

#[test]
fn tile_neighbour_rules() {
    assert!(valid_tile_neighbors(Some(TileType::Road), Some(TileType::Road)));
    assert!(valid_tile_neighbors(Some(TileType::Ground), Some(TileType::Ground)));
    assert_eq!(
        valid_tile_neighbors(Some(TileType::Road), Some(TileType::Wall)),
        valid_tile_neighbors(Some(TileType::Wall), Some(TileType::Road))
    );
}

#[test]
fn road_blocks_fit_along_the_road() {
    let a = parse_block(&to_txt(&road_straight_v1()));
    let b = parse_block(&to_txt(&road_straight_v1()));
    assert!(is_block_valid(Some(&a), Direction::Down, Some(&b)));
    assert!(is_block_valid(Some(&a), Direction::Up, Some(&b)));
    assert_eq!(
        is_block_valid(Some(&a), Direction::Right, Some(&b)),
        is_block_valid(Some(&b), Direction::Left, Some(&a))
    );
}

#[test]
fn parse_skips_unknown_and_pads_with_ground() {
    let data = b"_W?\nx".to_vec();
    assert_eq!(block_tile_count(&data), 3);
    let b = parse_block(&data);
    assert_eq!(b.tiles[0], TileType::Road);
    assert_eq!(b.tiles[1], TileType::Wall);
    assert_eq!(b.tiles[2], TileType::Window);
    assert_eq!(b.tiles[3], TileType::Ground);
    assert_eq!(b.tiles[1023], TileType::Ground);
}

#[test]
fn solvable_grid_is_always_solved() {
    // two blocks; 0 may only sit beside 0 and 1 only beside 1, in every direction
    let same = vec![true, false, false, true];
    let compat = vec![same.clone(), same.clone(), same.clone(), same];
    for seed in 0..20 {
        let mut rng = rltk::RandomNumberGenerator::seeded(seed);
        let cands = vec![vec![0, 1], vec![0, 1], vec![0, 1], vec![1, 0]];
        let v = wfc_solve(2, 2, &compat, cands, &mut rng).unwrap();
        assert_eq!(v.len(), 4);
        // neighbours fit: with this table every cell takes the same block
        assert!(v.iter().all(|&b| b == v[0]));
    }
    // single candidates that clash are no solution, even unpropagated
    let mut rng = rltk::RandomNumberGenerator::seeded(1);
    assert_eq!(wfc_solve(2, 2, &compat, vec![vec![0], vec![1], vec![0], vec![0]], &mut rng), None);
    // one cell pinned to 1 propagates to all
    let mut cands = vec![vec![1], vec![0, 1], vec![0, 1], vec![0, 1]];
    assert!(wfc_propagate(&vec![0], &mut cands, 2, 2, &compat).is_ok());
    assert_eq!(cands, vec![vec![1], vec![1], vec![1], vec![1]]);
    // two pinned cells that disagree leave no solution
    let mut bad = vec![vec![1], vec![0], vec![0, 1], vec![0, 1]];
    assert!(wfc_propagate(&vec![0, 1], &mut bad, 2, 2, &compat).is_err());
}
