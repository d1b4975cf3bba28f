use dieselrogue::ability::Ability;
use dieselrogue::error::{Error, GameError};
use dieselrogue::geom::{
    adjacent, chebyshev, dir_toward, direction_to, direction_toward, forward_tile, guard_too_close, halfway,
    sq_dist, Direction, Point,
};
use dieselrogue::intent::{ActionId, ExecutionPhase, Targeting};
use dieselrogue::settings::{FontSize, Settings};
use dieselrogue::sprite::Sprite;

#[test]
fn ability_names_and_flags() {
    assert_eq!(Ability::HumanMove.to_string(), "Move");
    assert_eq!(Ability::VehicleMove.to_string(), "Drive");
    assert_eq!(Ability::PickUp.to_string(), "Pick Up");
    assert_eq!(Ability::WideVision.to_string(), "Wide Vision");
    assert_eq!(Ability::Juke.to_string(), "Juke");
    assert!(Ability::Disembark.is_innate());
    assert!(!Ability::Embark.is_innate());
    assert!(Ability::Precognition.is_passive());
    assert!(!Ability::Juke.is_passive());
    assert_eq!(Ability::HumanMove.description(), "Allows movement on foot.");
    assert!(Ability::Juke.description().contains("25 energy"));
    assert_eq!(Ability::WideVision.default_body_part(), 0);
    assert_eq!(Ability::Disembark.default_body_part(), 1);
    assert_eq!(Ability::Embark.default_body_part(), 2);
    assert_eq!(Ability::Juke.default_body_part(), 4);
}

#[test]
fn font_sizes() {
    assert_eq!(FontSize::Small.tile_px(), 8);
    assert_eq!(FontSize::XLarge.tile_px(), 16);
    assert_eq!(FontSize::Medium.label(), "Medium (1600×900)");
    assert_eq!(FontSize::XLarge.font_file(), "CGA8x8thick.png");
    assert_eq!(FontSize::Large.font_file(), "Alloy_curses_12x12.png");
    assert_eq!(FontSize::XLarge.font_native_px(), 8);
    assert!(FontSize::XLarge.next() == FontSize::Small);
    assert!(FontSize::Small.next().next() == FontSize::Large);
    assert!(FontSize::from_px(12) == FontSize::Large);
    assert!(FontSize::from_px(10) == FontSize::Medium);
    assert!(FontSize::from_px(7) == FontSize::Medium);
    for f in [FontSize::Small, FontSize::Medium, FontSize::Large, FontSize::XLarge] {
        assert!(FontSize::from_px(f.tile_px()) == f);
        assert!(f.next().next().next().next() == f);
    }
}

#[test]
fn settings_from_file_text() {
    assert!(Settings::from_file_text(None).font_size == FontSize::Medium);
    assert!(Settings::from_file_text(Some("{\"font_px\": 16}")).font_size == FontSize::XLarge);
    assert!(Settings::from_file_text(Some("{\n  \"font_px\": 8\n}")).font_size == FontSize::Small);
    assert!(Settings::from_file_text(Some("{\"font_px\": 11}")).font_size == FontSize::Medium);
    assert!(Settings::from_file_text(Some("not json")).font_size == FontSize::Medium);
    assert!(Settings::from_file_text(Some("{\"font_px\": -3}")).font_size == FontSize::Medium);
    assert!(Settings::from_file_text(Some("[12]")).font_size == FontSize::Medium);
    assert!(Settings::from_font_px(Some(12)).font_size == FontSize::Large);
    assert!(Settings::from_font_px(Some(4294967296 + 8)).font_size == FontSize::Small);
    assert_eq!(Settings::from_font_px(Some(16)).font_px(), 16);
}

#[test]
fn phases_run_in_order() {
    let mut p = ExecutionPhase::Idle;
    let mut seen = vec![p];
    while let Some(q) = p.next() {
        seen.push(q);
        p = q;
    }
    assert_eq!(
        seen,
        vec![
            ExecutionPhase::Idle,
            ExecutionPhase::Instant,
            ExecutionPhase::Inventory,
            ExecutionPhase::Attack,
            ExecutionPhase::Movement,
            ExecutionPhase::ActiveItems,
            ExecutionPhase::Misc
        ]
    );
    assert_eq!(ExecutionPhase::Misc.next(), None);
    assert_eq!(Targeting::Positional { max_range: Some(5) }, Targeting::Positional { max_range: Some(5) });
    assert_ne!(ActionId::FireShot, ActionId::FireBurst);
}

#[test]
fn unit_error_is_generic() {
    let e: GameError = ().into();
    assert_eq!(e.error, Error::Generic);
    assert_eq!(e.message, "");
    let e2 = GameError::new(Error::MapExit, "edge");
    assert_eq!(e2.error, Error::MapExit);
    assert_eq!(e2.message, "edge");
}

#[test]
fn directions() {
    assert_eq!(Direction::UpRight.delta_pos(), (1, -1));
    assert_eq!(Direction::Left.clockwise(), Direction::UpLeft);
    assert_eq!(Direction::Up.counter_clockwise(), Direction::UpLeft);
    assert_eq!(Direction::DownLeft.clockwise().counter_clockwise(), Direction::DownLeft);
    assert_eq!(Direction::from_index(4), Direction::Down);
    let p = Point::new(3, 4);
    assert_eq!(direction_to(p, Point::new(4, 4)), Some(Direction::Right));
    assert_eq!(direction_to(p, Point::new(5, 4)), None);
    assert_eq!(direction_toward(p, Point::new(10, -3)), Some(Direction::UpRight));
    assert_eq!(direction_toward(p, p), None);
    assert_eq!(dir_toward(p, p), Direction::Up);
    assert_eq!(dir_toward(p, Point::new(-7, 4)), Direction::Left);
    assert_eq!(forward_tile(p, Direction::DownRight), Point::new(4, 5));
    assert_eq!(halfway(Point::new(0, 0), Point::new(-3, 5)), Point::new(-1, 2));
    assert_eq!(sq_dist(Point::new(1, 1), Point::new(4, 5)), 25);
    assert_eq!(chebyshev(Point::new(1, 1), Point::new(4, 9)), 8);
    assert!(adjacent(p, Point::new(4, 5)));
    assert!(!adjacent(p, Point::new(5, 5)));
    assert!(guard_too_close(p, &vec![Point::new(10, 10), Point::new(5, 5)], 3));
    assert!(!guard_too_close(p, &vec![Point::new(10, 10)], 3));
}

#[test]
fn sprite_glyphs() {
    assert_eq!(Sprite::Human.glyph(Direction::Up, 0), 56); // '8'
    assert_eq!(Sprite::Human.glyph(Direction::Left, 7), 52); // '4'
    assert_eq!(Sprite::Tank.glyph(Direction::Up, 9), 63); // '?'
    assert_eq!(Sprite::Tank.glyph(Direction::Up, 4), 219); // full block
    assert_eq!(Sprite::Tank.glyph(Direction::Up, 0), 213);
    let sheet = Sprite::Tank.tank_sprite_sheet(Direction::Right);
    assert_eq!(sheet[4], 219);
    assert_eq!(sheet[0], rltk::to_cp437('╓'));
}

#[test]
fn labels_show_the_window_and_files_the_glyph_size() {
    for f in [FontSize::Small, FontSize::Medium, FontSize::Large, FontSize::XLarge] {
        let px = f.tile_px();
        assert!(f.label().contains(&format!("{}×{}", 160 * px, 90 * px)));
        let n = f.font_native_px();
        assert!(f.font_file().ends_with(".png"));
        assert!(f.font_file().contains(&format!("{}x{}", n, n)));
    }
}

#[test]
fn tank_tiles_past_the_sheet_are_question_marks() {
    for facing in [Direction::Up, Direction::Left, Direction::DownRight] {
        let sheet = Sprite::Tank.tank_sprite_sheet(facing);
        for i in 0..9u32 {
            assert_eq!(Sprite::Tank.tank_sprite(i, facing), sheet[i as usize]);
            assert_eq!(Sprite::Tank.glyph(facing, i), Sprite::Tank.tank_sprite(i, facing));
        }
        assert_eq!(Sprite::Tank.tank_sprite(9, facing), rltk::to_cp437('?'));
        assert_eq!(Sprite::Tank.glyph(facing, 1000), rltk::to_cp437('?'));
    }
}
