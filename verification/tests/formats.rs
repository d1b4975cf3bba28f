use dieselrogue::pathfinding::build_path;
use dieselrogue::rex::{encode_xp, sample, xp_bytes, Pixels, UPPER_HALF};
use std::collections::HashMap;
use std::io::Read;

fn picture() -> Pixels {
    // 2 wide, 3 high: the last cell row has only a top pixel
    Pixels {
        width: 2,
        height: 3,
        rgba: vec![
            (10, 20, 30, 255),
            (1, 2, 3, 0),
            (40, 50, 60, 16),
            (7, 8, 9, 15),
            (70, 80, 90, 200),
            (4, 5, 6, 255),
        ],
    }
}

#[test]
fn sampling_hides_transparent_and_missing_pixels() {
    let px = picture();
    assert_eq!(sample(&px, 0, 0, 3), (10, 20, 30));
    assert_eq!(sample(&px, 1, 0, 3), (0, 0, 0));
    assert_eq!(sample(&px, 0, 1, 3), (40, 50, 60));
    assert_eq!(sample(&px, 1, 1, 3), (0, 0, 0));
    assert_eq!(sample(&px, 0, 3, 3), (0, 0, 0));
}

#[test]
fn xp_layout_is_column_major() {
    let px = picture();
    let raw = xp_bytes(&px);
    let mut expected: Vec<u8> = vec![255, 255, 255, 255, 1, 0, 0, 0, 2, 0, 0, 0, 2, 0, 0, 0];
    let cells: [[u8; 6]; 4] = [
        [10, 20, 30, 40, 50, 60],
        [70, 80, 90, 0, 0, 0],
        [0, 0, 0, 0, 0, 0],
        [4, 5, 6, 0, 0, 0],
    ];
    for c in cells.iter() {
        expected.extend_from_slice(&UPPER_HALF.to_le_bytes());
        expected.extend_from_slice(c);
    }
    assert_eq!(raw, expected);
}

#[test]
fn xp_file_is_gzip_of_the_layout() {
    let px = picture();
    let file = encode_xp(&px).unwrap();
    assert_eq!(&file[..10], &[0x1f, 0x8b, 8, 0, 0, 0, 0, 0, 0, 255]);
    let raw = xp_bytes(&px);
    let n = file.len();
    assert_eq!(&file[n - 4..], &(raw.len() as u32).to_le_bytes());
    let mut back = Vec::new();
    flate2::read::GzDecoder::new(&file[..]).read_to_end(&mut back).unwrap();
    assert_eq!(back, raw);
}

#[test]
fn empty_picture_has_only_a_header() {
    let px = Pixels { width: 0, height: 0, rgba: vec![] };
    assert_eq!(xp_bytes(&px), vec![255, 255, 255, 255, 1, 0, 0, 0, 0, 0, 0, 0, 0, 0, 0, 0]);
}

#[test]
fn path_is_read_back_from_parents() {
    let mut parents = HashMap::new();
    parents.insert(5, 5);
    parents.insert(6, 5);
    parents.insert(7, 6);
    parents.insert(9, 7);
    let p = build_path(&parents, 5, 9, true);
    assert_eq!(p.steps, vec![6, 7, 9]);
    assert!(p.success);
    let q = build_path(&parents, 5, 6, false);
    assert_eq!(q.steps, vec![6]);
    assert!(!q.success);
    // a tile never reached gives no route
    assert!(build_path(&parents, 5, 42, false).steps.is_empty());
}
