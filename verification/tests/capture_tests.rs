use hakai_core::capture::{to_rgba, BrightnessMap, GRID_COLS, GRID_ROWS};

#[test]
fn bgra_becomes_opaque_rgba() {
    let bytes = [10u8, 20, 30, 0, 40, 50, 60, 7];
    assert_eq!(to_rgba(&bytes, 2, 1, 8), vec![30, 20, 10, 255, 60, 50, 40, 255]);
}

#[test]
fn rows_past_a_short_buffer_stay_opaque_black() {
    // two rows of one pixel, stride 8, but only the first row's bytes are there
    let bytes = [1u8, 2, 3, 4, 0, 0, 0, 0];
    assert_eq!(to_rgba(&bytes[..4], 1, 2, 8), vec![3, 2, 1, 255, 0, 0, 0, 255]);
}

#[test]
fn a_fresh_map_has_no_samples() {
    let map = BrightnessMap::new();
    assert_eq!(map.sample_cell(0, 0), None);
}

#[test]
fn a_uniform_frame_gives_a_uniform_grid() {
    let (w, h) = (48u32, 32u32);
    let mut bytes = Vec::new();
    for _ in 0..(w * h) {
        bytes.extend_from_slice(&[100, 100, 100, 255]);
    }
    let mut map = BrightnessMap::new();
    map.update(&bytes, w, h, w * 4);
    for row in 0..GRID_ROWS {
        for col in 0..GRID_COLS {
            assert_eq!(map.sample_cell(col, row), Some(100));
        }
    }
}

#[test]
fn luma_weights_green_most() {
    let (w, h) = (24u32, 16u32);
    let mut bytes = Vec::new();
    for _ in 0..(w * h) {
        // blue 0, green 200, red 0
        bytes.extend_from_slice(&[0, 200, 0, 255]);
    }
    let mut map = BrightnessMap::new();
    map.update(&bytes, w, h, w * 4);
    assert_eq!(map.sample_cell(5, 5), Some((200 * 587 / 1000) as u8));
}

#[test]
fn a_zero_sized_frame_changes_nothing() {
    let mut map = BrightnessMap::new();
    map.update(&[], 0, 10, 0);
    assert_eq!(map.sample_cell(0, 0), None);
}

#[test]
fn an_empty_buffer_gives_an_opaque_black_frame() {
    assert_eq!(to_rgba(&[], 1, 1, 4), vec![0, 0, 0, 255]);
    assert_eq!(to_rgba(&[], 2, 1, 8), vec![0, 0, 0, 255, 0, 0, 0, 255]);
}
