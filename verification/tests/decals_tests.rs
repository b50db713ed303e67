use hakai_core::decals::{
    is_blank, wrap, BULLET_HOLE_VARIANTS, CRACK_VARIANTS, PAINT_COLOR_NAMES, STAMP_TEXTS,
};

#[test]
fn ten_stamp_texts() {
    assert_eq!(STAMP_TEXTS.len(), 10);
}

#[test]
fn eight_paint_colors_in_original_order() {
    assert_eq!(PAINT_COLOR_NAMES, ["red", "green", "blue", "yellow", "purple", "cyan", "orange", "pink"]);
}

#[test]
fn negative_index_wraps() {
    assert_eq!(wrap(-1, CRACK_VARIANTS), wrap(CRACK_VARIANTS - 1, CRACK_VARIANTS));
    assert_eq!(wrap(-1, CRACK_VARIANTS), CRACK_VARIANTS - 1);
    assert_eq!(wrap(-9, 8), 7);
}

#[test]
fn oversized_index_wraps() {
    assert_eq!(wrap(99, BULLET_HOLE_VARIANTS), wrap(99 % BULLET_HOLE_VARIANTS, BULLET_HOLE_VARIANTS));
    assert_eq!(wrap(99, BULLET_HOLE_VARIANTS), 3);
    assert_eq!(wrap(8, 8), 0);
}

#[test]
fn a_count_below_one_wraps_everything_to_zero() {
    assert_eq!(wrap(5, 0), 0);
    assert_eq!(wrap(-5, -3), 0);
    assert_eq!(wrap(i64::MIN, 1), 0);
}

#[test]
fn a_fresh_pixmap_is_blank() {
    let p = tiny_skia::Pixmap::new(16, 16).unwrap();
    assert!(is_blank(&p));
}

#[test]
fn a_filled_pixmap_is_not_blank() {
    let mut p = tiny_skia::Pixmap::new(16, 16).unwrap();
    p.fill(tiny_skia::Color::from_rgba8(0, 0, 0, 255));
    assert!(!is_blank(&p));
}

#[test]
fn faint_or_odd_pixels_do_not_count() {
    let mut p = tiny_skia::Pixmap::new(4, 4).unwrap();
    // pixel (1, 1): odd coordinates are skipped by the stride-2 check
    p.data_mut()[(1 * 4 + 1) * 4 + 3] = 255;
    // pixel (2, 2): alpha 8 is still "transparent enough"
    p.data_mut()[(2 * 4 + 2) * 4 + 3] = 8;
    assert!(is_blank(&p));
    p.data_mut()[(2 * 4 + 2) * 4 + 3] = 9;
    assert!(!is_blank(&p));
}

#[test]
fn bytes_that_are_not_a_font_do_not_make_a_stamp_font() {
    assert!(hakai_core::fonts::StampFont::new(b"definitely not a font").is_none());
    assert!(hakai_core::fonts::StampFont::new(&[]).is_none());
}
