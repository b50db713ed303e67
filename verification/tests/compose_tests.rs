use hakai_core::compose::{blend_over, blit_over};

#[test]
fn an_opaque_source_replaces_the_destination() {
    let dst = [1u8, 2, 3, 4, 5, 6, 7, 8];
    let src = [200u8, 100, 50, 255];
    assert_eq!(blend_over(&dst, 2, 1, &src, 1, 1, 1, 0), vec![1, 2, 3, 4, 200, 100, 50, 255]);
}

#[test]
fn a_translucent_source_keeps_part_of_the_destination() {
    let dst = [10u8, 20, 30, 255, 0, 0, 0, 0];
    let src = [100u8, 50, 0, 128];
    assert_eq!(blend_over(&dst, 2, 1, &src, 1, 1, 0, 0), vec![104, 59, 14, 255, 0, 0, 0, 0]);
    assert_eq!(blend_over(&dst, 2, 1, &src, 1, 1, 1, 0), vec![10, 20, 30, 255, 100, 50, 0, 128]);
}

#[test]
fn what_falls_outside_the_destination_is_dropped() {
    let dst = [0u8; 16];
    let src: Vec<u8> = (1..=16).collect();
    // only the source's bottom-right pixel lands, on the destination's top-left
    let out = blend_over(&dst, 2, 2, &src, 2, 2, -1, -1);
    assert_eq!(out, vec![13, 14, 15, 16, 0, 0, 0, 0, 0, 0, 0, 0, 0, 0, 0, 0]);
    assert_eq!(blend_over(&dst, 2, 2, &src, 2, 2, 5, 0), dst.to_vec());
}

#[test]
fn blitting_pixmaps_draws_into_the_destination() {
    let mut dst = tiny_skia::Pixmap::new(3, 3).unwrap();
    let mut src = tiny_skia::Pixmap::new(1, 1).unwrap();
    src.fill(tiny_skia::Color::from_rgba8(255, 0, 0, 255));
    blit_over(&mut dst, &src, 2, 1);
    let px = ((1 * 3 + 2) * 4) as usize;
    assert_eq!(&dst.data()[px..px + 4], &[255, 0, 0, 255]);
    assert_eq!(dst.data().iter().filter(|b| **b != 0).count(), 2);
}
