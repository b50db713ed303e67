use hakai_core::damage::{DamageLayer, PointBounds, TILE_SIDE};
use std::collections::HashSet;

const SIDE: f32 = 256.0;

/// A rectangle in points, as the renderer hands it in: its first and last covered point
/// column and row (the far edge pulled in by a hair so an exact tile edge doesn't spill).
fn bounds(x: f32, y: f32, w: f32, h: f32) -> PointBounds {
    PointBounds {
        left: x.floor() as i64,
        top: y.floor() as i64,
        right: (x + w - 0.0001).floor() as i64,
        bottom: (y + h - 0.0001).floor() as i64,
    }
}

fn layer(width: f32, height: f32, scale: f32) -> DamageLayer {
    DamageLayer::new(width.ceil() as u32, height.ceil() as u32, (SIDE * scale).round() as u32)
}

#[test]
fn grid_5x3() {
    let layer = layer(SIDE * 5.0, SIDE * 3.0, 1.0);
    assert_eq!(layer.grid_size(), (5, 3));
    assert_eq!(layer.tile_count(), 15);
}

#[test]
fn partial_tile_is_still_allocated() {
    let layer = layer(300.0, 300.0, 1.0);
    assert_eq!(layer.grid_size(), (2, 2));
}

#[test]
fn rectangle_inside_one_tile() {
    let grid = layer(SIDE * 4.0, SIDE * 4.0, 1.0);
    let idx = grid.tile_indices_intersecting(bounds(20.0, 20.0, 40.0, 40.0));
    assert_eq!(idx, vec![0]);
}

#[test]
fn vertical_edge_gives_two_tiles() {
    let grid = layer(SIDE * 4.0, SIDE * 4.0, 1.0);
    let idx: HashSet<usize> = grid.tile_indices_intersecting(bounds(SIDE - 10.0, 30.0, 20.0, 20.0)).into_iter().collect();
    assert_eq!(idx, HashSet::from([0, 1]));
}

#[test]
fn corner_gives_four_tiles() {
    let grid = layer(SIDE * 4.0, SIDE * 4.0, 1.0);
    let idx: HashSet<usize> = grid.tile_indices_intersecting(bounds(SIDE - 10.0, SIDE - 10.0, 20.0, 20.0)).into_iter().collect();
    assert_eq!(idx, HashSet::from([0, 1, 4, 5]));
}

#[test]
fn edge_does_not_spill_into_next_tile() {
    let grid = layer(SIDE * 4.0, SIDE * 4.0, 1.0);
    let idx = grid.tile_indices_intersecting(bounds(0.0, 0.0, SIDE, SIDE));
    assert_eq!(idx, vec![0]);
}

#[test]
fn partly_off_screen_is_clamped() {
    let small = layer(SIDE * 2.0, SIDE * 2.0, 1.0);
    let idx = small.tile_indices_intersecting(bounds(-100.0, -100.0, 150.0, 150.0));
    assert_eq!(idx, vec![0]);
}

#[test]
fn entirely_off_screen_returns_nothing() {
    let small = layer(SIDE * 2.0, SIDE * 2.0, 1.0);
    let idx = small.tile_indices_intersecting(bounds(5_000.0, 5_000.0, 10.0, 10.0));
    assert!(idx.is_empty());
}

#[test]
fn off_the_negative_side_returns_nothing() {
    let small = layer(SIDE * 2.0, SIDE * 2.0, 1.0);
    assert!(small.tile_indices_intersecting(bounds(-300.0, 10.0, 100.0, 10.0)).is_empty());
}

#[test]
fn a_wide_rectangle_lists_tiles_row_by_row() {
    let grid = layer(SIDE * 3.0, SIDE * 3.0, 1.0);
    let idx = grid.tile_indices_intersecting(bounds(10.0, 300.0, 700.0, 300.0));
    assert_eq!(idx, vec![3, 4, 5, 6, 7, 8]);
}

#[test]
fn tile_pixels_matches_the_tile_grid() {
    let layer = layer(SIDE * 2.0, SIDE * 2.0, 2.0);
    let (pixels, w, h) = layer.tile_pixels(0).expect("tile 0 should exist");
    assert_eq!((w, h), (512, 512), "256pt tile at 2x scale should be 512px");
    assert_eq!(pixels.len(), 512 * 512 * 4, "RGBA8 — 4 bytes per pixel");
    assert!(layer.tile_pixels(4).is_none(), "only 4 tiles (0..=3) exist in a 2×2 grid");
}

fn tile_origin(layer: &DamageLayer, index: usize) -> (f32, f32) {
    let (col, row) = layer.tile_cell(index);
    (col as f32 * TILE_SIDE as f32, row as f32 * TILE_SIDE as f32)
}

#[test]
fn tile_origin_matches_the_grid_geometry() {
    let layer = layer(SIDE * 3.0, SIDE * 2.0, 1.0);
    assert_eq!(tile_origin(&layer, 0), (0.0, 0.0));
    assert_eq!(tile_origin(&layer, 1), (SIDE, 0.0));
    assert_eq!(tile_origin(&layer, 3), (0.0, SIDE));
}

#[test]
fn dirty_indices_matches_dirty_count_and_clears_on_commit() {
    let mut layer = layer(SIDE * 3.0, SIDE * 3.0, 1.0);
    assert_eq!(layer.dirty_indices().len(), 0);
    for i in layer.tile_indices_intersecting(bounds(SIDE - 50.0, SIDE - 50.0, 100.0, 100.0)) {
        layer.draw_target(i).fill(tiny_skia::Color::from_rgba8(0, 0, 255, 255));
    }
    assert_eq!(layer.dirty_indices().len(), layer.dirty_count());
    assert!(layer.dirty_indices().len() > 0);

    layer.commit();
    assert_eq!(layer.dirty_indices().len(), 0);
}

#[test]
fn mark_all_dirty_covers_every_tile_without_changing_pixels() {
    let mut layer = layer(SIDE * 3.0, SIDE * 2.0, 1.0);
    assert_eq!(layer.dirty_count(), 0);
    let before: Vec<Vec<u8>> = (0..layer.tile_count()).map(|i| layer.tile_pixels(i).unwrap().0.to_vec()).collect();

    layer.mark_all_dirty();
    assert_eq!(layer.dirty_count(), layer.tile_count());
    let after: Vec<Vec<u8>> = (0..layer.tile_count()).map(|i| layer.tile_pixels(i).unwrap().0.to_vec()).collect();
    assert_eq!(before, after);

    layer.commit();
    assert_eq!(layer.dirty_count(), 0);
}

#[test]
fn dirty_tracking_and_commit() {
    let mut layer = layer(SIDE * 3.0, SIDE * 2.0, 1.0);
    assert_eq!(layer.dirty_count(), 0);
    for i in layer.tile_indices_intersecting(bounds(220.0, 120.0, 160.0, 160.0)) {
        layer.draw_target(i).fill(tiny_skia::Color::from_rgba8(255, 0, 0, 255));
    }
    assert!(layer.dirty_count() > 0);
    assert_eq!(layer.dirty_indices(), vec![0, 1, 3, 4]);
    assert_eq!(layer.commit(), 4);
    assert_eq!(layer.dirty_count(), 0);
    assert!(layer.dirty_indices().is_empty());
}

#[test]
fn erase_all_clears_everything() {
    let mut layer = layer(SIDE * 2.0, SIDE * 2.0, 1.0);
    layer.draw_target(3).fill(tiny_skia::Color::from_rgba8(10, 20, 30, 255));
    layer.commit();
    layer.erase_all();
    for i in 0..layer.tile_count() {
        assert!(layer.tile_pixels(i).unwrap().0.iter().all(|b| *b == 0));
    }
    assert_eq!(layer.dirty_count(), 4);
}

#[test]
fn scale_changes_pixel_size_not_tile_count() {
    let one = layer(512.0, 512.0, 1.0);
    let two = layer(512.0, 512.0, 2.0);
    assert_eq!(one.tile_count(), two.tile_count());
    assert_eq!(one.tile_pixels(0).unwrap().1, 256);
    assert_eq!(two.tile_pixels(0).unwrap().1, 512);
}

#[test]
fn marking_one_tile_dirty_marks_only_it() {
    let mut layer = layer(SIDE * 2.0, SIDE * 2.0, 1.0);
    layer.mark_dirty(2);
    assert!(layer.is_dirty(2));
    assert!(!layer.is_dirty(1));
    assert_eq!(layer.dirty_indices(), vec![2]);
}

#[test]
fn an_empty_screen_still_gets_one_tile() {
    let layer = DamageLayer::new(0, 0, 4);
    assert_eq!(layer.grid_size(), (1, 1));
}
