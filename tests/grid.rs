use image_slicer::grid::{compute_tile_size, enumerate_tiles, plan_tiles, tile_at, SliceError, Tile, TileSize};

#[test]
fn tile_size_truncates_remainder() {
    assert_eq!(compute_tile_size(10, 10, 3, 3), Ok(TileSize { width: 3, height: 3 }));
}

#[test]
fn tile_size_exact_division() {
    assert_eq!(compute_tile_size(1920, 1080, 2, 2), Ok(TileSize { width: 960, height: 540 }));
}

#[test]
fn tile_size_uses_columns_for_width_and_rows_for_height() {
    assert_eq!(compute_tile_size(100, 60, 3, 4), Ok(TileSize { width: 25, height: 20 }));
}

#[test]
fn tile_size_larger_grid_than_image() {
    assert_eq!(compute_tile_size(2, 2, 5, 5), Ok(TileSize { width: 0, height: 0 }));
}

#[test]
fn tile_size_zero_rows_rejected() {
    assert_eq!(compute_tile_size(10, 10, 0, 3), Err(SliceError::EmptyGrid));
}

#[test]
fn tile_size_zero_columns_rejected() {
    assert_eq!(compute_tile_size(10, 10, 3, 0), Err(SliceError::EmptyGrid));
}

#[test]
fn enumerate_columns_outer_rows_inner() {
    let cells = enumerate_tiles(2, 3);
    assert_eq!(cells, vec![(0, 0), (0, 1), (1, 0), (1, 1), (2, 0), (2, 1)]);
}

#[test]
fn enumerate_empty_grid() {
    assert!(enumerate_tiles(0, 4).is_empty());
    assert!(enumerate_tiles(4, 0).is_empty());
}

#[test]
fn tile_at_origin_from_indices() {
    let t = tile_at(10, 10, 3, 3, 2, 1);
    assert_eq!(t, Tile { col_index: 2, row_index: 1, x: 6, y: 3, width: 3, height: 3 });
}

#[test]
fn plan_drops_remainder_pixels() {
    let tiles = plan_tiles(10, 10, 3, 3).unwrap();
    assert_eq!(tiles.len(), 9);
    for t in &tiles {
        assert_eq!((t.width, t.height), (3, 3));
        assert!(t.x + t.width <= 9);
        assert!(t.y + t.height <= 9);
    }
    assert_eq!(tiles[8], Tile { col_index: 2, row_index: 2, x: 6, y: 6, width: 3, height: 3 });
}

#[test]
fn plan_count_and_size() {
    let tiles = plan_tiles(103, 57, 4, 5).unwrap();
    assert_eq!(tiles.len(), 20);
    for (k, t) in tiles.iter().enumerate() {
        assert_eq!(t.col_index as usize, k / 4);
        assert_eq!(t.row_index as usize, k % 4);
        assert_eq!((t.width, t.height), (20, 14));
        assert_eq!(t.x, t.col_index * 20);
        assert_eq!(t.y, t.row_index * 14);
    }
}

#[test]
fn plan_zero_grid_rejected() {
    assert_eq!(plan_tiles(10, 10, 0, 2), Err(SliceError::EmptyGrid));
    assert_eq!(plan_tiles(10, 10, 2, 0), Err(SliceError::EmptyGrid));
}

#[test]
fn plan_largest_dimensions_fit() {
    let tiles = plan_tiles(u32::MAX, u32::MAX, 2, 2).unwrap();
    let last = tiles[3];
    assert_eq!(last.x, u32::MAX / 2);
    assert!(last.x as u64 + last.width as u64 <= u32::MAX as u64);
}
