use image::DynamicImage;
use image_slicer::grid::{SliceError, Tile, TileSize};
use image_slicer::raster::crop_tile;
use image_slicer::slicing::{plan_image_slicing, plan_slicing};

#[test]
fn photo_scenario() {
    let p = plan_slicing("photo.png", 1920, 1080, 2, 2).ok().unwrap();
    assert_eq!(p.output_dir, "sub_images/photo");
    assert_eq!(p.tile_size, TileSize { width: 960, height: 540 });
    assert_eq!(p.tiles.len(), 4);
    assert_eq!(
        p.file_names,
        vec!["subimage_1_1.jpg", "subimage_1_2.jpg", "subimage_2_1.jpg", "subimage_2_2.jpg"]
    );
    assert_eq!(p.summary, "Sliced photo.png into 4 sub-images of size 960x540");
    assert_eq!(p.tiles[2], Tile { col_index: 1, row_index: 0, x: 960, y: 0, width: 960, height: 540 });
}

#[test]
fn one_distinct_file_per_tile() {
    let p = plan_slicing("big.jpg", 1000, 1000, 12, 11).ok().unwrap();
    assert_eq!(p.file_names.len(), 132);
    let mut names = p.file_names.clone();
    names.sort();
    names.dedup();
    assert_eq!(names.len(), 132);
    for c in 0..11u32 {
        for r in 0..12u32 {
            let name = format!("subimage_{}_{}.jpg", c + 1, r + 1);
            assert!(p.file_names.contains(&name));
        }
    }
}

#[test]
fn rerun_gives_same_plan() {
    let a = plan_slicing("dir/pic.bmp", 640, 480, 3, 5).ok().unwrap();
    let b = plan_slicing("dir/pic.bmp", 640, 480, 3, 5).ok().unwrap();
    assert_eq!(a.output_dir, b.output_dir);
    assert_eq!(a.tiles, b.tiles);
    assert_eq!(a.file_names, b.file_names);
    assert_eq!(a.summary, b.summary);
}

#[test]
fn zero_rows_rejected_before_anything_else() {
    assert_eq!(plan_slicing("photo.png", 10, 10, 0, 2).err(), Some(SliceError::EmptyGrid));
    assert_eq!(plan_slicing("", 10, 10, 2, 0).err(), Some(SliceError::EmptyGrid));
}

#[test]
fn missing_file_stem_rejected() {
    assert_eq!(plan_slicing("", 10, 10, 2, 2).err(), Some(SliceError::NoFileStem));
}

#[test]
fn image_plan_uses_image_size() {
    let img = DynamicImage::new_rgb8(10, 10);
    let p = plan_image_slicing(&img, "ten.png", 3, 3).ok().unwrap();
    assert_eq!(p.tile_size, TileSize { width: 3, height: 3 });
    assert_eq!(p.summary, "Sliced ten.png into 9 sub-images of size 3x3");
}

#[test]
fn crop_tile_has_tile_size() {
    let img = DynamicImage::new_rgb8(10, 10);
    let p = plan_image_slicing(&img, "ten.png", 3, 3).ok().unwrap();
    for t in &p.tiles {
        let sub = crop_tile(&img, t);
        assert_eq!((sub.width(), sub.height()), (3, 3));
    }
}

#[test]
fn crop_tile_clamps_to_image() {
    let img = DynamicImage::new_rgb8(10, 8);
    let t = Tile { col_index: 0, row_index: 0, x: 7, y: 6, width: 5, height: 5 };
    let sub = crop_tile(&img, &t);
    assert_eq!((sub.width(), sub.height()), (3, 2));
}

#[test]
fn crop_tile_keeps_pixels() {
    let mut buf = image::RgbImage::new(4, 4);
    buf.put_pixel(3, 2, image::Rgb([200, 10, 30]));
    let img = DynamicImage::ImageRgb8(buf);
    let t = Tile { col_index: 1, row_index: 1, x: 2, y: 2, width: 2, height: 2 };
    let sub = crop_tile(&img, &t).to_rgb8();
    assert_eq!(sub.get_pixel(1, 0), &image::Rgb([200, 10, 30]));
}
