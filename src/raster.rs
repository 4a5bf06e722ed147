use crate::grid::{is_tile_plan, lemma_tiles_inside_image, Tile};
use vstd::prelude::*;

verus! {

/// A decoded image of the `image` crate, carried through opaquely.
#[verifier::external_type_specification]
#[verifier::external_body]
pub struct ExDynamicImage(image::DynamicImage);

/// The width in pixels of a decoded image.
pub uninterp spec fn image_width(img: image::DynamicImage) -> nat;

/// The height in pixels of a decoded image.
pub uninterp spec fn image_height(img: image::DynamicImage) -> nat;

/// Relies on `image::DynamicImage::width`: the width of the pixel buffer.
pub assume_specification[ image::DynamicImage::width ](img: &image::DynamicImage) -> (r: u32)
    ensures
        r == image_width(*img),
;

/// Relies on `image::DynamicImage::height`: the height of the pixel buffer.
pub assume_specification[ image::DynamicImage::height ](img: &image::DynamicImage) -> (r: u32)
    ensures
        r == image_height(*img),
;

/// Relies on `image::DynamicImage::crop_imm`: a new buffer holding the
/// rectangle at (`x`, `y`) of `width × height`, clamped to the source image.
pub assume_specification[ image::DynamicImage::crop_imm ](
    img: &image::DynamicImage,
    x: u32,
    y: u32,
    width: u32,
    height: u32,
) -> (r: image::DynamicImage)
    ensures
        image_width(r) == crop_extent(image_width(*img), x as nat, width as nat),
        image_height(r) == crop_extent(image_height(*img), y as nat, height as nat),
;

/// How much of a span `len` long, starting at `start`, lies inside `[0, size)`.
pub open spec fn crop_extent(size: nat, start: nat, len: nat) -> nat {
    let s = if start <= size { start } else { size };
    if len <= size - s { len } else { (size - s) as nat }
}

/// The pixels of `img` under `tile`, as a new image of their own; the region
/// is clamped to the image.
pub fn crop_tile(img: &image::DynamicImage, tile: &Tile) -> (sub: image::DynamicImage)
    ensures
        image_width(sub) == crop_extent(image_width(*img), tile.x as nat, tile.width as nat),
        image_height(sub) == crop_extent(image_height(*img), tile.y as nat, tile.height as nat),
{
    img.crop_imm(tile.x, tile.y, tile.width, tile.height)
}

/// Every tile of a plan made for an image's own size is cut out at exactly
/// its planned size: no tile is clamped.
pub proof fn lemma_planned_tiles_crop_exactly(
    img: image::DynamicImage,
    tiles: Seq<Tile>,
    rows: int,
    columns: int,
    k: int,
)
    requires
        is_tile_plan(tiles, image_width(img) as int, image_height(img) as int, rows, columns),
        0 <= k < tiles.len(),
    ensures
        crop_extent(image_width(img), tiles[k].x as nat, tiles[k].width as nat) == tiles[k].width,
        crop_extent(image_height(img), tiles[k].y as nat, tiles[k].height as nat) == tiles[k].height,
{
    lemma_tiles_inside_image(tiles, image_width(img) as int, image_height(img) as int, rows, columns);
    assert(tiles[k].x + tiles[k].width <= image_width(img));
    assert(tiles[k].y + tiles[k].height <= image_height(img));
}

} // verus!
