//! Slicing a raster image into a `rows × columns` grid of tiles.
//!
//! `grid` partitions the pixel extent of an image, `naming` derives the
//! output directory, the tile file names and the summary line, `slicing`
//! gathers all of it into one plan for a run, and `raster` cuts the planned
//! tiles out of a decoded image.

pub mod grid;
pub mod naming;
pub mod raster;
pub mod slicing;
