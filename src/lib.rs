//! Converts raster images into grids of Unicode Braille-pattern glyphs.
//!
//! `gray` reduces a pixel to an intensity, `braille` encodes 2 by 4 pixel tiles
//! as glyphs, and `raster` checks and normalizes rasters before they are encoded.

pub mod braille;
pub mod gray;
pub mod raster;

pub use braille::apply;
pub use gray::{gray_method_from_index, to_gray, GrayMethod};
pub use raster::{
    check_dimensions, composite_over_white, edge_input, from_bytes, from_edges, luma_plane,
    resize_target, ConversionError,
};
