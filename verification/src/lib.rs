//! Pixel-art rendering: partition an image into square blocks, average each
//! block's color, snap the average to the nearest entry of a fixed palette,
//! and emit either a full-resolution blocky image or one pixel per block.

pub mod blocks;
pub mod color;
pub mod palette;
pub mod pixelate;
pub mod quant;
pub mod raster;

pub use color::Rgb;
pub use color::Rgba;
pub use pixelate::Config;
pub use pixelate::PixError;
pub use pixelate::pixelate;
pub use raster::Image;
