//! Composites raster images from an ordered stack of layers.
//!
//! A [`Canvas`] holds layers (rectangles, bitmaps, rasterized text), each with a
//! chain of [`Filter`]s, over a background pixel; flattening it yields an
//! [`Image`]. Pixels are [`AlphaPixel`]s over an integer channel type, and all
//! colour arithmetic is exact integer arithmetic on the channel values.

pub mod blending;
pub mod canvas;
pub mod filters;
pub mod image;
pub mod layers;
pub mod pixel;
pub mod rect;
pub mod text;

pub use blending::{BlendingMethod, CustomBlend, PixelBlend};
pub use canvas::Canvas;
pub use filters::Filter;
pub use image::{Image, NewImageError};
pub use layers::Layer;
pub use pixel::{AlphaPixel, PixelChannel, PixelChannelBounds};
pub use rect::Rect;
