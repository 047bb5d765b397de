//! Conversion of RGBA images into character art, one glyph per pixel, chosen
//! by a marching-squares classification of each pixel's neighbourhood.

pub mod bitmap;
pub mod pattern;
pub mod text;
pub mod render;
pub mod resize;
pub mod frames;
