//! Decoding and encoding of 32-bit bitfield BMP images.
pub mod image;
pub mod bmp;
pub mod display;
pub mod sample;
