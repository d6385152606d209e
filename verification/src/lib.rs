//! A pixel surface and a glyph-drawing text console on top of it.

pub mod color;
pub mod console;
pub mod framebuffer;
pub mod laws;
pub mod psf;
pub mod surface;
pub mod terminal;
