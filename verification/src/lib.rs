//! The logic of a minimal always-on-top desktop clock: its settings file,
//! the colour arithmetic, the ink measurement that sizes the window, the
//! per-pixel compositing, and the decisions the window procedure makes.

pub mod color;
pub mod config;
pub mod layout;
pub mod number;
pub mod render;
pub mod screen;
pub mod text;
pub mod window;
