//! The canvas: the world of windows.
pub mod world;
