//! The logic of a canvas window manager: keybinding parsing and keymaps,
//! configuration checks, window focus bookkeeping, implicit clusters and
//! decoration hit priority. Geometry in floating point stays with the
//! program that embeds this library.
pub mod app;
pub mod backend;
pub mod canvas;
pub mod config;
pub mod input;
pub mod render;
pub mod text;
pub mod window;
