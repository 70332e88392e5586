//! Keyboard input: actions, keybindings and the keymap between them.
pub mod action;
pub mod keybinding;
pub mod keymap;
