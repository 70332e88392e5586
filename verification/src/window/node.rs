//! Managed windows in protocol-neutral terms.
use vstd::prelude::*;

use crate::window::decoration::DecorationMode;

verus! {

/// Identifier of a managed window.
#[derive(Clone, Copy, Debug, PartialEq, Eq, Structural, Hash)]
pub struct WindowId(pub u64);

impl WindowId {
    pub fn new(value: u64) -> (id: Self)
        ensures
            id.0 == value,
    {
        WindowId(value)
    }

    pub fn value(self) -> (v: u64)
        ensures
            v == self.0,
    {
        self.0
    }
}

/// A managed window. `R` is the window's rectangle in world coordinates,
/// whose arithmetic the embedding program owns; nothing here reads it.
#[derive(Clone, Debug, PartialEq)]
pub struct WindowNode<R> {
    pub id: WindowId,
    pub title: String,
    pub app_id: String,
    pub rect: R,
    pub focused: bool,
    /// Whether the window's surface is mapped on screen.
    pub mapped: bool,
    pub decoration_mode: DecorationMode,
}

impl<R> WindowNode<R> {
    /// A new window: not focused, not yet mapped, decorated with a border.
    pub fn new(id: WindowId, title: String, app_id: String, rect: R) -> (w: Self)
        ensures
            w.id == id,
            w.title == title,
            w.app_id == app_id,
            w.rect == rect,
            !w.focused,
            !w.mapped,
            w.decoration_mode == DecorationMode::Border,
    {
        WindowNode {
            id,
            title,
            app_id,
            rect,
            focused: false,
            mapped: false,
            decoration_mode: DecorationMode::Border,
        }
    }

    pub fn rect(&self) -> (r: &R)
        ensures
            *r == self.rect,
    {
        &self.rect
    }

    pub fn set_rect(&mut self, rect: R)
        ensures
            *final(self) == (WindowNode { rect, ..*old(self) }),
    {
        self.rect = rect;
    }
}

} // verus!
