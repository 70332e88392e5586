//! The window bookkeeping behind xdg-shell toplevels: identifiers handed out
//! in order, fallback titles, focus kept when a window goes away, and what a
//! surface commit means for its logical window.
use vstd::prelude::*;

use crate::canvas::world::{
    distinct_ids, first_focused, has_focused, has_id, refocused, World,
};
use crate::text::{is_blank, trim};
use crate::window::decoration::DecorationMode;
use crate::window::node::{WindowId, WindowNode};

verus! {

/// The value when it holds something besides white space, else the fallback.
pub open spec fn spec_non_empty_or_default(value: Option<Seq<char>>, fallback: Seq<char>) -> Seq<char> {
    match value {
        Some(v) => if trim(v).len() > 0 {
            v
        } else {
            fallback
        },
        None => fallback,
    }
}

pub open spec fn option_view(value: Option<String>) -> Option<Seq<char>> {
    match value {
        Some(v) => Some(v@),
        None => None,
    }
}

/// A title or application id as given, or the fallback when it is missing or blank.
pub fn non_empty_or_default(value: Option<String>, fallback: &str) -> (r: String)
    ensures
        r@ == spec_non_empty_or_default(option_view(value), fallback@),
{
    match value {
        Some(v) => {
            if is_blank(v.as_str()) {
                fallback.to_owned()
            } else {
                v
            }
        },
        None => fallback.to_owned(),
    }
}

/// Hands out the next window identifier and advances the counter.
pub fn allocate_window_id(next: &mut u64) -> (id: WindowId)
    requires
        *old(next) < u64::MAX,
    ensures
        id.0 == *old(next),
        *final(next) == *old(next) + 1,
{
    let id = WindowId::new(*next);
    *next = *next + 1;
    id
}

/// Every window identifier is below `next`.
pub open spec fn ids_below<R>(ws: Seq<WindowNode<R>>, next: u64) -> bool {
    forall|i: int| 0 <= i < ws.len() ==> (#[trigger] ws[i]).id.0 < next
}

/// Maps a toplevel: gives it the next identifier, a title and application id
/// (falling back to `Untitled` and `unknown`), the rectangle its placement
/// chose, marks it mapped, adds it after the other windows and focuses it.
pub fn add_xdg_toplevel<R>(
    world: &mut World<R>,
    next_window_id: &mut u64,
    title: Option<String>,
    app_id: Option<String>,
    rect: R,
) -> (id: WindowId)
    requires
        *old(next_window_id) < u64::MAX,
    ensures
        id.0 == *old(next_window_id),
        *final(next_window_id) == *old(next_window_id) + 1,
        final(world)@.len() == old(world)@.len() + 1,
        ({
            let w = final(world)@.last();
            &&& w.id == id
            &&& w.title@ == spec_non_empty_or_default(option_view(title), "Untitled"@)
            &&& w.app_id@ == spec_non_empty_or_default(option_view(app_id), "unknown"@)
            &&& w.rect == rect
            &&& w.mapped
            &&& w.decoration_mode == DecorationMode::Border
        }),
        final(world)@ == refocused(old(world)@.push(final(world)@.last()), id),
{
    let id = allocate_window_id(next_window_id);
    let title = non_empty_or_default(title, "Untitled");
    let app_id = non_empty_or_default(app_id, "unknown");
    let mut window = WindowNode::new(id, title, app_id, rect);
    window.mapped = true;
    let ghost before = world@;
    world.add_window(window);
    let ghost added = world@;
    let focused = world.focus_window(id);
    proof {
        assert(added[before.len() as int].id == id);
        assert(focused);
        assert(refocused(added, id).last() == WindowNode { focused: true, ..added.last() });
    }
    id
}

/// Unmaps the window `id`; when that leaves no window focused, the first
/// remaining window gets focus. Returns `id`, or nothing when there was no
/// such window.
pub fn remove_xdg_toplevel<R>(world: &mut World<R>, id: WindowId) -> (r: Option<WindowId>)
    ensures
        !has_id(old(world)@, id) ==> r is None && final(world)@ == old(world)@,
        has_id(old(world)@, id) ==> r == Some(id) && exists|i: int|
            crate::canvas::world::first_with_id(old(world)@, id, i) && {
                let rest = old(world)@.remove(i);
                if has_focused(rest) || rest.len() == 0 {
                    final(world)@ == rest
                } else {
                    final(world)@ == refocused(rest, rest[0].id)
                }
            },
{
    match world.remove_window(id) {
        None => None,
        Some(_) => {
            if world.focused_window_id().is_none() {
                world.focus_first();
            }
            Some(id)
        },
    }
}

/// Sets the title of the window `id`, falling back to `Untitled`.
pub fn update_title<R>(world: &mut World<R>, id: WindowId, title: Option<String>) -> (r: bool)
    ensures
        r == has_id(old(world)@, id),
        !r ==> final(world)@ == old(world)@,
        r ==> exists|i: int|
            crate::canvas::world::first_with_id(old(world)@, id, i) && final(world)@.len() == old(
                world,
            )@.len() && final(world)@[i].title@ == spec_non_empty_or_default(
                option_view(title),
                "Untitled"@,
            ) && final(world)@ == old(world)@.update(
                i,
                WindowNode { title: final(world)@[i].title, ..old(world)@[i] },
            ),
{
    let title = non_empty_or_default(title, "Untitled");
    world.set_window_title(id, title)
}

/// Sets the application id of the window `id`, falling back to `unknown`.
pub fn update_app_id<R>(world: &mut World<R>, id: WindowId, app_id: Option<String>) -> (r: bool)
    ensures
        r == has_id(old(world)@, id),
        !r ==> final(world)@ == old(world)@,
        r ==> exists|i: int|
            crate::canvas::world::first_with_id(old(world)@, id, i) && final(world)@.len() == old(
                world,
            )@.len() && final(world)@[i].app_id@ == spec_non_empty_or_default(
                option_view(app_id),
                "unknown"@,
            ) && final(world)@ == old(world)@.update(
                i,
                WindowNode { app_id: final(world)@[i].app_id, ..old(world)@[i] },
            ),
{
    let app_id = non_empty_or_default(app_id, "unknown");
    world.set_window_app_id(id, app_id)
}

/// What a surface commit does to the logical window of a toplevel.
#[derive(Clone, Copy, Debug, PartialEq, Eq, Structural)]
pub enum CommitAction {
    /// The toplevel has its first buffer: map it as a new window.
    MapWindow,
    /// The mapped toplevel lost its buffer: unmap this window.
    UnmapWindow(WindowId),
    /// Nothing changes.
    Keep,
}

/// A toplevel without a window is mapped once it has a buffer; a mapped one
/// is unmapped once it has none.
pub fn toplevel_commit_action(window_id: Option<WindowId>, has_buffer: bool) -> (a: CommitAction)
    ensures
        a == match (window_id, has_buffer) {
            (None, true) => CommitAction::MapWindow,
            (Some(id), false) => CommitAction::UnmapWindow(id),
            _ => CommitAction::Keep,
        },
{
    match (window_id, has_buffer) {
        (None, true) => CommitAction::MapWindow,
        (Some(id), false) => CommitAction::UnmapWindow(id),
        _ => CommitAction::Keep,
    }
}

/// Identifiers handed out by the counter stay distinct: when every window's
/// identifier is below the counter, a toplevel mapped with the next identifier
/// keeps the identifiers distinct and below the advanced counter.
pub proof fn law_fresh_ids_stay_distinct<R>(ws: Seq<WindowNode<R>>, next: u64, w: WindowNode<R>)
    requires
        distinct_ids(ws),
        ids_below(ws, next),
        w.id.0 == next,
        next < u64::MAX,
    ensures
        distinct_ids(refocused(ws.push(w), w.id)),
        ids_below(refocused(ws.push(w), w.id), (next + 1) as u64),
{
    let ws2 = refocused(ws.push(w), w.id);
    assert forall|i: int| 0 <= i < ws2.len() implies (#[trigger] ws2[i]).id == ws.push(w)[i].id by {}
    assert forall|a: int, b: int| 0 <= a < b < ws2.len() implies (#[trigger] ws2[a]).id != (#[trigger] ws2[b]).id by {
        assert(ws2[a].id == ws.push(w)[a].id);
        assert(ws2[b].id == ws.push(w)[b].id);
        if b == ws.len() {
            assert(ws.push(w)[a] == ws[a]);
            assert(ws[a].id.0 < next);
        } else {
            assert(ws.push(w)[a] == ws[a]);
            assert(ws.push(w)[b] == ws[b]);
        }
    }
    assert forall|i: int| 0 <= i < ws2.len() implies (#[trigger] ws2[i]).id.0 < next + 1 by {
        assert(ws2[i].id == ws.push(w)[i].id);
        if i < ws.len() {
            assert(ws.push(w)[i] == ws[i]);
        }
    }
}

/// After a toplevel is unmapped, some window has focus as long as any window remains.
pub proof fn law_focus_survives_removal<R>(rest: Seq<WindowNode<R>>)
    requires
        rest.len() > 0,
    ensures
        has_focused(if has_focused(rest) {
            rest
        } else {
            refocused(rest, rest[0].id)
        }),
{
    if !has_focused(rest) {
        assert(refocused(rest, rest[0].id)[0].focused);
    }
}

/// The toplevel mapped last is the focused one, and with distinct identifiers
/// the only one.
pub proof fn law_new_toplevel_has_focus<R>(ws: Seq<WindowNode<R>>, w: WindowNode<R>)
    requires
        distinct_ids(ws.push(w)),
    ensures
        first_focused(refocused(ws.push(w), w.id), ws.len() as int),
        forall|i: int|
            0 <= i < ws.len() ==> !(#[trigger] refocused(ws.push(w), w.id)[i]).focused,
{
    let all = ws.push(w);
    let ws2 = refocused(all, w.id);
    assert forall|i: int| 0 <= i < ws.len() implies !(#[trigger] ws2[i]).focused by {
        assert(all[i].id != all[ws.len() as int].id);
    }
    assert(ws2[ws.len() as int].focused);
    assert(first_focused(ws2, ws.len() as int));
}

} // verus!
