//! The world: the managed windows in stacking order, and which one has focus.
use vstd::prelude::*;

use crate::window::node::{WindowId, WindowNode};

verus! {

/// Some window carries the identifier `id`.
pub open spec fn has_id<R>(ws: Seq<WindowNode<R>>, id: WindowId) -> bool {
    exists|i: int| 0 <= i < ws.len() && (#[trigger] ws[i]).id == id
}

/// `i` is the first position of a window with identifier `id`.
pub open spec fn first_with_id<R>(ws: Seq<WindowNode<R>>, id: WindowId, i: int) -> bool {
    &&& 0 <= i < ws.len()
    &&& ws[i].id == id
    &&& forall|j: int| 0 <= j < i ==> (#[trigger] ws[j]).id != id
}

/// `i` is the first position of a focused window.
pub open spec fn first_focused<R>(ws: Seq<WindowNode<R>>, i: int) -> bool {
    &&& 0 <= i < ws.len()
    &&& ws[i].focused
    &&& forall|j: int| 0 <= j < i ==> !(#[trigger] ws[j]).focused
}

pub open spec fn has_focused<R>(ws: Seq<WindowNode<R>>) -> bool {
    exists|i: int| 0 <= i < ws.len() && (#[trigger] ws[i]).focused
}

/// The windows after focusing `id`: exactly those with identifier `id` are
/// focused; nothing else changes.
pub open spec fn refocused<R>(ws: Seq<WindowNode<R>>, id: WindowId) -> Seq<WindowNode<R>> {
    Seq::new(ws.len(), |i: int| WindowNode { focused: ws[i].id == id, ..ws[i] })
}

/// No two windows share an identifier.
pub open spec fn distinct_ids<R>(ws: Seq<WindowNode<R>>) -> bool {
    forall|i: int, j: int| 0 <= i < j < ws.len() ==> (#[trigger] ws[i]).id != (#[trigger] ws[j]).id
}

/// The managed windows. `R` is the type of a window's rectangle.
#[derive(Debug)]
pub struct World<R> {
    windows: Vec<WindowNode<R>>,
}

impl<R> View for World<R> {
    type V = Seq<WindowNode<R>>;

    closed spec fn view(&self) -> Seq<WindowNode<R>> {
        self.windows@
    }
}

impl<R> World<R> {
    pub fn new() -> (w: Self)
        ensures
            w@ == Seq::<WindowNode<R>>::empty(),
    {
        World { windows: Vec::new() }
    }

    /// Adds a window after all the others.
    pub fn add_window(&mut self, window: WindowNode<R>)
        ensures
            final(self)@ == old(self)@.push(window),
    {
        self.windows.push(window);
    }

    pub fn is_empty(&self) -> (r: bool)
        ensures
            r == (self@.len() == 0),
    {
        self.windows.len() == 0
    }

    /// The windows, in the order they were added.
    pub fn windows(&self) -> (r: &[WindowNode<R>])
        ensures
            r@ == self@,
    {
        self.windows.as_slice()
    }

    fn index_of(&self, id: WindowId) -> (r: Option<usize>)
        ensures
            match r {
                Some(i) => first_with_id(self@, id, i as int),
                None => !has_id(self@, id),
            },
    {
        let mut i: usize = 0;
        while i < self.windows.len()
            invariant
                0 <= i <= self.windows.len(),
                forall|j: int| 0 <= j < i ==> (#[trigger] self.windows@[j]).id != id,
            decreases self.windows.len() - i,
        {
            if self.windows[i].id == id {
                return Some(i);
            }
            i = i + 1;
        }
        None
    }

    /// Removes the first window with identifier `id`, and returns it.
    pub fn remove_window(&mut self, id: WindowId) -> (r: Option<WindowNode<R>>)
        ensures
            match r {
                Some(w) => exists|i: int|
                    first_with_id(old(self)@, id, i) && w == old(self)@[i] && final(self)@
                        == old(self)@.remove(i),
                None => !has_id(old(self)@, id) && final(self)@ == old(self)@,
            },
    {
        match self.index_of(id) {
            Some(i) => Some(self.windows.remove(i)),
            None => None,
        }
    }

    /// The first window with identifier `id`.
    pub fn window(&self, id: WindowId) -> (r: Option<&WindowNode<R>>)
        ensures
            match r {
                Some(w) => exists|i: int| first_with_id(self@, id, i) && *w == self@[i],
                None => !has_id(self@, id),
            },
    {
        match self.index_of(id) {
            Some(i) => Some(&self.windows[i]),
            None => None,
        }
    }

    /// The first focused window.
    pub fn focused_window(&self) -> (r: Option<&WindowNode<R>>)
        ensures
            match r {
                Some(w) => exists|i: int| first_focused(self@, i) && *w == self@[i],
                None => !has_focused(self@),
            },
    {
        let mut i: usize = 0;
        while i < self.windows.len()
            invariant
                0 <= i <= self.windows.len(),
                forall|j: int| 0 <= j < i ==> !(#[trigger] self.windows@[j]).focused,
            decreases self.windows.len() - i,
        {
            if self.windows[i].focused {
                assert(first_focused(self@, i as int));
                return Some(&self.windows[i]);
            }
            i = i + 1;
        }
        None
    }

    /// The identifier of the first focused window.
    pub fn focused_window_id(&self) -> (r: Option<WindowId>)
        ensures
            match r {
                Some(id) => exists|i: int| first_focused(self@, i) && id == self@[i].id,
                None => !has_focused(self@),
            },
    {
        match self.focused_window() {
            Some(w) => Some(w.id),
            None => None,
        }
    }

    /// Focuses every window with identifier `id` and unfocuses all others;
    /// does nothing, and returns false, when no window has that identifier.
    pub fn focus_window(&mut self, id: WindowId) -> (r: bool)
        ensures
            r == has_id(old(self)@, id),
            r ==> final(self)@ == refocused(old(self)@, id),
            !r ==> final(self)@ == old(self)@,
    {
        if self.index_of(id).is_none() {
            return false;
        }
        let ghost before = self.windows@;
        let mut i: usize = 0;
        while i < self.windows.len()
            invariant
                0 <= i <= self.windows.len(),
                self.windows@.len() == before.len(),
                forall|j: int| 0 <= j < i ==> #[trigger] self.windows@[j] == refocused(before, id)[j],
                forall|j: int| i <= j < before.len() ==> #[trigger] self.windows@[j] == before[j],
            decreases self.windows.len() - i,
        {
            let focus = self.windows[i].id == id;
            self.windows[i].focused = focus;
            i = i + 1;
        }
        assert(self.windows@ =~= refocused(before, id));
        true
    }

    /// Focuses the first window, and returns its identifier.
    pub fn focus_first(&mut self) -> (r: Option<WindowId>)
        ensures
            old(self)@.len() == 0 ==> r is None && final(self)@ == old(self)@,
            old(self)@.len() > 0 ==> r == Some(old(self)@[0].id) && final(self)@ == refocused(
                old(self)@,
                old(self)@[0].id,
            ),
    {
        if self.windows.len() == 0 {
            return None;
        }
        let id = self.windows[0].id;
        self.focus_window(id);
        Some(id)
    }

    /// Directional focus, once a spatial search on the geometry has chosen
    /// `candidate` in the wanted direction from the focused window (`None`
    /// when there is no window that way): with no window focused, the first
    /// window is focused instead; otherwise the candidate, if any, is focused
    /// and returned.
    pub fn focus_toward(&mut self, candidate: Option<WindowId>) -> (r: Option<WindowId>)
        ensures
            !has_focused(old(self)@) ==> (old(self)@.len() == 0 ==> r is None && final(self)@ == old(
                self,
            )@) && (old(self)@.len() > 0 ==> r == Some(old(self)@[0].id) && final(self)@
                == refocused(old(self)@, old(self)@[0].id)),
            has_focused(old(self)@) ==> r == candidate && match candidate {
                None => final(self)@ == old(self)@,
                Some(c) => final(self)@ == if has_id(old(self)@, c) {
                    refocused(old(self)@, c)
                } else {
                    old(self)@
                },
            },
    {
        if self.focused_window_id().is_none() {
            return self.focus_first();
        }
        match candidate {
            None => None,
            Some(selected) => {
                self.focus_window(selected);
                Some(selected)
            },
        }
    }

    /// Gives the first window with identifier `id` a new rectangle.
    pub fn set_window_rect(&mut self, id: WindowId, rect: R) -> (r: bool)
        ensures
            r == has_id(old(self)@, id),
            !r ==> final(self)@ == old(self)@,
            r ==> exists|i: int|
                first_with_id(old(self)@, id, i) && final(self)@ == old(self)@.update(
                    i,
                    WindowNode { rect, ..old(self)@[i] },
                ),
    {
        match self.index_of(id) {
            Some(i) => {
                self.windows[i].rect = rect;
                true
            },
            None => false,
        }
    }

    /// Gives the first window with identifier `id` a new title.
    pub fn set_window_title(&mut self, id: WindowId, title: String) -> (r: bool)
        ensures
            r == has_id(old(self)@, id),
            !r ==> final(self)@ == old(self)@,
            r ==> exists|i: int|
                first_with_id(old(self)@, id, i) && final(self)@ == old(self)@.update(
                    i,
                    WindowNode { title, ..old(self)@[i] },
                ),
    {
        match self.index_of(id) {
            Some(i) => {
                self.windows[i].title = title;
                true
            },
            None => false,
        }
    }

    /// Gives the first window with identifier `id` a new application id.
    pub fn set_window_app_id(&mut self, id: WindowId, app_id: String) -> (r: bool)
        ensures
            r == has_id(old(self)@, id),
            !r ==> final(self)@ == old(self)@,
            r ==> exists|i: int|
                first_with_id(old(self)@, id, i) && final(self)@ == old(self)@.update(
                    i,
                    WindowNode { app_id, ..old(self)@[i] },
                ),
    {
        match self.index_of(id) {
            Some(i) => {
                self.windows[i].app_id = app_id;
                true
            },
            None => false,
        }
    }
}

/// Focusing a window that is present, among windows with distinct
/// identifiers, leaves exactly one window focused: that one.
pub proof fn law_focus_leaves_one_focused<R>(ws: Seq<WindowNode<R>>, id: WindowId)
    requires
        distinct_ids(ws),
        has_id(ws, id),
    ensures
        exists|i: int|
            0 <= i < ws.len() && (#[trigger] refocused(ws, id)[i]).focused && refocused(ws, id)[i].id
                == id,
        forall|i: int, j: int|
            0 <= i < ws.len() && 0 <= j < ws.len() && (#[trigger] refocused(ws, id)[i]).focused && (
            #[trigger] refocused(ws, id)[j]).focused ==> i == j,
{
    let i = choose|i: int| 0 <= i < ws.len() && (#[trigger] ws[i]).id == id;
    assert(refocused(ws, id)[i].focused);
    assert forall|a: int, b: int|
        0 <= a < ws.len() && 0 <= b < ws.len() && (#[trigger] refocused(ws, id)[a]).focused && (
        #[trigger] refocused(ws, id)[b]).focused implies a == b by {
        if a < b {
            assert(ws[a].id != ws[b].id);
        } else if b < a {
            assert(ws[b].id != ws[a].id);
        }
    }
}

/// Focusing the same window twice is the same as focusing it once.
pub proof fn law_focus_idempotent<R>(ws: Seq<WindowNode<R>>, id: WindowId)
    ensures
        refocused(refocused(ws, id), id) == refocused(ws, id),
{
    assert(refocused(refocused(ws, id), id) =~= refocused(ws, id));
}

/// Focusing changes only the focus flags: identifiers, titles, rectangles and
/// decorations stay as they were.
pub proof fn law_focus_changes_only_focus<R>(ws: Seq<WindowNode<R>>, id: WindowId, i: int)
    requires
        0 <= i < ws.len(),
    ensures
        refocused(ws, id).len() == ws.len(),
        refocused(ws, id)[i] == (WindowNode { focused: ws[i].id == id, ..ws[i] }),
{
}

/// Among windows with distinct identifiers, once the window with identifier
/// `id` is removed, no window has that identifier any more.
pub proof fn law_removed_window_is_gone<R>(ws: Seq<WindowNode<R>>, id: WindowId, i: int)
    requires
        distinct_ids(ws),
        first_with_id(ws, id, i),
    ensures
        !has_id(ws.remove(i), id),
        distinct_ids(ws.remove(i)),
{
    let r = ws.remove(i);
    assert forall|j: int| 0 <= j < r.len() implies (#[trigger] r[j]).id != id by {
        if j < i {
            assert(r[j] == ws[j]);
        } else {
            assert(r[j] == ws[j + 1]);
        }
    }
    assert forall|a: int, b: int| 0 <= a < b < r.len() implies (#[trigger] r[a]).id != (#[trigger] r[b]).id by {
        let a2 = if a < i { a } else { a + 1 };
        let b2 = if b < i { b } else { b + 1 };
        assert(r[a] == ws[a2]);
        assert(r[b] == ws[b2]);
    }
}

/// A window added under a new identifier is the one that lookup finds.
pub proof fn law_added_window_is_found<R>(ws: Seq<WindowNode<R>>, w: WindowNode<R>)
    requires
        !has_id(ws, w.id),
    ensures
        first_with_id(ws.push(w), w.id, ws.len() as int),
        ws.push(w)[ws.len() as int] == w,
{
    assert forall|j: int| 0 <= j < ws.len() implies (#[trigger] ws.push(w)[j]).id != w.id by {
        assert(ws.push(w)[j] == ws[j]);
    }
}

} // verus!
