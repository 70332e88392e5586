//! Decoration modes and the priority of decoration regions under a point.
use vstd::prelude::*;

verus! {

/// How a window is decorated by the compositor.
#[derive(Clone, Copy, Debug, PartialEq, Eq, Structural)]
pub enum DecorationMode {
    /// No compositor-side decoration (`none` in the configuration).
    Undecorated,
    Border,
    Titlebar,
}

/// Which decoration region a point falls in.
#[derive(Clone, Copy, Debug, PartialEq, Eq, Structural)]
pub enum DecorationHit {
    /// The point hits no decoration region nor the content.
    Miss,
    Content,
    BorderTop,
    BorderRight,
    BorderBottom,
    BorderLeft,
    Titlebar,
    CloseButton,
}

/// For one point, which decoration rectangles contain it. A region that the
/// decoration does not have (no titlebar, no close button) does not contain it.
#[derive(Clone, Copy, Debug, PartialEq, Eq, Structural)]
pub struct HitRegions {
    pub outer: bool,
    pub close_button: bool,
    pub titlebar: bool,
    pub border_top: bool,
    pub border_right: bool,
    pub border_bottom: bool,
    pub border_left: bool,
    pub content: bool,
}

/// The region a point hits: nothing outside the outer rectangle; inside it,
/// the close button first, then the titlebar, then the borders (top, right,
/// bottom, left), then the content.
pub open spec fn spec_hit(r: HitRegions) -> DecorationHit {
    if !r.outer {
        DecorationHit::Miss
    } else if r.close_button {
        DecorationHit::CloseButton
    } else if r.titlebar {
        DecorationHit::Titlebar
    } else if r.border_top {
        DecorationHit::BorderTop
    } else if r.border_right {
        DecorationHit::BorderRight
    } else if r.border_bottom {
        DecorationHit::BorderBottom
    } else if r.border_left {
        DecorationHit::BorderLeft
    } else if r.content {
        DecorationHit::Content
    } else {
        DecorationHit::Miss
    }
}

impl HitRegions {
    /// The decoration hit for a point with these containments.
    pub fn hit(self) -> (h: DecorationHit)
        ensures
            h == spec_hit(self),
    {
        if !self.outer {
            return DecorationHit::Miss;
        }
        if self.close_button {
            return DecorationHit::CloseButton;
        }
        if self.titlebar {
            return DecorationHit::Titlebar;
        }
        if self.border_top {
            return DecorationHit::BorderTop;
        }
        if self.border_right {
            return DecorationHit::BorderRight;
        }
        if self.border_bottom {
            return DecorationHit::BorderBottom;
        }
        if self.border_left {
            return DecorationHit::BorderLeft;
        }
        if self.content {
            DecorationHit::Content
        } else {
            DecorationHit::Miss
        }
    }
}

/// A point in the close button hits the close button, whatever else contains it,
/// as long as it lies in the outer rectangle.
pub proof fn law_close_button_first(r: HitRegions)
    requires
        r.outer,
        r.close_button,
    ensures
        spec_hit(r) == DecorationHit::CloseButton,
{
}

/// A point outside the outer rectangle hits nothing.
pub proof fn law_outside_hits_nothing(r: HitRegions)
    requires
        !r.outer,
    ensures
        spec_hit(r) == DecorationHit::Miss,
{
}

/// Content is hit only where no titlebar, close button or border contains the point.
pub proof fn law_content_last(r: HitRegions)
    ensures
        spec_hit(r) == DecorationHit::Content <==> (r.outer && r.content && !r.close_button
            && !r.titlebar && !r.border_top && !r.border_right && !r.border_bottom
            && !r.border_left),
{
}


/// Whether the region a hit names contains the point.
pub open spec fn hit_region_holds(r: HitRegions, h: DecorationHit) -> bool {
    match h {
        DecorationHit::Miss => true,
        DecorationHit::Content => r.content,
        DecorationHit::BorderTop => r.border_top,
        DecorationHit::BorderRight => r.border_right,
        DecorationHit::BorderBottom => r.border_bottom,
        DecorationHit::BorderLeft => r.border_left,
        DecorationHit::Titlebar => r.titlebar,
        DecorationHit::CloseButton => r.close_button,
    }
}

/// The hit names a region that contains the point, within the outer
/// rectangle; it misses only where the point lies outside the outer rectangle
/// or in none of the regions.
pub proof fn law_hit_region_contains_point(r: HitRegions)
    ensures
        hit_region_holds(r, spec_hit(r)),
        spec_hit(r) != DecorationHit::Miss ==> r.outer,
        spec_hit(r) == DecorationHit::Miss <==> (!r.outer || !(r.close_button || r.titlebar
            || r.border_top || r.border_right || r.border_bottom || r.border_left || r.content)),
{
}

/// The titlebar wins over the borders and the content where the close button
/// does not contain the point.
pub proof fn law_titlebar_over_borders(r: HitRegions)
    requires
        r.outer,
        !r.close_button,
        r.titlebar,
    ensures
        spec_hit(r) == DecorationHit::Titlebar,
{
}

/// Among the borders the top wins, then the right, then the bottom, then the
/// left, whatever the other borders and the content say.
pub proof fn law_border_order(r: HitRegions)
    requires
        r.outer,
        !r.close_button,
        !r.titlebar,
    ensures
        r.border_top ==> spec_hit(r) == DecorationHit::BorderTop,
        !r.border_top && r.border_right ==> spec_hit(r) == DecorationHit::BorderRight,
        !r.border_top && !r.border_right && r.border_bottom ==> spec_hit(r)
            == DecorationHit::BorderBottom,
        !r.border_top && !r.border_right && !r.border_bottom && r.border_left ==> spec_hit(r)
            == DecorationHit::BorderLeft,
{
}

} // verus!
