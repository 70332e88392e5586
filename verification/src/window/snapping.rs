//! Which edges a snap brings together.
use vstd::prelude::*;

verus! {

#[derive(Clone, Copy, Debug, PartialEq, Eq, Structural)]
pub enum SnapEdge {
    LeftToRight,
    RightToLeft,
    TopToBottom,
    BottomToTop,
}

} // verus!
