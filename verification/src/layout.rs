//! Container layout vocabulary.
use vstd::prelude::*;

verus! {

/// Stacking direction of a pack container.
#[derive(Clone, Copy, Debug, PartialEq, Eq, Structural)]
pub enum PackSide {
    /// Vertical (top to bottom), children left-aligned; width = widest child.
    Top,
    /// Horizontal (left to right), children top-aligned; height = tallest child.
    Left,
}

} // verus!
