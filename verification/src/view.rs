//! View sandboxes (clip / origin / available-width scopes).
use vstd::prelude::*;

verus! {

/// Mode of a view sandbox.
#[derive(Clone, Copy, Debug, PartialEq, Eq, Structural)]
pub enum ViewMode {
    /// No clipping (the default): content keeps its natural size and may overflow
    /// and enlarge the enclosing container; only an available-width hint is given.
    Expand,
    /// Strict clipping: content outside the view is cut and hits outside it are ignored.
    Clip,
}

} // verus!
