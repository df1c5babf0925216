//! Decisions of the font-switch dialog: when it closes, and which name it applies.
use vstd::prelude::*;
use crate::chars::{spec_trim, trim_white_space};

verus! {

/// What one frame of the font dialog does: whether it stays open, and the font
/// name to apply, if any. A closed dialog does nothing; Escape closes it;
/// "OK" applies the typed name without its surrounding white space (empty means
/// the default font) and closes it; "Cancel" closes it.
pub fn font_modal_step(open: bool, escape: bool, ok: bool, cancel: bool, input: &str) -> (r: (bool, Option<String>))
    ensures
        r.0 == (open && !escape && !ok && !cancel),
        r.1 is Some <==> (open && !escape && ok),
        r.1 is Some ==> r.1->0@ == spec_trim(input@),
{
    if !open || escape {
        return (false, None);
    }
    if ok {
        return (false, Some(trim_white_space(input)));
    }
    if cancel {
        return (false, None);
    }
    (true, None)
}

} // verus!
