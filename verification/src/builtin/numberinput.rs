//! Text handling of the number input: what may be typed into it, and the
//! select-all on focus.
use vstd::prelude::*;
use crate::chars::{chars_of, string_push};
use crate::hit::WidgetState;

verus! {

/// Characters a number input keeps: ASCII digits, the minus sign, the decimal
/// point and spaces.
pub open spec fn numeric_char(c: char) -> bool {
    ('0' <= c && c <= '9') || c == '-' || c == '.' || c == ' '
}

/// Drops every character a number input does not accept, keeping the others in order.
pub fn retain_numeric(s: &mut String)
    ensures
        final(s)@ == old(s)@.filter(|c: char| numeric_char(c)),
{
    let v = chars_of(s.as_str());
    let ghost pred = |c: char| numeric_char(c);
    let mut out = String::new();
    let mut i: usize = 0;
    proof {
        assert(v@.take(0) =~= Seq::<char>::empty());
        assert(Seq::<char>::empty().filter(pred) =~= Seq::<char>::empty()) by {
            reveal(Seq::filter);
        }
    }
    while i < v.len()
        invariant
            0 <= i <= v@.len(),
            v@ == old(s)@,
            pred == (|c: char| numeric_char(c)),
            out@ == v@.take(i as int).filter(pred),
        decreases v@.len() - i,
    {
        let c = v[i];
        proof {
            assert(v@.take(i + 1) =~= v@.take(i as int).push(c));
            v@.take(i as int).lemma_filter_push(c, pred);
        }
        if ('0' <= c && c <= '9') || c == '-' || c == '.' || c == ' ' {
            string_push(&mut out, c);
        }
        i += 1;
    }
    proof {
        assert(v@.take(v@.len() as int) =~= v@);
    }
    *s = out;
}

/// On the frame the input gains the keyboard focus (`now_focused` and not
/// `was_focused`), its whole text is selected: anchor at the start, caret at the
/// end. Later frames leave the selection to the pointer and keys. Returns the
/// focus flag to remember for the next frame.
pub fn select_all_on_focus(ws: &mut WidgetState, was_focused: bool, now_focused: bool, text: &str) -> (prev: bool)
    ensures
        prev == now_focused,
        now_focused && !was_focused ==> *final(ws) == (WidgetState {
            sel_anchor: Some(0),
            caret: text@.len() as usize,
            ..*old(ws)
        }),
        !(now_focused && !was_focused) ==> *final(ws) == *old(ws),
{
    if now_focused && !was_focused {
        let v = chars_of(text);
        ws.sel_anchor = Some(0);
        ws.caret = v.len();
    }
    now_focused
}

} // verus!
