//! Frame-level decisions of the recorder: window z-order, modal layers and press
//! arbitration, the pointer cursor, drop-down lists, the position chain of
//! windows and panels, and the anchors and cursors it speaks of.
use vstd::prelude::*;
use crate::hit::WidgetState;
use crate::focus::{
    chain_ids, find_in_chain, first_index_of, handle_focus_keys, spec_handle_focus_keys, FocusEntry, FocusKeys,
};

verus! {

/// Where content docks inside the viewport.
#[derive(Clone, Copy, Debug, PartialEq, Eq, Structural)]
pub enum Anchor {
    TopLeft,
    TopCenter,
    TopRight,
    CenterLeft,
    Center,
    CenterRight,
    BottomLeft,
    BottomCenter,
    BottomRight,
}

/// System pointer cursor requested by a widget.
#[derive(Clone, Copy, Debug, PartialEq, Eq, Structural)]
pub enum UiCursor {
    /// Arrow (windows hovered or dragged).
    Default,
    /// Text I-beam (text inputs).
    Text,
    /// Open hand (draggable: slider, scrollbar thumb).
    Grab,
    /// Closed hand (dragging).
    Grabbing,
    /// Horizontal double arrow (value drag handles, width resize grips).
    EwResize,
}

/// Z of the topmost sentinel layer (input-method candidates, dropdown overlays):
/// drawn after and hit before every window.
pub const WIN_TOPMOST: u32 = 0xffff_ffff;

/// Largest z among real windows (those below [`WIN_TOPMOST`]), `0` when there are none.
pub open spec fn max_real_z(zs: Seq<u32>) -> u32
    decreases zs.len(),
{
    if zs.len() == 0 {
        0
    } else {
        let m = max_real_z(zs.drop_last());
        let z = zs.last();
        if z < WIN_TOPMOST && z > m {
            z
        } else {
            m
        }
    }
}

/// Largest z among the real windows in `window_zs`, `0` when there are none.
pub fn max_window_z(window_zs: &[u32]) -> (m: u32)
    ensures
        m == max_real_z(window_zs@),
        m < WIN_TOPMOST,
{
    let n = window_zs.len();
    let mut max_z: u32 = 0;
    let mut k: usize = 0;
    proof {
        assert(window_zs@.take(0) =~= Seq::<u32>::empty());
    }
    while k < n
        invariant
            n == window_zs@.len(),
            0 <= k <= n,
            max_z == max_real_z(window_zs@.take(k as int)),
        decreases n - k,
    {
        let z = window_zs[k];
        assert(window_zs@.take(k + 1).drop_last() =~= window_zs@.take(k as int));
        if z < WIN_TOPMOST && z > max_z {
            max_z = z;
        }
        k += 1;
    }
    assert(window_zs@.take(n as int) =~= window_zs@);
    proof {
        lemma_max_real_z(window_zs@);
    }
    max_z
}

/// Z of a window raised above the others: one above every real window, but
/// never onto the topmost sentinel (it stays at `WIN_TOPMOST - 1` once a window
/// sits there).
pub open spec fn raised_z(zs: Seq<u32>) -> u32 {
    if max_real_z(zs) < WIN_TOPMOST - 1 {
        (max_real_z(zs) + 1) as u32
    } else {
        (WIN_TOPMOST - 1) as u32
    }
}

/// Z given to a window the first time it is recorded: see [`raised_z`].
pub fn new_window_z(window_zs: &[u32]) -> (z: u32)
    ensures
        z == raised_z(window_zs@),
        z < WIN_TOPMOST,
{
    let m = max_window_z(window_zs);
    if m < WIN_TOPMOST - 1 {
        m + 1
    } else {
        WIN_TOPMOST - 1
    }
}

/// Z's of a modal dialog's dimming layer and of the dialog itself, rewritten
/// every frame: the layer goes one above every real window and the dialog one
/// above the layer, so that the modal stays on top while it is open; both stay
/// below the topmost sentinel (capped at `WIN_TOPMOST - 2` and `WIN_TOPMOST - 1`).
pub fn modal_zs(window_zs: &[u32]) -> (r: (u32, u32))
    ensures
        r.0 == (if max_real_z(window_zs@) < WIN_TOPMOST - 2 {
            max_real_z(window_zs@) + 1
        } else {
            WIN_TOPMOST - 2
        }),
        r.1 == r.0 + 1,
        r.1 < WIN_TOPMOST,
{
    let m = max_window_z(window_zs);
    let dim = if m < WIN_TOPMOST - 2 {
        m + 1
    } else {
        WIN_TOPMOST - 2
    };
    (dim, dim + 1)
}

/// Outcome of a press on a window: the window's new z ([`raised_z`]) and
/// whether the keyboard focus must be dropped because it sits in another window
/// (`focus_win`: window of the focused widget, if any; `old_z`: the pressed
/// window's z before raising).
pub fn resolve_win_press(window_zs: &[u32], old_z: u32, focus_win: Option<u32>) -> (r: (u32, bool))
    ensures
        r.0 == raised_z(window_zs@),
        r.0 < WIN_TOPMOST,
        r.1 == (match focus_win {
            Some(w) => w != 0 && w != old_z,
            None => false,
        }),
{
    let new_z = new_window_z(window_zs);
    let clear_focus = match focus_win {
        Some(w) => w != 0 && w != old_z,
        None => false,
    };
    (new_z, clear_focus)
}

/// The largest real z is below the sentinel and at least every real z.
proof fn lemma_max_real_z(zs: Seq<u32>)
    ensures
        max_real_z(zs) < WIN_TOPMOST,
        forall|i: int| 0 <= i < zs.len() && zs[i] < WIN_TOPMOST ==> zs[i] <= max_real_z(zs),
    decreases zs.len(),
{
    if zs.len() > 0 {
        lemma_max_real_z(zs.drop_last());
        assert forall|i: int| 0 <= i < zs.len() && zs[i] < WIN_TOPMOST implies zs[i] <= max_real_z(zs) by {
            if i < zs.len() - 1 {
                assert(zs.drop_last()[i] == zs[i]);
            }
        }
    }
}

/// A raised window never reaches the topmost sentinel, and ends up above every
/// real window; it can only tie the highest one when that one already sits right
/// under the sentinel.
pub proof fn law_raised_window_is_on_top(zs: Seq<u32>)
    ensures
        raised_z(zs) < WIN_TOPMOST,
        forall|i: int| 0 <= i < zs.len() && zs[i] < WIN_TOPMOST ==> zs[i] <= raised_z(zs),
        max_real_z(zs) < WIN_TOPMOST - 1 ==> forall|i: int| 0 <= i < zs.len() && zs[i] < WIN_TOPMOST ==> zs[i] < raised_z(zs),
{
    lemma_max_real_z(zs);
}

// ───────────────────────── press arbitration ─────────────────────────

/// Whether a press on the window at z `z` outranks `top`, the highest window
/// pressed so far this frame (none yet, or a lower one).
pub open spec fn spec_outranks(top: Option<u32>, z: u32) -> bool {
    match top {
        None => true,
        Some(t) => z > t,
    }
}

/// Whether a press on the window at z `z` outranks the window recorded so far
/// this frame as the pressed one (`top`); the caller then records this window.
pub fn outranks_press_top(top: Option<u32>, z: u32) -> (r: bool)
    ensures
        r == spec_outranks(top, z),
{
    match top {
        None => true,
        Some(t) => z > t,
    }
}

/// The window recorded as pressed after presses on windows at z's `zs`, in
/// recording order.
pub open spec fn press_top_of(zs: Seq<u32>) -> Option<u32>
    decreases zs.len(),
{
    if zs.len() == 0 {
        None
    } else {
        let t = press_top_of(zs.drop_last());
        if spec_outranks(t, zs.last()) {
            Some(zs.last())
        } else {
            t
        }
    }
}

/// Of all the windows pressed in one frame (overlapping under the pointer), the
/// one recorded is the highest.
pub proof fn law_press_goes_to_highest(zs: Seq<u32>)
    ensures
        zs.len() == 0 ==> press_top_of(zs) is None,
        zs.len() > 0 ==> press_top_of(zs) is Some && zs.contains(press_top_of(zs)->0),
        forall|i: int| 0 <= i < zs.len() ==> zs[i] <= press_top_of(zs)->0,
    decreases zs.len(),
{
    if zs.len() > 0 {
        let p = zs.drop_last();
        law_press_goes_to_highest(p);
        assert forall|i: int| 0 <= i < zs.len() implies zs[i] <= press_top_of(zs)->0 by {
            if i < zs.len() - 1 {
                assert(p[i] == zs[i]);
            }
        }
        if press_top_of(zs) == press_top_of(p) && p.len() > 0 {
            let w = press_top_of(p)->0;
            let k = choose|k: int| 0 <= k < p.len() && p[k] == w;
            assert(zs[k] == w);
        } else {
            assert(zs[zs.len() - 1] == zs.last());
        }
    }
}

/// After the frame's press went to a window, the drag of any other window that is
/// no longer held stops (`is_window`: this state is a window's, not that of a
/// control inside one, whose own drags are left alone; `is_top`: it is the
/// pressed window).
pub fn settle_window_drag(ws: &mut WidgetState, is_window: bool, is_top: bool)
    ensures
        *final(ws) == (WidgetState {
            dragging: old(ws).dragging && !(is_window && !is_top && !old(ws).pressed),
            ..*old(ws)
        }),
{
    if is_window && !is_top && ws.dragging && !ws.pressed {
        ws.dragging = false;
    }
}

/// Whether the keyboard focus is dropped at the end of a frame: the pointer
/// went down this frame, nothing responded to the press, and something had the focus.
pub fn blank_press_clears_focus(down_edge: bool, any_pressed: bool, has_focus: bool) -> (r: bool)
    ensures
        r == (down_edge && !any_pressed && has_focus),
{
    down_edge && !any_pressed && has_focus
}

// ───────────────────────── pointer cursor ─────────────────────────

/// What the frame's widgets asked of the pointer cursor.
#[derive(Clone, Copy, Debug, PartialEq, Eq, Structural)]
pub struct CursorIntent {
    /// Hovering a text input.
    pub text: bool,
    /// Hovering a draggable handle.
    pub grab: bool,
    /// Dragging a handle.
    pub grabbing: bool,
    /// Dragging a window.
    pub window_drag: bool,
    /// Set by a widget author.
    pub custom: Option<UiCursor>,
}

/// Whether any widget asked for a cursor this frame.
pub open spec fn has_intent(i: CursorIntent) -> bool {
    i.text || i.grab || i.grabbing || i.window_drag || i.custom is Some
}

/// The cursor asked for, by priority: window drag (arrow) > grabbing > author's
/// cursor > text I-beam > grab > arrow.
pub open spec fn intent_icon(i: CursorIntent) -> UiCursor {
    if i.window_drag {
        UiCursor::Default
    } else if i.grabbing {
        UiCursor::Grabbing
    } else if i.custom is Some {
        i.custom->0
    } else if i.text {
        UiCursor::Text
    } else if i.grab {
        UiCursor::Grab
    } else {
        UiCursor::Default
    }
}

/// The cursor to set at the end of a frame, if any, and whether the library has
/// then set the cursor (the next frame's `was_set`). With an intent, its icon is
/// set. Without one the cursor is left alone, so that an application's own cursor
/// survives, except once right after the library had set it, when it goes back
/// to the arrow.
pub open spec fn spec_frame_cursor(intent: CursorIntent, was_set: bool) -> (Option<UiCursor>, bool) {
    if has_intent(intent) {
        (Some(intent_icon(intent)), true)
    } else if was_set {
        (Some(UiCursor::Default), false)
    } else {
        (None, false)
    }
}

/// See [`spec_frame_cursor`].
pub fn frame_cursor(intent: CursorIntent, was_set: bool) -> (r: (Option<UiCursor>, bool))
    ensures
        r == spec_frame_cursor(intent, was_set),
{
    let any = intent.text || intent.grab || intent.grabbing || intent.window_drag
        || intent.custom.is_some();
    if any {
        let icon = if intent.window_drag {
            UiCursor::Default
        } else if intent.grabbing {
            UiCursor::Grabbing
        } else if let Some(c) = intent.custom {
            c
        } else if intent.text {
            UiCursor::Text
        } else if intent.grab {
            UiCursor::Grab
        } else {
            UiCursor::Default
        };
        (Some(icon), true)
    } else if was_set {
        (Some(UiCursor::Default), false)
    } else {
        (None, false)
    }
}

/// Frames without any cursor intent reset the cursor at most once: from the
/// second such frame in a row on, the cursor is left alone.
pub proof fn law_cursor_reset_once(first: CursorIntent, second: CursorIntent, was_set: bool)
    requires
        !has_intent(first),
        !has_intent(second),
    ensures
        spec_frame_cursor(second, spec_frame_cursor(first, was_set).1) == (None::<UiCursor>, false),
{
}

// ───────────────────────── drop-down lists ─────────────────────────

/// Option picked with the arrow keys in an open, focused drop-down list of `n`
/// options, the current one being `selected` (none or past the end counts as
/// the first or the last): Up picks the previous option and Down the next, both
/// wrapping around; Down wins when both are pressed.
pub open spec fn spec_combo_key_pick(selected: Option<u32>, n: u32, up: bool, down: bool) -> Option<u32> {
    if n == 0 {
        None
    } else {
        let s: u32 = match selected {
            Some(x) => x,
            None => 0,
        };
        let cur: int = if s < n - 1 { s as int } else { n - 1 };
        if down {
            Some((if cur + 1 >= n { 0 } else { cur + 1 }) as u32)
        } else if up {
            Some((if cur == 0 { n - 1 } else { cur - 1 }) as u32)
        } else {
            None
        }
    }
}

/// See [`spec_combo_key_pick`].
pub fn combo_key_pick(selected: Option<u32>, n: u32, up: bool, down: bool) -> (r: Option<u32>)
    ensures
        r == spec_combo_key_pick(selected, n, up, down),
{
    if n == 0 {
        return None;
    }
    let s = match selected {
        Some(x) => x,
        None => 0,
    };
    let cur = if s < n - 1 {
        s
    } else {
        n - 1
    };
    let mut picked = None;
    if up {
        picked = Some(if cur == 0 {
            n - 1
        } else {
            cur - 1
        });
    }
    if down {
        picked = Some(if cur >= n - 1 {
            0
        } else {
            cur + 1
        });
    }
    picked
}

/// Option a drop-down list picks in a frame. A closed list picks nothing. An
/// open one picks the option clicked in its list (`clicked_option`), else, while
/// it has the keyboard focus, the option the arrow keys move to.
pub open spec fn spec_combo_pick(
    open: bool,
    focused: bool,
    selected: Option<u32>,
    n: u32,
    up: bool,
    down: bool,
    clicked_option: Option<u32>,
) -> Option<u32> {
    if !open {
        None
    } else if clicked_option is Some {
        clicked_option
    } else if focused {
        spec_combo_key_pick(selected, n, up, down)
    } else {
        None
    }
}

/// See [`spec_combo_pick`]; a pick is always one of the `n` options.
pub fn combo_pick(
    open: bool,
    focused: bool,
    selected: Option<u32>,
    n: u32,
    up: bool,
    down: bool,
    clicked_option: Option<u32>,
) -> (r: Option<u32>)
    requires
        clicked_option is Some ==> clicked_option->0 < n,
    ensures
        r == spec_combo_pick(open, focused, selected, n, up, down, clicked_option),
        !open ==> r is None,
        r is Some ==> r->0 < n,
{
    if !open {
        return None;
    }
    let mut picked = if focused {
        combo_key_pick(selected, n, up, down)
    } else {
        None
    };
    if clicked_option.is_some() {
        picked = clicked_option;
    }
    picked
}

/// In an open drop-down list, the option clicked in the list is the one picked,
/// whether or not the combo box has the keyboard focus and whatever keys are
/// down; a closed list picks nothing, and without a click or a focus nothing is
/// picked either.
pub proof fn law_combo_click_picks_option(
    focused: bool,
    selected: Option<u32>,
    n: u32,
    up: bool,
    down: bool,
    k: u32,
    clicked_option: Option<u32>,
)
    ensures
        spec_combo_pick(true, focused, selected, n, up, down, Some(k)) == Some(k),
        spec_combo_pick(false, focused, selected, n, up, down, clicked_option) is None,
        spec_combo_pick(true, false, selected, n, up, down, None) is None,
{
}

/// In an open list with the keyboard focus and no click, Down picks the option
/// after the current one and Up the one before (wrapping), the current one being
/// `c`.
pub proof fn law_combo_keys_step(c: u32, n: u32, clicked_option: Option<u32>)
    requires
        c < n,
    ensures
        spec_combo_pick(true, true, Some(c), n, false, true, None) == Some(if c + 1 == n { 0 } else { (c + 1) as u32 }),
        spec_combo_pick(true, true, Some(c), n, true, false, None) == Some(if c == 0 { (n - 1) as u32 } else { (c - 1) as u32 }),
        spec_combo_pick(true, true, Some(c), n, false, false, None) is None,
{
}

/// A key pick is always one of the options; Up then Down (or Down then Up)
/// comes back to the option one started from.
pub proof fn law_combo_keys_stay_and_undo(c: u32, n: u32)
    requires
        c < n,
    ensures
        spec_combo_key_pick(Some(c), n, true, false) is Some,
        spec_combo_key_pick(Some(c), n, true, false)->0 < n,
        spec_combo_key_pick(Some(c), n, false, true)->0 < n,
        spec_combo_key_pick(spec_combo_key_pick(Some(c), n, true, false), n, false, true) == Some(c),
        spec_combo_key_pick(spec_combo_key_pick(Some(c), n, false, true), n, true, false) == Some(c),
{
}

/// How a frame changes which drop-down list is open.
#[derive(Clone, Copy, Debug, PartialEq, Eq, Structural)]
pub enum ComboChange {
    /// Leave it as it is.
    Keep,
    /// This list becomes the open one (closing any other).
    Open,
    /// No list is open any more.
    Close,
}

/// Change of the open drop-down list made by one combo box in a frame (`open`:
/// its list was open at the start of the frame). A click (pointer or keyboard)
/// toggles it; while open, Escape, a press outside both the list and the button,
/// or picking an option closes it.
pub open spec fn spec_combo_change(open: bool, clicked: bool, escape: bool, press_outside: bool, picked: bool) -> ComboChange {
    if picked || (open && (escape || press_outside)) {
        ComboChange::Close
    } else if clicked {
        if open {
            ComboChange::Close
        } else {
            ComboChange::Open
        }
    } else {
        ComboChange::Keep
    }
}

/// See [`spec_combo_change`].
pub fn combo_change(open: bool, clicked: bool, escape: bool, press_outside: bool, picked: bool) -> (r: ComboChange)
    ensures
        r == spec_combo_change(open, clicked, escape, press_outside, picked),
{
    let mut r = ComboChange::Keep;
    if clicked {
        r = if open {
            ComboChange::Close
        } else {
            ComboChange::Open
        };
    }
    if open && escape {
        r = ComboChange::Close;
    }
    if open && press_outside {
        r = ComboChange::Close;
    }
    if picked {
        r = ComboChange::Close;
    }
    r
}

/// With nothing else happening, a click toggles the list; picking an option
/// always closes it.
pub proof fn law_combo_click_toggles(open: bool, clicked: bool, escape: bool, press_outside: bool)
    ensures
        spec_combo_change(open, true, false, false, false) == (if open {
            ComboChange::Close
        } else {
            ComboChange::Open
        }),
        spec_combo_change(open, clicked, escape, press_outside, true) == ComboChange::Close,
{
}


// ───────────────────────── position chain ─────────────────────────

/// A link of the chain that resolves window and panel positions: a script
/// handler (by its registration index) or the user's drag state.
#[derive(Clone, Copy, Debug, PartialEq, Eq, Structural)]
pub enum PosLink {
    Script(usize),
    Drag,
}

/// Links of priority `p`.
pub open spec fn prio_is(p: i32) -> spec_fn((i32, PosLink)) -> bool {
    |e: (i32, PosLink)| e.0 == p
}

/// Highest priority first.
pub open spec fn prio_sorted(s: Seq<(i32, PosLink)>) -> bool {
    forall|i: int, j: int| 0 <= i < j < s.len() ==> s[i].0 >= s[j].0
}

/// Adds a script handler with `priority` to the position chain and orders the
/// chain by priority, highest first, keeping registration order among equal
/// priorities (a stable sort): the result is sorted and, for every priority, its
/// links are exactly those of the chain with the new link appended, in that order.
pub fn add_pos_handler(chain: &mut Vec<(i32, PosLink)>, priority: i32, script: usize)
    ensures
        prio_sorted(final(chain)@),
        forall|p: i32| #[trigger] final(chain)@.filter(prio_is(p)) == old(chain)@.push((priority, PosLink::Script(script))).filter(prio_is(p)),
{
    chain.push((priority, PosLink::Script(script)));
    let ghost src = chain@;
    let n = chain.len();
    let mut out: Vec<(i32, PosLink)> = Vec::new();
    let mut k: usize = 0;
    proof {
        assert(src.take(0) =~= Seq::<(i32, PosLink)>::empty());
        assert forall|p: i32| #[trigger] out@.filter(prio_is(p)) == src.take(0).filter(prio_is(p)) by {
            reveal(Seq::filter);
        }
    }
    while k < n
        invariant
            chain@ == src,
            n == src.len(),
            0 <= k <= n,
            prio_sorted(out@),
            forall|p: i32| #[trigger] out@.filter(prio_is(p)) == src.take(k as int).filter(prio_is(p)),
        decreases n - k,
    {
        let x = chain[k];
        let mut pos: usize = 0;
        while pos < out.len() && out[pos].0 >= x.0
            invariant
                0 <= pos <= out@.len(),
                forall|j: int| 0 <= j < pos ==> (#[trigger] out@[j]).0 >= x.0,
            decreases out@.len() - pos,
        {
            pos += 1;
        }
        let ghost before = out@;
        proof {
            assert forall|j: int| pos <= j < before.len() implies (#[trigger] before[j]).0 < x.0 by {
                if j > pos {
                    assert(before[pos as int].0 >= before[j].0);
                }
            }
        }
        out.insert(pos, x);
        proof {
            assert(out@ == before.insert(pos as int, x));
            assert(src.take(k + 1) =~= src.take(k as int).push(x));
            assert forall|p: i32| #[trigger] out@.filter(prio_is(p)) == src.take(k + 1).filter(prio_is(p)) by {
                src.take(k as int).lemma_filter_push(x, prio_is(p));
                lemma_insert_keeps_prio_order(before, pos as int, x, p);
            }
            lemma_insert_keeps_sorted(before, pos as int, x);
        }
        k += 1;
    }
    proof {
        assert(src.take(n as int) =~= src);
    }
    *chain = out;
}

/// Inserting `x` where every later link has a lower priority appends it to its
/// priority's links and leaves the others alone.
proof fn lemma_insert_keeps_prio_order(before: Seq<(i32, PosLink)>, pos: int, x: (i32, PosLink), p: i32)
    requires
        0 <= pos <= before.len(),
        forall|j: int| pos <= j < before.len() ==> (#[trigger] before[j]).0 < x.0,
    ensures
        before.insert(pos, x).filter(prio_is(p)) == (if x.0 == p {
            before.filter(prio_is(p)).push(x)
        } else {
            before.filter(prio_is(p))
        }),
{
    let a = before.take(pos);
    let b = before.skip(pos);
    assert(before =~= a + b);
    assert(before.insert(pos, x) =~= (a + seq![x]) + b);
    assert(seq![x] =~= Seq::<(i32, PosLink)>::empty().push(x));
    Seq::<(i32, PosLink)>::empty().lemma_filter_push(x, prio_is(p));
    assert(Seq::<(i32, PosLink)>::empty().filter(prio_is(p)) =~= Seq::<(i32, PosLink)>::empty()) by {
        reveal(Seq::filter);
    }
    Seq::filter_distributes_over_add(a, b, prio_is(p));
    Seq::filter_distributes_over_add(a + seq![x], b, prio_is(p));
    Seq::filter_distributes_over_add(a, seq![x], prio_is(p));
    if x.0 == p {
        assert forall|j: int| 0 <= j < b.len() implies !(prio_is(p))(b[j]) by {
            assert(b[j] == before[pos + j]);
        }
        lemma_filter_none_prio(b, p);
        assert(a.filter(prio_is(p)) + seq![x] + Seq::<(i32, PosLink)>::empty() =~= (a.filter(prio_is(p))
            + Seq::<(i32, PosLink)>::empty()).push(x));
    } else {
        assert(a.filter(prio_is(p)) + Seq::<(i32, PosLink)>::empty() =~= a.filter(prio_is(p)));
    }
}

/// Inserting `x` after every link of priority at least its own and before the
/// lower ones keeps the chain sorted.
proof fn lemma_insert_keeps_sorted(before: Seq<(i32, PosLink)>, pos: int, x: (i32, PosLink))
    requires
        prio_sorted(before),
        0 <= pos <= before.len(),
        forall|j: int| 0 <= j < pos ==> (#[trigger] before[j]).0 >= x.0,
        forall|j: int| pos <= j < before.len() ==> (#[trigger] before[j]).0 < x.0,
    ensures
        prio_sorted(before.insert(pos, x)),
{
    let out = before.insert(pos, x);
    assert forall|i: int, j: int| 0 <= i < j < out.len() implies out[i].0 >= out[j].0 by {
        if j < pos {
            assert(out[i] == before[i]);
            assert(out[j] == before[j]);
        } else if i < pos && j == pos {
            assert(out[i] == before[i]);
        } else if i < pos && j > pos {
            assert(out[i] == before[i]);
            assert(out[j] == before[j - 1]);
        } else if i == pos {
            assert(out[j] == before[j - 1]);
        } else {
            assert(out[i] == before[i - 1]);
            assert(out[j] == before[j - 1]);
        }
    }
}

/// Links none of whose priorities is `p` filter to nothing.
proof fn lemma_filter_none_prio(s: Seq<(i32, PosLink)>, p: i32)
    requires
        forall|i: int| 0 <= i < s.len() ==> !(prio_is(p))(s[i]),
    ensures
        s.filter(prio_is(p)) == Seq::<(i32, PosLink)>::empty(),
    decreases s.len(),
{
    reveal(Seq::filter);
    if s.len() > 0 {
        lemma_filter_none_prio(s.drop_last(), p);
    }
    assert(s.filter(prio_is(p)) =~= Seq::<(i32, PosLink)>::empty());
}

/// The first answer given along the chain, `fallback` when every link passes.
pub open spec fn spec_first_answer<T>(answers: Seq<Option<T>>, fallback: T) -> T
    decreases answers.len(),
{
    if answers.len() == 0 {
        fallback
    } else if answers[0] is Some {
        answers[0]->0
    } else {
        spec_first_answer(answers.drop_first(), fallback)
    }
}

/// Resolves a position along the chain: `answers` holds what each link gives,
/// in chain order (a script's answer for the id, or the user's drag position when
/// there is one); the first answer wins, and the caller's `fallback` position
/// stands when none answers.
pub fn first_answer<T: Copy>(answers: &[Option<T>], fallback: T) -> (r: T)
    ensures
        r == spec_first_answer(answers@, fallback),
{
    let n = answers.len();
    let mut k: usize = 0;
    assert(answers@.skip(0) =~= answers@);
    while k < n
        invariant
            0 <= k <= n,
            n == answers@.len(),
            forall|j: int| 0 <= j < k ==> answers@[j] is None,
            spec_first_answer(answers@, fallback) == spec_first_answer(answers@.skip(k as int), fallback),
        decreases n - k,
    {
        proof {
            assert(answers@.skip(k as int)[0] == answers@[k as int]);
            assert(answers@.skip(k as int).drop_first() =~= answers@.skip(k + 1));
        }
        if let Some(p) = answers[k] {
            return p;
        }
        k += 1;
    }
    proof {
        assert(answers@.skip(n as int).len() == 0);
    }
    fallback
}


// ───────────────────────── end of frame ─────────────────────────

/// Window of the first registered entry with id `f`, if any.
pub open spec fn focus_win_of(chain: Seq<&FocusEntry>, f: Seq<char>) -> Option<u32> {
    let i = first_index_of(chain_ids(chain), f);
    if i >= 0 {
        Some(chain[i].win)
    } else {
        None
    }
}

/// Focus, open drop-down and raised z after the end-of-frame steps, in order:
/// a press that no widget took drops the focus; the window that won the frame's
/// press (`press_old_z`: its z before raising) is raised, and a focus held in
/// another window is dropped; then the focus keys act on the ordered chain.
pub open spec fn spec_finish_frame(
    registered: Seq<&FocusEntry>,
    ordered: Seq<&FocusEntry>,
    focused: Option<Seq<char>>,
    combo_open: bool,
    down_edge: bool,
    any_pressed: bool,
    window_zs: Seq<u32>,
    press_old_z: Option<u32>,
    keys: FocusKeys,
) -> (Option<Seq<char>>, bool, Option<u32>) {
    let f1 = if down_edge && !any_pressed && focused is Some {
        None
    } else {
        focused
    };
    let f2 = match (press_old_z, f1) {
        (Some(oz), Some(f)) => match focus_win_of(registered, f) {
            Some(w) => if w != 0 && w != oz {
                None
            } else {
                f1
            },
            None => f1,
        },
        _ => f1,
    };
    let raised = match press_old_z {
        Some(_) => Some(raised_z(window_zs)),
        None => None,
    };
    let (f3, open) = spec_handle_focus_keys(ordered, f2, combo_open, keys);
    (f3, open, raised)
}

/// The end-of-frame steps on the focus and the window order (see
/// [`spec_finish_frame`]): `registered` is the frame's focus chain in
/// registration order, `ordered` the same chain ordered by window
/// ([`crate::focus::sort_chain_by_win`]). Returns the new focus, whether a
/// drop-down stays open, and the pressed window's new z.
pub fn finish_frame<'a>(
    registered: &[&'a FocusEntry],
    ordered: &[&'a FocusEntry],
    focused: Option<&str>,
    combo_open: bool,
    down_edge: bool,
    any_pressed: bool,
    window_zs: &[u32],
    press_old_z: Option<u32>,
    keys: FocusKeys,
) -> (r: (Option<String>, bool, Option<u32>))
    ensures
        spec_finish_frame(
            registered@,
            ordered@,
            match focused {
                Some(f) => Some(f@),
                None => None,
            },
            combo_open,
            down_edge,
            any_pressed,
            window_zs@,
            press_old_z,
            keys,
        ) == (
            match r.0 {
                Some(s) => Some(s@),
                None => None::<Seq<char>>,
            },
            r.1,
            r.2,
        ),
{
    let mut f: Option<&str> = focused;
    if blank_press_clears_focus(down_edge, any_pressed, f.is_some()) {
        f = None;
    }
    let mut raised: Option<u32> = None;
    if let Some(oz) = press_old_z {
        let fw = match f {
            Some(id) => match find_in_chain(registered, id) {
                Some(i) => Some(registered[i].win),
                None => None,
            },
            None => None,
        };
        let (z, clear) = resolve_win_press(window_zs, oz, fw);
        raised = Some(z);
        if clear {
            f = None;
        }
    }
    let (next, open) = handle_focus_keys(ordered, f, combo_open, keys);
    (next, open, raised)
}

/// When a window wins the frame's press (its z before raising is `old_z`) and
/// no key moves the focus: a focus on a widget registered in that same window,
/// or outside every window (z `0`), stays; a focus in any other window is
/// dropped. The window is raised in both cases.
pub proof fn law_press_keeps_focus_in_pressed_window(
    registered: Seq<&FocusEntry>,
    ordered: Seq<&FocusEntry>,
    f: Seq<char>,
    combo_open: bool,
    down_edge: bool,
    any_pressed: bool,
    window_zs: Seq<u32>,
    old_z: u32,
    keys: FocusKeys,
)
    requires
        !(down_edge && !any_pressed),
        focus_win_of(registered, f) is Some,
        first_index_of(chain_ids(ordered), f) >= 0,
        !keys.tab,
        !keys.arrow_down,
        !keys.arrow_up,
        !keys.escape,
    ensures
        ({
            let w = focus_win_of(registered, f)->0;
            let r = spec_finish_frame(
                registered,
                ordered,
                Some(f),
                combo_open,
                down_edge,
                any_pressed,
                window_zs,
                Some(old_z),
                keys,
            );
            &&& r.0 == (if w != 0 && w != old_z { None } else { Some(f) })
            &&& r.2 == Some(raised_z(window_zs))
        }),
{
}

/// A press that no widget responded to drops the keyboard focus, and without a
/// window winning the press nothing is raised (no key moving the focus).
pub proof fn law_blank_press_drops_focus(
    registered: Seq<&FocusEntry>,
    ordered: Seq<&FocusEntry>,
    focused: Option<Seq<char>>,
    combo_open: bool,
    window_zs: Seq<u32>,
    keys: FocusKeys,
)
    requires
        !keys.tab,
        !keys.arrow_down,
        !keys.arrow_up,
    ensures
        spec_finish_frame(registered, ordered, focused, combo_open, true, false, window_zs, None, keys).0 is None,
        spec_finish_frame(registered, ordered, focused, combo_open, true, false, window_zs, None, keys).2 is None,
{
}

/// At the end of a frame the focus is on a widget registered that frame, or on none.
pub proof fn law_frame_end_focus_registered(
    registered: Seq<&FocusEntry>,
    ordered: Seq<&FocusEntry>,
    focused: Option<Seq<char>>,
    combo_open: bool,
    down_edge: bool,
    any_pressed: bool,
    window_zs: Seq<u32>,
    press_old_z: Option<u32>,
    keys: FocusKeys,
)
    ensures
        ({
            let r = spec_finish_frame(
                registered,
                ordered,
                focused,
                combo_open,
                down_edge,
                any_pressed,
                window_zs,
                press_old_z,
                keys,
            );
            r.0 is Some ==> chain_ids(ordered).contains(r.0->0)
        }),
{
    let f1 = if down_edge && !any_pressed && focused is Some {
        None
    } else {
        focused
    };
    let f2 = match (press_old_z, f1) {
        (Some(oz), Some(f)) => match focus_win_of(registered, f) {
            Some(w) => if w != 0 && w != oz {
                None
            } else {
                f1
            },
            None => f1,
        },
        _ => f1,
    };
    crate::focus::lemma_focus_result_in_chain(ordered, f2, combo_open, keys);
}

} // verus!
