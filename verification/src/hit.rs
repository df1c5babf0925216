//! Interaction state machines of buttons, check boxes, radios, inputs and sliders.
//!
//! - `pressed`: from a press (down edge while the pointer is on the widget) until release;
//! - `clicked`: press and release both on the widget;
//! - `released`: the button was released this frame, wherever the pointer is;
//! - dragging out keeps `pressed`; releasing outside is not a click.
use vstd::prelude::*;
use crate::focus::FocusKind;
use crate::state::{ButtonState, CheckboxState};
use crate::chars::{chars_of, str_eq, string_from_chars};

verus! {

/// Per-frame state of one input button: whether it is held, and whether that
/// changed this frame.
#[derive(Clone, Copy, Debug, PartialEq, Eq)]
pub struct KeyState {
    /// Held down now.
    pub pressed: bool,
    /// Changed state this frame.
    pub edge: bool,
}

impl KeyState {
    /// A button state from "held now" and "changed this frame".
    pub fn new(pressed: bool, edge: bool) -> (r: Self)
        ensures
            r.pressed == pressed,
            r.edge == edge,
    {
        KeyState { pressed, edge }
    }

    /// Held down now.
    pub fn pressed(&self) -> (r: bool)
        ensures
            r == self.pressed,
    {
        self.pressed
    }

    /// Went down this frame.
    pub fn down_edge(&self) -> (r: bool)
        ensures
            r == (self.pressed && self.edge),
    {
        self.pressed && self.edge
    }

    /// Went up this frame.
    pub fn up_edge(&self) -> (r: bool)
        ensures
            r == (!self.pressed && self.edge),
    {
        !self.pressed && self.edge
    }
}

/// Persistent interaction and editing state of one widget (kept across frames by id).
#[derive(Clone, Copy, Debug, Default, PartialEq, Eq)]
pub struct WidgetState {
    /// The pointer is on the widget this frame (also while pressed).
    pub hovered: bool,
    /// Pressed and not yet released.
    pub pressed: bool,
    /// A click completed (press and release on the widget); cleared at frame end.
    pub clicked: bool,
    /// A slider drag is in progress.
    pub dragging: bool,
    /// Text caret (character index).
    pub caret: usize,
    /// Selection anchor (character index); the selection is `[min(anchor, caret), max)`.
    pub sel_anchor: Option<usize>,
}

/// Events of one interaction frame.
#[derive(Clone, Copy, Debug, Default, PartialEq, Eq)]
pub struct InteractEvents {
    pub pressed: bool,
    pub clicked: bool,
    pub released: bool,
}

/// One step of the press/release state machine: the events of the frame and the
/// widget state after it.
pub open spec fn spec_interact(ws: WidgetState, hit: bool, btn: KeyState) -> (WidgetState, InteractEvents) {
    let down = btn.pressed && btn.edge;
    let pressed_now = ws.pressed || (down && hit);
    let released = pressed_now && !btn.pressed;
    let clicked = released && hit;
    (
        WidgetState {
            hovered: hit,
            pressed: pressed_now && btn.pressed,
            clicked: ws.clicked || clicked,
            ..ws
        },
        InteractEvents { pressed: down && hit, clicked, released },
    )
}

/// Updates the press/release state machine of a button, check box, radio or
/// input for one frame. `hit`: the pointer is on the widget; `btn`: the primary
/// mouse button. Returns the frame's events.
pub fn update_interact(ws: &mut WidgetState, hit: bool, btn: KeyState) -> (ev: InteractEvents)
    ensures
        (*final(ws), ev) == spec_interact(*old(ws), hit, btn),
{
    let mut ev = InteractEvents { pressed: false, clicked: false, released: false };
    if btn.down_edge() && hit {
        ws.pressed = true;
        ev.pressed = true;
    }
    if ws.pressed && !btn.pressed() {
        ws.pressed = false;
        ev.released = true;
        if hit {
            ws.clicked = true;
            ev.clicked = true;
        }
    }
    ws.hovered = hit;
    ev
}

/// Slider drag state machine: a press on the widget starts the drag, a release
/// ends it. Returns whether the drag is active this frame.
pub fn update_drag(ws: &mut WidgetState, hit: bool, btn: KeyState) -> (active: bool)
    ensures
        final(ws).dragging == ((old(ws).dragging && btn.pressed) || (btn.pressed && btn.edge
            && hit)),
        active == final(ws).dragging,
        *final(ws) == (WidgetState { dragging: final(ws).dragging, ..*old(ws) }),
{
    if ws.dragging && !btn.pressed() {
        ws.dragging = false;
    }
    if btn.down_edge() && hit {
        ws.dragging = true;
    }
    ws.dragging
}

/// Clears the one-frame edge flags (`clicked`) at the end of a frame.
pub fn clear_frame_flags(ws: &mut WidgetState)
    ensures
        *final(ws) == (WidgetState { clicked: false, ..*old(ws) }),
{
    ws.clicked = false;
}

/// Keyboard activation of a focused widget: Enter or Space pressed this frame,
/// not while an input method is composing. Sliders and text inputs handle keys
/// themselves and are never activated this way.
pub fn key_click(
    focused: bool,
    kind: FocusKind,
    composing: bool,
    enter_down: bool,
    space_down: bool,
) -> (r: bool)
    ensures
        r == (focused && kind != FocusKind::TextInput && kind != FocusKind::Slider && !composing
            && (enter_down || space_down)),
{
    if !focused || kind == FocusKind::TextInput || kind == FocusKind::Slider {
        return false;
    }
    if composing {
        return false;
    }
    enter_down || space_down
}

/// Events of a frame in which a keyboard activation may stand in for a click.
pub open spec fn spec_activate(ws: WidgetState, hit: bool, btn: KeyState, key_click: bool) -> (WidgetState, InteractEvents) {
    let (w1, ev) = spec_interact(ws, hit, btn);
    if key_click {
        (WidgetState { pressed: true, ..w1 }, InteractEvents { clicked: true, ..ev })
    } else {
        (w1, ev)
    }
}

/// One frame of a button: pointer state machine plus keyboard activation (which
/// counts as a click and shows the button pressed).
pub fn button_interact(ws: &mut WidgetState, hit: bool, btn: KeyState, key_click: bool) -> (r: (
    ButtonState,
    InteractEvents,
))
    ensures
        (*final(ws), r.1) == spec_activate(*old(ws), hit, btn, key_click),
        r.0@ == (final(ws).hovered, final(ws).pressed, r.1.clicked, r.1.released),
{
    let mut ev = update_interact(ws, hit, btn);
    if key_click {
        ws.pressed = true;
        ev.clicked = true;
    }
    (ButtonState::new(ws.hovered, ws.pressed, ev.clicked, ev.released), ev)
}

/// One frame of a check box showing `checked`: a click (pointer or keyboard) toggles.
pub fn checkbox_interact(
    ws: &mut WidgetState,
    hit: bool,
    btn: KeyState,
    key_click: bool,
    checked: bool,
) -> (r: (CheckboxState, InteractEvents))
    ensures
        (*final(ws), r.1) == spec_activate(*old(ws), hit, btn, key_click),
        r.0@ == (final(ws).hovered, final(ws).pressed, checked, r.1.clicked, r.1.clicked),
{
    let mut ev = update_interact(ws, hit, btn);
    if key_click {
        ws.pressed = true;
        ev.clicked = true;
    }
    (CheckboxState::new(ws.hovered, ws.pressed, checked, ev.clicked, ev.clicked), ev)
}

/// One frame of a radio button that was the group's selection (`was_checked`) or
/// not: a click selects it; it toggles only when it was not selected before.
pub fn radio_interact(
    ws: &mut WidgetState,
    hit: bool,
    btn: KeyState,
    key_click: bool,
    was_checked: bool,
) -> (r: (CheckboxState, InteractEvents))
    ensures
        (*final(ws), r.1) == spec_activate(*old(ws), hit, btn, key_click),
        r.0@ == (
            final(ws).hovered,
            final(ws).pressed,
            was_checked || r.1.clicked,
            r.1.clicked && !was_checked,
            r.1.clicked,
        ),
{
    let mut ev = update_interact(ws, hit, btn);
    if key_click {
        ws.pressed = true;
        ev.clicked = true;
    }
    let checked = was_checked || ev.clicked;
    (CheckboxState::new(ws.hovered, ws.pressed, checked, ev.clicked && !was_checked, ev.clicked), ev)
}

/// Widget state after one frame of pointer text selection (see [`pointer_select`]),
/// and whether the widget takes the keyboard focus.
pub open spec fn spec_pointer_select(
    ws: WidgetState,
    ev: InteractEvents,
    held: bool,
    on_text: bool,
    needs_anchor: bool,
    click_caret: Option<usize>,
    drag_caret: Option<usize>,
    moved: bool,
) -> (WidgetState, bool) {
    let w1 = if ev.pressed {
        if on_text {
            let c = match click_caret {
                Some(c) => c,
                None => ws.caret,
            };
            WidgetState { caret: c, sel_anchor: Some(c), ..ws }
        } else {
            ws
        }
    } else if ws.pressed && held && (!needs_anchor || ws.sel_anchor is Some) && moved
        && drag_caret is Some {
        WidgetState { caret: drag_caret->0, ..ws }
    } else {
        ws
    };
    let w2 = if ev.released && w1.sel_anchor == Some(w1.caret) {
        WidgetState { sel_anchor: None, ..w1 }
    } else {
        w1
    };
    (w2, ev.pressed && on_text)
}

/// One frame of text selection with the pointer in a text input or text area,
/// after [`update_interact`] reported `ev` (`ws` is the state after that step;
/// `held`: the button is down now).
/// - A press on the text (`on_text`; a text area's scroll-bar strip is not text)
///   puts the caret at `click_caret` (the caret under the pointer, when known),
///   anchors the selection there and takes the keyboard focus (the result).
/// - While held, once the pointer has moved past the drag threshold (`moved`), the
///   caret follows `drag_caret`; with `needs_anchor` (text areas) only while a
///   selection anchor exists. The selection is then `[anchor, caret)`.
/// - On release, an anchor still at the caret (a plain click) is dropped, so that
///   a later unshifted arrow key does not extend a stale selection.
pub fn pointer_select(
    ws: &mut WidgetState,
    ev: InteractEvents,
    held: bool,
    on_text: bool,
    needs_anchor: bool,
    click_caret: Option<usize>,
    drag_caret: Option<usize>,
    moved: bool,
) -> (focus: bool)
    ensures
        (*final(ws), focus) == spec_pointer_select(
            *old(ws),
            ev,
            held,
            on_text,
            needs_anchor,
            click_caret,
            drag_caret,
            moved,
        ),
{
    let mut focus = false;
    if ev.pressed {
        if on_text {
            focus = true;
            if let Some(c) = click_caret {
                ws.caret = c;
            }
            ws.sel_anchor = Some(ws.caret);
        }
    } else if ws.pressed && held && (!needs_anchor || ws.sel_anchor.is_some()) {
        if moved {
            if let Some(c) = drag_caret {
                ws.caret = c;
            }
        }
    }
    if ev.released {
        if ws.sel_anchor == Some(ws.caret) {
            ws.sel_anchor = None;
        }
    }
    focus
}

/// The text of an optional id.
pub open spec fn opt_text(o: Option<String>) -> Option<Seq<char>> {
    match o {
        Some(s) => Some(s@),
        None => None,
    }
}

/// Whether the radio `id` is its group's selection (`selected`: the id the group
/// has selected, if any).
pub open spec fn radio_checked(selected: Option<Seq<char>>, id: Seq<char>) -> bool {
    selected == Some(id)
}

/// A radio's frame on its group's selection: a click (pointer or keyboard) makes
/// `id` the group's selection. Returns whether the radio is checked afterwards.
pub fn radio_select(selected: &mut Option<String>, id: &str, clicked: bool) -> (checked: bool)
    ensures
        opt_text(*final(selected)) == (if clicked {
            Some(id@)
        } else {
            opt_text(*old(selected))
        }),
        checked == radio_checked(opt_text(*final(selected)), id@),
{
    if clicked {
        let v = chars_of(id);
        *selected = Some(string_from_chars(&v));
    }
    match selected {
        Some(s) => str_eq(s.as_str(), id),
        None => false,
    }
}

// ───────────────────────── laws ─────────────────────────

/// A click happens only on a release with the pointer on the widget.
pub proof fn law_click_is_release_inside(ws: WidgetState, hit: bool, btn: KeyState)
    ensures
        spec_interact(ws, hit, btn).1.clicked ==> spec_interact(ws, hit, btn).1.released && hit,
{
}

/// A release is reported only for a widget that was pressed before this frame.
pub proof fn law_release_needs_prior_press(ws: WidgetState, hit: bool, btn: KeyState)
    ensures
        spec_interact(ws, hit, btn).1.released ==> ws.pressed,
{
}

/// A press outside the widget is ignored.
pub proof fn law_press_outside_ignored(ws: WidgetState, btn: KeyState)
    requires
        !ws.pressed,
    ensures
        !spec_interact(ws, false, btn).0.pressed,
        !spec_interact(ws, false, btn).1.pressed,
        !spec_interact(ws, false, btn).1.released,
        !spec_interact(ws, false, btn).1.clicked,
{
}

/// While the button stays held the widget stays pressed, even with the pointer outside.
pub proof fn law_drag_out_keeps_pressed(ws: WidgetState, hit: bool, btn: KeyState)
    requires
        ws.pressed,
        btn.pressed,
    ensures
        spec_interact(ws, hit, btn).0.pressed,
        !spec_interact(ws, hit, btn).1.released,
{
}

/// Pressing on the widget and releasing on it in the next frame is a click.
pub proof fn law_press_then_release_inside_clicks(ws: WidgetState, down: KeyState, up: KeyState)
    requires
        down.pressed && down.edge,
        !up.pressed,
    ensures
        spec_interact(spec_interact(ws, true, down).0, true, up).1.clicked,
        !spec_interact(spec_interact(ws, true, down).0, true, up).0.pressed,
{
}

/// Hover follows the pointer.
pub proof fn law_hover_tracks_pointer(ws: WidgetState, hit: bool, btn: KeyState)
    ensures
        spec_interact(ws, hit, btn).0.hovered == hit,
{
}

/// Keyboard activation always counts as a click.
pub proof fn law_key_click_clicks(ws: WidgetState, hit: bool, btn: KeyState)
    ensures
        spec_activate(ws, hit, btn, true).1.clicked,
        spec_activate(ws, hit, btn, true).0.pressed,
{
}


/// A plain click in a text field (press on the text, release without moving)
/// leaves the caret where the press put it and selects nothing.
pub proof fn law_plain_click_selects_nothing(
    ws: WidgetState,
    down: KeyState,
    up: KeyState,
    hit: bool,
    needs_anchor: bool,
    c: usize,
)
    requires
        !ws.pressed,
        down.pressed && down.edge,
        !up.pressed,
    ensures
        ({
            let (w1, e1) = spec_interact(ws, true, down);
            let (s1, f1) = spec_pointer_select(w1, e1, true, true, needs_anchor, Some(c), None, false);
            let (w2, e2) = spec_interact(s1, hit, up);
            let (s2, f2) = spec_pointer_select(w2, e2, false, true, needs_anchor, None, None, false);
            f1 && !f2 && s2.caret == c && s2.sel_anchor is None
        }),
{
}

/// Pressing at `c1`, dragging to `c2` and releasing selects the characters
/// between them: the anchor stays at `c1` and the caret ends at `c2` (nothing is
/// selected when they coincide).
pub proof fn law_drag_selects_between(
    ws: WidgetState,
    down: KeyState,
    hold: KeyState,
    up: KeyState,
    hit2: bool,
    hit3: bool,
    needs_anchor: bool,
    c1: usize,
    c2: usize,
)
    requires
        !ws.pressed,
        down.pressed && down.edge,
        hold.pressed && !hold.edge,
        !up.pressed,
    ensures
        ({
            let (w1, e1) = spec_interact(ws, true, down);
            let (s1, _f1) = spec_pointer_select(w1, e1, true, true, needs_anchor, Some(c1), None, false);
            let (w2, e2) = spec_interact(s1, hit2, hold);
            let (s2, _f2) = spec_pointer_select(w2, e2, true, true, needs_anchor, None, Some(c2), true);
            let (w3, e3) = spec_interact(s2, hit3, up);
            let (s3, _f3) = spec_pointer_select(w3, e3, false, true, needs_anchor, None, None, false);
            &&& s3.caret == c2
            &&& s3.sel_anchor == (if c1 == c2 { None } else { Some(c1) })
        }),
{
}


/// A radio group has at most one selection: two different radios are never both
/// checked, and a click on one leaves it the only checked radio of its group.
pub proof fn law_radio_single_selection(selected: Option<Seq<char>>, a: Seq<char>, b: Seq<char>)
    requires
        a != b,
    ensures
        !(radio_checked(selected, a) && radio_checked(selected, b)),
        radio_checked(Some(a), a),
        !radio_checked(Some(a), b),
{
}

} // verus!
