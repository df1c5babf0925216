use rjw_ui::focus::{sort_chain_by_win, FocusEntry, FocusKeys, FocusKind};
use rjw_ui::hit::WidgetState;
use rjw_ui::ui::{
    add_pos_handler, blank_press_clears_focus, combo_change, combo_key_pick, combo_pick, first_answer,
    finish_frame, frame_cursor, max_window_z, modal_zs, new_window_z, outranks_press_top, settle_window_drag, ComboChange,
    CursorIntent, PosLink, UiCursor, WIN_TOPMOST,
};
use std::collections::HashMap;

type Script = Box<dyn Fn(&str) -> Option<(f32, f32)>>;

/// Asks every link of the chain in order and lets the first answer win.
fn resolve_pos_link(
    chain: &[(i32, PosLink)],
    scripts: &[Script],
    panel_pos: &HashMap<String, (f32, f32)>,
    id: &str,
    pos: (f32, f32),
) -> (f32, f32) {
    let answers: Vec<Option<(f32, f32)>> = chain
        .iter()
        .map(|(_, link)| match link {
            PosLink::Script(i) => scripts[*i](id),
            PosLink::Drag => panel_pos.get(id).copied(),
        })
        .collect();
    first_answer(&answers, pos)
}

fn no_intent() -> CursorIntent {
    CursorIntent { text: false, grab: false, grabbing: false, window_drag: false, custom: None }
}

#[test]
fn new_windows_stack_above_real_windows() {
    assert_eq!(max_window_z(&[]), 0);
    assert_eq!(new_window_z(&[]), 1);
    assert_eq!(max_window_z(&[2, WIN_TOPMOST, 5, 1]), 5);
    assert_eq!(new_window_z(&[2, WIN_TOPMOST, 5, 1]), 6, "the topmost sentinel does not count");
    assert_eq!(new_window_z(&[WIN_TOPMOST]), 1);
    assert_eq!(new_window_z(&[WIN_TOPMOST - 1]), WIN_TOPMOST - 1, "never onto the sentinel");
}

#[test]
fn press_goes_to_the_highest_window() {
    let mut top: Option<u32> = None;
    for z in [2u32, 7, 3, 7, 1] {
        if outranks_press_top(top, z) {
            top = Some(z);
        }
    }
    assert_eq!(top, Some(7));
    assert!(outranks_press_top(None, 0));
    assert!(!outranks_press_top(Some(4), 4));
    assert!(outranks_press_top(Some(4), 5));
}

#[test]
fn other_windows_stop_dragging_when_released() {
    let dragging = WidgetState { dragging: true, ..WidgetState::default() };
    let mut a = dragging;
    settle_window_drag(&mut a, true, false);
    assert!(!a.dragging, "another window's released drag stops");
    let mut b = dragging;
    settle_window_drag(&mut b, true, true);
    assert!(b.dragging, "the pressed window keeps its drag");
    let mut c = dragging;
    settle_window_drag(&mut c, false, false);
    assert!(c.dragging, "controls inside windows keep their drags");
    let mut d = WidgetState { dragging: true, pressed: true, ..WidgetState::default() };
    settle_window_drag(&mut d, true, false);
    assert!(d.dragging, "a still-held window keeps its drag");
}

#[test]
fn blank_press_drops_focus() {
    assert!(blank_press_clears_focus(true, false, true));
    assert!(!blank_press_clears_focus(true, true, true));
    assert!(!blank_press_clears_focus(false, false, true));
    assert!(!blank_press_clears_focus(true, false, false));
}

#[test]
fn cursor_priorities() {
    let all = CursorIntent {
        text: true,
        grab: true,
        grabbing: true,
        window_drag: true,
        custom: Some(UiCursor::EwResize),
    };
    assert_eq!(frame_cursor(all, false), (Some(UiCursor::Default), true));
    let no_drag = CursorIntent { window_drag: false, ..all };
    assert_eq!(frame_cursor(no_drag, false), (Some(UiCursor::Grabbing), true));
    let custom = CursorIntent { grabbing: false, ..no_drag };
    assert_eq!(frame_cursor(custom, false), (Some(UiCursor::EwResize), true));
    let text = CursorIntent { custom: None, ..custom };
    assert_eq!(frame_cursor(text, false), (Some(UiCursor::Text), true));
    let grab = CursorIntent { text: false, ..text };
    assert_eq!(frame_cursor(grab, true), (Some(UiCursor::Grab), true));
}

#[test]
fn idle_cursor_resets_once_then_stays_alone() {
    let (first, set1) = frame_cursor(no_intent(), true);
    assert_eq!((first, set1), (Some(UiCursor::Default), false));
    assert_eq!(frame_cursor(no_intent(), set1), (None, false));
}

#[test]
fn combo_arrow_keys_wrap() {
    assert_eq!(combo_key_pick(Some(0), 3, true, false), Some(2));
    assert_eq!(combo_key_pick(Some(2), 3, false, true), Some(0));
    assert_eq!(combo_key_pick(Some(1), 3, false, true), Some(2));
    assert_eq!(combo_key_pick(None, 3, false, true), Some(1));
    assert_eq!(combo_key_pick(Some(9), 3, true, false), Some(1), "past the end counts as the last");
    assert_eq!(combo_key_pick(Some(1), 3, true, true), Some(2), "Down wins");
    assert_eq!(combo_key_pick(Some(1), 3, false, false), None);
    assert_eq!(combo_key_pick(Some(1), 0, true, true), None);
    assert_eq!(combo_key_pick(Some(0), 1, false, true), Some(0));
}

#[test]
fn combo_open_and_close() {
    assert_eq!(combo_change(false, true, false, false, false), ComboChange::Open);
    assert_eq!(combo_change(true, true, false, false, false), ComboChange::Close);
    assert_eq!(combo_change(true, false, true, false, false), ComboChange::Close);
    assert_eq!(combo_change(true, false, false, true, false), ComboChange::Close);
    assert_eq!(combo_change(false, false, true, true, false), ComboChange::Keep, "closed lists ignore Escape");
    assert_eq!(combo_change(true, false, false, false, true), ComboChange::Close);
    assert_eq!(combo_change(true, false, false, false, false), ComboChange::Keep);
}

#[test]
fn pos_chain_resolves_by_priority() {
    let scripts: Vec<Script> = vec![
        Box::new(|_| Some((1.0, 1.0))),
        Box::new(|_| Some((2.0, 2.0))),
        Box::new(|id| if id == "scripted" { Some((7.0, 7.0)) } else { None }),
    ];
    let mut chain: Vec<(i32, PosLink)> = vec![(0, PosLink::Drag)];
    add_pos_handler(&mut chain, 10, 0);
    add_pos_handler(&mut chain, -10, 1);
    assert_eq!(chain, vec![(10, PosLink::Script(0)), (0, PosLink::Drag), (-10, PosLink::Script(1))]);
    let mut panel_pos = HashMap::new();
    panel_pos.insert("w".to_owned(), (3.0, 3.0));
    assert_eq!(resolve_pos_link(&chain, &scripts, &panel_pos, "w", (0.0, 0.0)), (1.0, 1.0));
    chain.retain(|(p, _)| *p != 10);
    assert_eq!(resolve_pos_link(&chain, &scripts, &panel_pos, "w", (0.0, 0.0)), (3.0, 3.0));
    assert_eq!(resolve_pos_link(&chain, &scripts, &panel_pos, "not_dragged", (0.0, 0.0)), (2.0, 2.0));
    chain.retain(|(p, _)| *p != -10);
    assert_eq!(resolve_pos_link(&chain, &scripts, &panel_pos, "w", (0.0, 0.0)), (3.0, 3.0));
    assert_eq!(resolve_pos_link(&chain, &scripts, &panel_pos, "other", (9.0, 9.0)), (9.0, 9.0));
    let mut chain2: Vec<(i32, PosLink)> = vec![(0, PosLink::Drag)];
    add_pos_handler(&mut chain2, 5, 2);
    assert_eq!(resolve_pos_link(&chain2, &scripts, &panel_pos, "scripted", (0.0, 0.0)), (7.0, 7.0));
    assert_eq!(resolve_pos_link(&chain2, &scripts, &panel_pos, "w", (0.0, 0.0)), (3.0, 3.0));
}

#[test]
fn equal_priorities_keep_registration_order() {
    let mut chain: Vec<(i32, PosLink)> = vec![(0, PosLink::Drag)];
    add_pos_handler(&mut chain, 0, 0);
    add_pos_handler(&mut chain, 3, 1);
    add_pos_handler(&mut chain, 0, 2);
    add_pos_handler(&mut chain, 3, 3);
    assert_eq!(
        chain,
        vec![
            (3, PosLink::Script(1)),
            (3, PosLink::Script(3)),
            (0, PosLink::Drag),
            (0, PosLink::Script(0)),
            (0, PosLink::Script(2)),
        ]
    );
    let mut unsorted = vec![(-1, PosLink::Script(0)), (4, PosLink::Drag)];
    add_pos_handler(&mut unsorted, 2, 1);
    assert_eq!(unsorted, vec![(4, PosLink::Drag), (2, PosLink::Script(1)), (-1, PosLink::Script(0))]);
    assert_eq!(first_answer::<u8>(&[], 5), 5);
    assert_eq!(first_answer(&[None, Some(2u8), Some(3)], 5), 2);
}

#[test]
fn modal_goes_above_every_window() {
    assert_eq!(modal_zs(&[]), (1, 2));
    assert_eq!(modal_zs(&[4, WIN_TOPMOST, 2]), (5, 6));
    assert_eq!(modal_zs(&[WIN_TOPMOST - 1]), (WIN_TOPMOST - 2, WIN_TOPMOST - 1), "below the sentinel");
}

#[test]
fn combo_up_then_down_comes_back() {
    for n in 1u32..5 {
        for c in 0..n {
            let up = combo_key_pick(Some(c), n, true, false);
            assert_eq!(combo_key_pick(up, n, false, true), Some(c));
            let down = combo_key_pick(Some(c), n, false, true);
            assert_eq!(combo_key_pick(down, n, true, false), Some(c));
        }
    }
}

#[test]
fn closed_combo_picks_nothing() {
    assert_eq!(combo_pick(false, true, Some(0), 3, false, true, Some(2)), None);
    assert_eq!(combo_pick(true, true, Some(0), 3, false, true, None), Some(1));
    assert_eq!(combo_pick(true, true, Some(0), 3, false, true, Some(2)), Some(2), "a click in the list wins");
    assert_eq!(combo_pick(true, false, Some(0), 3, false, true, None), None, "keys need the focus");
    assert_eq!(combo_pick(true, true, None, 0, true, true, None), None);
}

fn button(id: &str, win: u32) -> FocusEntry {
    FocusEntry { id: id.to_owned(), win, kind: FocusKind::Button, depth: 0 }
}

#[test]
fn frame_end_steps_in_order() {
    let reg = [button("w2/b", 2), button("top", 0), button("w1/a", 1)];
    let registered: Vec<&FocusEntry> = reg.iter().collect();
    let mut ordered = registered.clone();
    sort_chain_by_win(&mut ordered);
    let none = FocusKeys::default();
    // a press nothing took drops the focus
    assert_eq!(finish_frame(&registered, &ordered, Some("w1/a"), false, true, false, &[1, 2], None, none), (None, false, None));
    // window 2 won the press: it is raised, and focus in window 1 is dropped
    assert_eq!(finish_frame(&registered, &ordered, Some("w1/a"), false, true, true, &[1, 2], Some(2), none), (None, false, Some(3)));
    // focus in the pressed window or outside windows stays
    assert_eq!(
        finish_frame(&registered, &ordered, Some("top"), false, true, true, &[1, 2], Some(2), none),
        (Some("top".to_owned()), false, Some(3))
    );
    // then Tab moves along the ordered chain: top (0) -> w1/a (1)
    let tab = FocusKeys { tab: true, ..Default::default() };
    assert_eq!(
        finish_frame(&registered, &ordered, Some("top"), true, false, false, &[1, 2], None, tab),
        (Some("w1/a".to_owned()), true, None)
    );
}
