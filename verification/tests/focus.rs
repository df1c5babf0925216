use rjw_ui::focus::{focus_step, handle_focus_keys, sort_chain_by_win, FocusEntry, FocusKeys, FocusKind};

fn entry(id: &str, win: u32) -> FocusEntry {
    FocusEntry { id: id.to_owned(), win, kind: FocusKind::Button, depth: 0 }
}

fn refs(chain: &[FocusEntry]) -> Vec<&FocusEntry> {
    chain.iter().collect()
}

#[test]
fn focus_step_forward_wraps() {
    let chain = [entry("a", 0), entry("b", 0), entry("c", 0)];
    let c = refs(&chain);
    assert_eq!(focus_step(&c, Some("a"), 1).as_deref(), Some("b"));
    assert_eq!(focus_step(&c, Some("b"), 1).as_deref(), Some("c"));
    assert_eq!(focus_step(&c, Some("c"), 1).as_deref(), Some("a"), "wraps to the first");
}

#[test]
fn focus_step_backward_wraps() {
    let chain = [entry("a", 0), entry("b", 0), entry("c", 0)];
    let c = refs(&chain);
    assert_eq!(focus_step(&c, Some("c"), -1).as_deref(), Some("b"));
    assert_eq!(focus_step(&c, Some("a"), -1).as_deref(), Some("c"), "wraps to the last");
}

#[test]
fn focus_step_no_current_starts_at_ends() {
    let chain = [entry("a", 0), entry("b", 0)];
    let c = refs(&chain);
    assert_eq!(focus_step(&c, None, 1).as_deref(), Some("a"), "forward starts at the first");
    assert_eq!(focus_step(&c, None, -1).as_deref(), Some("b"), "back starts at the last");
}

#[test]
fn focus_step_current_missing_restarts() {
    let chain = [entry("a", 0), entry("b", 0)];
    let c = refs(&chain);
    assert_eq!(focus_step(&c, Some("gone"), 1).as_deref(), Some("a"));
    assert_eq!(focus_step(&c, Some("gone"), -1).as_deref(), Some("b"));
}

#[test]
fn focus_step_empty_chain() {
    let chain: [FocusEntry; 0] = [];
    let c = refs(&chain);
    assert_eq!(focus_step(&c, None, 1), None);
    assert_eq!(focus_step(&c, Some("x"), 1), None);
}

#[test]
fn stable_sort_by_win_preserves_registration_order() {
    let chain = vec![entry("a", 0), entry("b", 1), entry("c", 0)];
    let mut r = refs(&chain);
    sort_chain_by_win(&mut r);
    let ids: Vec<&str> = r.iter().map(|e| e.id.as_str()).collect();
    assert_eq!(ids, ["a", "c", "b"]);
}

#[test]
fn sort_chain_many_windows() {
    let chain = vec![entry("p", 7), entry("q", 2), entry("r", 7), entry("s", 0), entry("t", 2)];
    let mut r = refs(&chain);
    sort_chain_by_win(&mut r);
    let ids: Vec<&str> = r.iter().map(|e| e.id.as_str()).collect();
    assert_eq!(ids, ["s", "q", "t", "p", "r"]);
}

#[test]
fn focus_step_large_steps_wrap() {
    let chain = [entry("a", 0), entry("b", 0), entry("c", 0)];
    let c = refs(&chain);
    assert_eq!(focus_step(&c, Some("b"), 4).as_deref(), Some("c"));
    assert_eq!(focus_step(&c, Some("b"), -5).as_deref(), Some("c"));
    assert_eq!(focus_step(&c, Some("a"), i32::MAX).as_deref(), Some("b"));
}

#[test]
fn forward_then_back_returns_with_distinct_ids() {
    let chain = [entry("a", 0), entry("b", 0), entry("c", 0)];
    let c = refs(&chain);
    for id in ["a", "b", "c"] {
        let f = focus_step(&c, Some(id), 1).unwrap();
        assert_eq!(focus_step(&c, Some(&f), -1).as_deref(), Some(id));
    }
}

#[test]
fn focus_keys_tab_moves_and_escape_clears() {
    let chain = [entry("a", 0), entry("b", 0)];
    let c = refs(&chain);
    let tab = FocusKeys { tab: true, ..Default::default() };
    assert_eq!(handle_focus_keys(&c, Some("a"), false, tab), (Some("b".to_owned()), false));
    let back = FocusKeys { tab: true, shift: true, ..Default::default() };
    assert_eq!(handle_focus_keys(&c, Some("a"), false, back), (Some("b".to_owned()), false));
    let esc = FocusKeys { escape: true, ..Default::default() };
    assert_eq!(handle_focus_keys(&c, Some("a"), true, esc), (Some("a".to_owned()), false), "escape closes the dropdown first");
    assert_eq!(handle_focus_keys(&c, Some("a"), false, esc), (None, false));
    let composing = FocusKeys { tab: true, composing: true, ..Default::default() };
    assert_eq!(handle_focus_keys(&c, Some("a"), false, composing), (Some("a".to_owned()), false));
    assert_eq!(handle_focus_keys(&c, Some("gone"), true, FocusKeys::default()), (None, true), "unregistered focus is dropped");
}

#[test]
fn focus_keys_arrows_skip_text_inputs() {
    let mut t = entry("t", 0);
    t.kind = FocusKind::TextInput;
    let chain = [entry("a", 0), t, entry("c", 0)];
    let c = refs(&chain);
    let down = FocusKeys { arrow_down: true, ..Default::default() };
    let up = FocusKeys { arrow_up: true, ..Default::default() };
    assert_eq!(handle_focus_keys(&c, Some("t"), false, down).0.as_deref(), Some("t"), "text input keeps arrows");
    assert_eq!(handle_focus_keys(&c, Some("a"), false, down).0.as_deref(), Some("t"));
    assert_eq!(handle_focus_keys(&c, Some("c"), false, up).0.as_deref(), Some("t"));
    assert_eq!(handle_focus_keys(&c, None, false, up).0.as_deref(), Some("c"));
}
