use rjw_ui::draw::{sort_draw_queue, sort_submit_groups, DrawClass, GROUP_DEBUG, GROUP_GRAPHIC, GROUP_TEXT};

/// Sort key of a draw command: `(win, depth, elem, group, seq)`.
fn key(win: u32, depth: u32, elem: u32, class: DrawClass, seq: u32) -> (u32, u32, u32, u8, u32) {
    (win, depth, elem, class.group(), seq)
}

#[test]
fn draw_kind_group_graphic_before_text() {
    assert_eq!(DrawClass::Solid.group(), 0);
    assert_eq!(DrawClass::Border.group(), 0);
    assert_eq!(DrawClass::Caret.group(), 0);
    assert_eq!(DrawClass::Text.group(), 1);
    let mut cmds = vec![
        key(0, 0, 1, DrawClass::Text, 2),
        key(0, 0, 1, DrawClass::Solid, 1),
        key(1, 0, 2, DrawClass::Solid, 3),
        key(1, 0, 2, DrawClass::Text, 4),
    ];
    sort_draw_queue(&mut cmds);
    let order: Vec<u32> = cmds.iter().map(|k| k.4).collect();
    assert_eq!(order, vec![1, 2, 3, 4]);
}

#[test]
fn debug_kind_group_is_last() {
    assert_eq!(DrawClass::Debug.group(), 2);
    assert_eq!(DrawClass::Solid.group(), 0);
}

#[test]
fn overlapping_elements_follow_record_order() {
    let mut cmds = vec![key(1, 1, 1, DrawClass::Text, 1), key(1, 1, 2, DrawClass::Solid, 2)];
    sort_draw_queue(&mut cmds);
    let order: Vec<u32> = cmds.iter().map(|k| k.4).collect();
    assert_eq!(order, vec![1, 2]);
    let mut inner = vec![key(1, 1, 3, DrawClass::Text, 3), key(1, 1, 3, DrawClass::Solid, 2)];
    sort_draw_queue(&mut inner);
    let order: Vec<u32> = inner.iter().map(|k| k.4).collect();
    assert_eq!(order, vec![2, 3]);
}

#[test]
fn every_class_has_its_group() {
    assert_eq!(DrawClass::RoundedRect.group(), GROUP_GRAPHIC);
    assert_eq!(DrawClass::Gradient.group(), GROUP_GRAPHIC);
    assert_eq!(DrawClass::Text.group(), GROUP_TEXT);
    assert_eq!(DrawClass::Debug.group(), GROUP_DEBUG);
}

#[test]
fn draw_queue_windows_then_depth_then_elements() {
    let mut cmds = vec![
        (2, 0, 0, GROUP_GRAPHIC, 9),
        (0, 1, 5, GROUP_TEXT, 8),
        (0, 1, 5, GROUP_GRAPHIC, 7),
        (0, 0, 9, GROUP_TEXT, 6),
        (1, 0, 1, GROUP_GRAPHIC, 5),
        (0, 1, 4, GROUP_TEXT, 4),
    ];
    sort_draw_queue(&mut cmds);
    let order: Vec<u32> = cmds.iter().map(|k| k.4).collect();
    assert_eq!(order, vec![6, 4, 7, 8, 5, 9]);
    let mut empty: Vec<(u32, u32, u32, u8, u32)> = Vec::new();
    sort_draw_queue(&mut empty);
    assert!(empty.is_empty());
}

#[test]
fn submission_keeps_later_elements_over_earlier_text() {
    let g = GROUP_GRAPHIC;
    let t = GROUP_TEXT;
    // window 1: element 1 has text, element 2 (recorded later) a shape over it
    let mut groups = vec![(1u32, 2u32, g, 1u64), (0, 5, t, 2), (1, 1, t, 3), (1, 1, g, 1), (0, 5, g, 1), (2, 0, g, 4)];
    sort_submit_groups(&mut groups);
    assert_eq!(groups, vec![(0, 5, g, 1), (0, 5, t, 2), (1, 1, g, 1), (1, 1, t, 3), (1, 2, g, 1), (2, 0, g, 4)]);
    let mut same_texture = vec![(3u32, 1u32, t, 9u64), (3, 1, t, 2)];
    sort_submit_groups(&mut same_texture);
    assert_eq!(same_texture, vec![(3, 1, t, 2), (3, 1, t, 9)]);
}
