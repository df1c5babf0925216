use rjw_ui::state::{forget_focus, forget_selection, text_cache_keep, TEXT_BUFFER_CACHE_CAP};

#[test]
fn text_cache_below_capacity_keeps_everything() {
    assert_eq!(text_cache_keep(&[1, 2, 3], 9, 4), (vec![true, true, true], 3));
    assert_eq!(text_cache_keep(&[], 0, 1), (vec![], 0));
}

#[test]
fn text_cache_drops_entries_unused_this_frame() {
    assert_eq!(text_cache_keep(&[7, 9, 8, 9], 9, 4), (vec![false, true, false, true], 2));
}

#[test]
fn text_cache_full_of_current_entries_drops_the_first() {
    assert_eq!(text_cache_keep(&[9, 9, 9], 9, 3), (vec![false, true, true], 2));
    assert_eq!(text_cache_keep(&[5, 9, 9], 9, 2), (vec![false, false, true], 1));
    let used = vec![3u64; TEXT_BUFFER_CACHE_CAP];
    let (keep, kept) = text_cache_keep(&used, 3, TEXT_BUFFER_CACHE_CAP);
    assert_eq!(kept, TEXT_BUFFER_CACHE_CAP - 1);
    assert!(!keep[0] && keep[1..].iter().all(|&b| b));
}

#[test]
fn forgetting_a_widget_drops_its_focus_and_selections() {
    let mut focused = Some("win/name".to_owned());
    forget_focus(&mut focused, "win/other");
    assert_eq!(focused.as_deref(), Some("win/name"));
    forget_focus(&mut focused, "win/name");
    assert_eq!(focused, None);
    forget_focus(&mut focused, "win/name");
    assert_eq!(focused, None);
    let mut groups = vec!["a".to_owned(), "b".to_owned(), "a".to_owned()];
    forget_selection(&mut groups, "a");
    assert_eq!(groups, vec!["".to_owned(), "b".to_owned(), "".to_owned()]);
}
