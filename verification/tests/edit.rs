use rjw_ui::edit::{
    byte_to_char, char_to_byte, compose_preedit, delete_range, index_of_line_col, insert_char_at, insert_str_at,
    line_col_of, move_caret_line, remove_at, remove_before, safe_line_slice, sel_range,
    selected_text, selection_spans, text_area_nav, vline_of_byte, NavKey, VisualLine,
};

#[test]
fn line_col_roundtrip() {
    let s = "ab\ncd\nef";
    assert_eq!(line_col_of(s, 0), (0, 0));
    assert_eq!(line_col_of(s, 2), (0, 2));
    assert_eq!(line_col_of(s, 3), (1, 0), "after the newline = line 1 column 0");
    assert_eq!(line_col_of(s, 4), (1, 1));
    assert_eq!(line_col_of(s, 7), (2, 1));
    assert_eq!(line_col_of(s, 8), (2, 2));
}

#[test]
fn index_of_line_col_basic() {
    let s = "ab\ncd\nef";
    assert_eq!(index_of_line_col(s, 0, 0), 0);
    assert_eq!(index_of_line_col(s, 0, 2), 2);
    assert_eq!(index_of_line_col(s, 1, 0), 3);
    assert_eq!(index_of_line_col(s, 2, 2), 8);
    assert_eq!(index_of_line_col(s, 1, 99), 5, "end of line 1 = after 'd'");
    assert_eq!(index_of_line_col(s, 9, 0), 8);
    let c = "你好\n世界";
    assert_eq!(line_col_of(c, 2), (0, 2));
    assert_eq!(line_col_of(c, 4), (1, 1));
    assert_eq!(index_of_line_col(c, 1, 1), 4, "line 1 column 1 = after '世'");
    assert_eq!(index_of_line_col(c, 0, 2), 2, "line 0 column 2 = before the newline");
    assert_eq!(line_col_of(c, 3), (1, 0), "first character after the newline");
}

#[test]
fn move_caret_line_keeps_column() {
    let s = "ab\ncd\nef";
    assert_eq!(move_caret_line(s, 1, 1), 4, "(0,1) down (1,1)");
    assert_eq!(move_caret_line(s, 4, -1), 1, "(1,1) up (0,1)");
    assert_eq!(move_caret_line(s, 2, 1), 5, "(0,2) down (1,2)");
    assert_eq!(move_caret_line(s, 4, 1), 7, "(1,1) down (2,1)");
    assert_eq!(move_caret_line(s, 5, -1), 2, "(1,2) up (0,2) end of line");
    assert_eq!(move_caret_line(s, 1, -1), 1);
    assert_eq!(move_caret_line(s, 7, 1), 8);
}

#[test]
fn selection_range_and_text() {
    assert_eq!(sel_range(None, 3), None);
    assert_eq!(sel_range(Some(3), 3), None, "anchor == caret: no selection");
    assert_eq!(sel_range(Some(2), 5), Some((2, 5)));
    assert_eq!(sel_range(Some(5), 2), Some((2, 5)), "reversed selection normalised");
    assert_eq!(selected_text("abcdef", Some(1), 4), "bcd");
    assert_eq!(selected_text("abcdef", None, 2), "");
    assert_eq!(selected_text("你好世界", Some(1), 3), "好世");
}

#[test]
fn delete_and_insert_ranges() {
    let mut s = String::from("abcdef");
    delete_range(&mut s, 1, 4);
    assert_eq!(s, "aef", "delete [1,4)");
    let mut s = String::from("中文测试");
    delete_range(&mut s, 1, 3);
    assert_eq!(s, "中试");
    delete_range(&mut s, 99, 100);
    assert_eq!(s, "中试", "out of range: nothing");
    let mut s = String::from("ab");
    insert_str_at(&mut s, 1, "XY");
    assert_eq!(s, "aXYb");
    insert_str_at(&mut s, 99, "!");
    assert_eq!(s, "aXYb!", "caret past the end: append");
    let mut s = String::from("你好");
    insert_str_at(&mut s, 1, "啊");
    assert_eq!(s, "你啊好");
}

#[test]
fn char_byte_roundtrip() {
    let s = "你好ab";
    assert_eq!(char_to_byte(s, 0), 0);
    assert_eq!(char_to_byte(s, 1), 3);
    assert_eq!(char_to_byte(s, 3), 7);
    assert_eq!(char_to_byte(s, 99), 8, "past the end: byte length");
    assert_eq!(byte_to_char(s, 0), 0);
    assert_eq!(byte_to_char(s, 3), 1);
    assert_eq!(byte_to_char(s, 7), 3);
    assert_eq!(byte_to_char(s, 999), 4);
}

#[test]
fn cut_deletes_full_selection_both_directions() {
    let mut s = String::from("ABCDE");
    let (lo, hi) = sel_range(Some(1), 4).unwrap();
    delete_range(&mut s, lo, hi);
    assert_eq!(s, "AE", "forward selection cut removes BCD");
    let mut s = String::from("ABCDE");
    let (lo, hi) = sel_range(Some(4), 1).unwrap();
    delete_range(&mut s, lo, hi);
    assert_eq!(s, "AE", "backward selection cut removes BCD too");
    let mut s = String::from("ABCDE");
    let (lo, hi) = sel_range(Some(1), 4).unwrap();
    delete_range(&mut s, lo, hi);
    assert_eq!(s, "AE", "backspace over a selection removes only the selection");
}

#[test]
fn insert_char_at_handles_caret() {
    let mut s = String::from("abc");
    insert_char_at(&mut s, 1, 'X');
    assert_eq!(s, "aXbc");
    insert_char_at(&mut s, 0, '!');
    assert_eq!(s, "!aXbc");
    insert_char_at(&mut s, 99, 'z');
    assert_eq!(s, "!aXbcz", "caret past the end clamps to the end");
    let mut s = String::from("中文ab");
    insert_char_at(&mut s, 2, '字');
    assert_eq!(s, "中文字ab");
}

#[test]
fn remove_before_and_at() {
    let mut s = String::from("abc");
    assert_eq!(remove_before(&mut s, 2), 1);
    assert_eq!(s, "ac");
    remove_at(&mut s, 0);
    assert_eq!(s, "c");
    let mut s = String::from("中文");
    assert_eq!(remove_before(&mut s, 2), 1);
    assert_eq!(s, "中", "caret=2 removes the previous character");
    remove_at(&mut s, 0);
    assert_eq!(s, "");
}

#[test]
fn vline_of_byte_boundary_attribution() {
    let v = vec![
        VisualLine { byte_start: 0, byte_end: 6 },
        VisualLine { byte_start: 7, byte_end: 17 },
        VisualLine { byte_start: 17, byte_end: 25 },
        VisualLine { byte_start: 25, byte_end: 28 },
    ];
    assert_eq!(vline_of_byte(&v, 0), 0, "row start");
    assert_eq!(vline_of_byte(&v, 5), 0, "inside the row");
    assert_eq!(vline_of_byte(&v, 6), 0, "end of row before a newline stays in the row");
    assert_eq!(vline_of_byte(&v, 7), 1, "start of the second row");
    assert_eq!(vline_of_byte(&v, 16), 1, "inside the second row");
    assert_eq!(vline_of_byte(&v, 17), 2, "soft-wrap boundary belongs to the next row");
    assert_eq!(vline_of_byte(&v, 24), 2, "inside the third row");
    assert_eq!(vline_of_byte(&v, 25), 3, "start of the fourth row");
    assert_eq!(vline_of_byte(&v, 28), 3, "end of text belongs to the last row");
    let v2 = vec![VisualLine { byte_start: 0, byte_end: 0 }];
    assert_eq!(vline_of_byte(&v2, 0), 0, "empty row");
}

#[test]
fn safe_line_slice_never_panics_on_stale_byte_ranges() {
    let value = "窗口 A 选项\n尾部文字";
    let stale = VisualLine { byte_start: 13, byte_end: 14 };
    assert_eq!(safe_line_slice(value, &stale), "");
    let over = VisualLine { byte_start: 0, byte_end: 999 };
    assert_eq!(safe_line_slice(value, &over), value);
    let ok = VisualLine { byte_start: 0, byte_end: 6 };
    assert_eq!(safe_line_slice(value, &ok), "窗口");
}

#[test]
fn vline_of_byte_without_rows_is_zero() {
    assert_eq!(vline_of_byte(&[], 5), 0);
    let v = vec![VisualLine { byte_start: 0, byte_end: 3 }, VisualLine { byte_start: 3, byte_end: 6 }];
    assert_eq!(vline_of_byte(&v, 99), 1, "no row owns the byte: last row");
}

#[test]
fn line_col_and_index_roundtrip_every_caret() {
    let s = "x\n\n你好\nabc";
    let n = s.chars().count();
    for i in 0..=n + 2 {
        let (l, c) = line_col_of(s, i);
        assert_eq!(index_of_line_col(s, l, c), i.min(n));
    }
}

#[test]
fn delete_after_insert_restores_text() {
    let mut s = String::from("héllo");
    insert_str_at(&mut s, 2, "世界");
    assert_eq!(s, "hé世界llo");
    delete_range(&mut s, 2, 4);
    assert_eq!(s, "héllo");
}

#[test]
fn backspace_after_typing_restores_text_and_caret() {
    let mut s = String::from("añb");
    insert_char_at(&mut s, 1, '字');
    assert_eq!(remove_before(&mut s, 2), 1);
    assert_eq!(s, "añb");
}

#[test]
fn remove_before_at_start_and_past_end() {
    let mut s = String::from("ab");
    assert_eq!(remove_before(&mut s, 0), 0);
    assert_eq!(s, "ab");
    assert_eq!(remove_before(&mut s, 9), 1, "caret past the end: removes the last character");
    assert_eq!(s, "a");
    remove_at(&mut s, 5);
    assert_eq!(s, "a");
}

#[test]
fn char_byte_roundtrip_every_caret() {
    let s = "a你😀b";
    assert_eq!(char_to_byte(s, 2), 4);
    assert_eq!(char_to_byte(s, 3), 8);
    for i in 0..6 {
        assert_eq!(byte_to_char(s, char_to_byte(s, i)), i.min(4));
    }
}

#[test]
fn selected_text_clamps_past_the_end() {
    assert_eq!(selected_text("abc", Some(1), 99), "bc");
    assert_eq!(selected_text("abc", Some(7), 9), "");
}

#[test]
fn move_caret_line_zero_and_far() {
    let s = "ab\ncd";
    assert_eq!(move_caret_line(s, 42, 0), 42, "zero lines: caret untouched");
    assert_eq!(move_caret_line(s, 1, 5), 5, "past the last line: end of text");
    assert_eq!(move_caret_line(s, 4, -7), 1, "above the first line: first line");
}

#[test]
fn text_area_nav_moves_across_rows() {
    let value = "ab\ncdef";
    let rows = vec![VisualLine { byte_start: 0, byte_end: 2 }, VisualLine { byte_start: 3, byte_end: 7 }];
    assert_eq!(text_area_nav(value, &rows, 1, None, NavKey::Down, false), (4, None));
    assert_eq!(text_area_nav(value, &rows, 6, None, NavKey::Up, false), (2, None), "column clamped to the shorter row");
    assert_eq!(text_area_nav(value, &rows, 5, None, NavKey::Home, false), (3, None));
    assert_eq!(text_area_nav(value, &rows, 4, None, NavKey::End, false), (7, None));
    assert_eq!(text_area_nav(value, &rows, 1, None, NavKey::Down, true), (4, Some(1)), "shift starts a selection");
    assert_eq!(text_area_nav(value, &rows, 4, Some(1), NavKey::Up, true), (1, None), "selection shrunk to nothing is dropped");
    assert_eq!(text_area_nav(value, &rows, 1, Some(0), NavKey::Up, false), (1, None), "first row: column kept, selection dropped");
    assert_eq!(text_area_nav(value, &rows, 6, None, NavKey::Down, false), (6, None), "last row stays");
}

#[test]
fn text_area_nav_wrapped_multibyte_rows() {
    let value = "你好AB世界CD";
    let rows = vec![VisualLine { byte_start: 0, byte_end: 8 }, VisualLine { byte_start: 8, byte_end: 16 }];
    assert_eq!(text_area_nav(value, &rows, 1, None, NavKey::Down, false), (5, None));
    assert_eq!(text_area_nav(value, &rows, 7, None, NavKey::Up, false), (3, None));
    assert_eq!(text_area_nav(value, &rows, 4, None, NavKey::Home, false), (4, None), "soft-wrap boundary belongs to the next row");
    assert_eq!(text_area_nav(value, &rows, 5, None, NavKey::End, false), (8, None));
}

#[test]
fn composition_is_inlined_at_the_caret() {
    let (disp, start, end, caret) = compose_preedit("xAAAA", 1, "中文", None);
    assert_eq!(disp, "x中文AAAA");
    assert_eq!((start, end, caret), (1, 7, 7));
    let (disp, start, end, caret) = compose_preedit("xAAAA", 1, "中文", Some(3));
    assert_eq!(disp, "x中文AAAA");
    assert_eq!((start, end, caret), (1, 7, 4), "caret after the first composed character");
    let (_, _, _, caret) = compose_preedit("xAAAA", 1, "中文", Some(4));
    assert_eq!(caret, 4, "a caret inside a character moves back to its start");
    let (_, _, _, caret) = compose_preedit("xAAAA", 1, "中文", Some(99));
    assert_eq!(caret, 7, "a caret past the end is clamped");
    let (disp, start, end, caret) = compose_preedit("é", 9, "ab", Some(1));
    assert_eq!(disp, "éab", "a caret past the end composes at the end");
    assert_eq!((start, end, caret), (2, 4, 3));
}

#[test]
fn selection_highlight_spans_rows() {
    let value = "ab\ncd";
    let rows = [VisualLine { byte_start: 0, byte_end: 3 }, VisualLine { byte_start: 3, byte_end: 5 }];
    assert_eq!(selection_spans(value, &rows, 1, 4), vec![(0, 0, 1, 3), (1, 3, 3, 4)]);
    assert_eq!(selection_spans(value, &rows, 0, 2), vec![(0, 0, 0, 2)]);
    assert_eq!(selection_spans(value, &rows, 3, 3), vec![], "an empty selection covers nothing");
    let wrapped = "中文字符";
    let rows = [VisualLine { byte_start: 0, byte_end: 6 }, VisualLine { byte_start: 6, byte_end: 12 }];
    assert_eq!(selection_spans(wrapped, &rows, 1, 3), vec![(0, 0, 3, 6), (1, 6, 6, 9)]);
    let stale = [VisualLine { byte_start: 0, byte_end: 40 }];
    assert_eq!(selection_spans("abc", &stale, 0, 99), vec![(0, 0, 0, 3)], "rows are clamped to the text");
}
