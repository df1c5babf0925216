use rjw_ui::builtin::fontmodal::font_modal_step;
use rjw_ui::builtin::numberinput::{retain_numeric, select_all_on_focus};
use rjw_ui::chars::trim_white_space;
use rjw_ui::hit::WidgetState;

#[test]
fn number_input_keeps_only_numeric_characters() {
    let mut s = String::from("-12.5e3 x+7中");
    retain_numeric(&mut s);
    assert_eq!(s, "-12.53 7");
    let mut empty = String::new();
    retain_numeric(&mut empty);
    assert_eq!(empty, "");
    let mut ok = String::from("+0.25");
    retain_numeric(&mut ok);
    assert_eq!(ok, "0.25", "a plus sign is not kept");
}

#[test]
fn number_input_selects_all_once_on_focus() {
    let mut ws = WidgetState { caret: 1, ..WidgetState::default() };
    let prev = select_all_on_focus(&mut ws, false, true, "3.5中");
    assert!(prev);
    assert_eq!((ws.sel_anchor, ws.caret), (Some(0), 4));
    ws.sel_anchor = None;
    ws.caret = 2;
    let prev = select_all_on_focus(&mut ws, prev, true, "3.5中");
    assert!(prev);
    assert_eq!((ws.sel_anchor, ws.caret), (None, 2), "only the first focused frame selects");
    let prev = select_all_on_focus(&mut ws, prev, false, "3.5中");
    assert!(!prev);
}

#[test]
fn font_dialog_applies_trimmed_name_and_closes() {
    assert_eq!(font_modal_step(true, false, true, false, "  Noto Sans\u{3000}\n"), (false, Some("Noto Sans".to_owned())));
    assert_eq!(font_modal_step(true, false, true, false, " \t "), (false, Some(String::new())), "blank = default font");
    assert_eq!(font_modal_step(true, true, true, false, "x"), (false, None), "Escape wins");
    assert_eq!(font_modal_step(true, false, false, true, "x"), (false, None));
    assert_eq!(font_modal_step(true, false, false, false, "x"), (true, None));
    assert_eq!(font_modal_step(false, false, true, false, "x"), (false, None), "a closed dialog does nothing");
}

#[test]
fn trim_matches_std_on_unicode_white_space() {
    for s in ["", "  a b  ", "\u{85}x\u{2028}", "\u{a0}\u{1680}mid\u{205f}", "nothing", "\u{200b}z\u{200b}"] {
        assert_eq!(trim_white_space(s), s.trim(), "{s:?}");
    }
}
