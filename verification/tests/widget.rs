use rjw_ui::draw::{sort_draw_groups, GROUP_GRAPHIC, GROUP_TEXT};
use rjw_ui::ui::{resolve_win_press, WIN_TOPMOST};
use rjw_ui::widget::{Expansion, Response, WidgetId};

#[test]
fn widget_id_resolve() {
    assert_eq!(WidgetId::Label.resolve("窗口 A 选项"), "窗口 A 选项");
    assert_eq!(WidgetId::String("win_b_cb").resolve("任意"), "win_b_cb");
    assert_eq!(WidgetId::Int(7).resolve("任意"), "7");
    assert_eq!(WidgetId::from(None::<&str>).resolve("label-x"), "label-x");
    assert_eq!(WidgetId::from(Some("id-y")).resolve("label-x"), "id-y");
    assert_eq!(WidgetId::from("id-z").resolve("label-x"), "id-z");
    assert_eq!(WidgetId::from(42u64).resolve("label-x"), "42");
    assert_ne!(WidgetId::Label.resolve("窗口 A"), WidgetId::Label.resolve("窗口 B"));
}

#[test]
fn expansion_default_is_unlimited() {
    assert_eq!(Expansion::default(), Expansion::UnlimitedExpansion);
}

#[test]
fn submit_order_graphics_before_text_per_window() {
    let g = GROUP_GRAPHIC;
    let t = GROUP_TEXT;
    let mut groups = vec![
        (2u32, t, 3u64),
        (1u32, t, 3u64),
        (0u32, t, 2u64),
        (2u32, g, 2u64),
        (0u32, g, 1u64),
        (1u32, g, 1u64),
        (1u32, g, 2u64),
    ];
    sort_draw_groups(&mut groups);
    assert_eq!(
        groups,
        vec![(0, g, 1), (0, t, 2), (1, g, 1), (1, g, 2), (1, t, 3), (2, g, 2), (2, t, 3)],
        "windows ascending, shapes before text within a window, stable by texture"
    );
}

#[test]
fn widget_id_int_decimal() {
    assert_eq!(WidgetId::Int(0).resolve(""), "0");
    assert_eq!(WidgetId::Int(10).resolve(""), "10");
    assert_eq!(WidgetId::Int(u64::MAX).resolve(""), u64::MAX.to_string());
}

#[test]
fn response_from_button_state() {
    let r = Response::default();
    assert!(!r.hovered() && !r.pressed() && !r.clicked() && !r.released() && !r.toggled());
    let mut ws = rjw_ui::hit::WidgetState::default();
    let (st, _) = rjw_ui::hit::button_interact(&mut ws, true, rjw_ui::hit::KeyState::new(true, true), false);
    let r = Response::from(st);
    assert!(r.hovered && r.pressed && !r.clicked && !r.released && !r.toggled);
}

#[test]
fn raised_window_goes_on_top() {
    assert_eq!(resolve_win_press(&[], 0, None), (1, false));
    assert_eq!(resolve_win_press(&[3, 1, WIN_TOPMOST, 2], 1, Some(1)), (4, false));
    assert_eq!(resolve_win_press(&[3], 1, Some(3)), (4, true), "focus in another window is dropped");
    assert_eq!(resolve_win_press(&[3], 1, Some(0)), (4, false), "focus outside windows stays");
    assert_eq!(resolve_win_press(&[WIN_TOPMOST - 1], 1, None), (WIN_TOPMOST - 1, false), "never onto the sentinel");
    assert_eq!(resolve_win_press(&[WIN_TOPMOST - 2], 1, None), (WIN_TOPMOST - 1, false));
}

