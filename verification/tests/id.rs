use rjw_ui::id::{IdAbsolute, IdStack};
use std::borrow::Cow;
use std::collections::HashMap;

#[test]
fn empty_stack_borrows_label() {
    let mut st = IdStack::new();
    let abs = st.id_for("btn".into());
    assert_eq!(abs.as_str(), "btn");
    assert!(matches!(abs.0, Cow::Borrowed("btn")));
}

#[test]
fn nested_joins_and_pop_restores() {
    let mut st = IdStack::new();
    st.push("win_a".into());
    assert_eq!(st.prefix(), "win_a");
    assert_eq!(st.id_for("btn".into()).as_str(), "win_a/btn");
    st.push("c::popup".into());
    assert_eq!(st.id_for("opt_0".into()).as_str(), "win_a/c::popup/opt_0");
    st.pop();
    assert_eq!(st.prefix(), "win_a");
    assert_eq!(st.id_for("ok".into()).as_str(), "win_a/ok");
    st.pop();
    assert_eq!(st.prefix(), "");
    assert!(matches!(st.id_for("x".into()).0, Cow::Borrowed("x")));
}

#[test]
fn to_static_matches_content() {
    let mut st = IdStack::new();
    st.push("w".into());
    let abs = st.id_for("b".into());
    let s = abs.to_static();
    assert_eq!(s.as_str(), "w/b");
    st.pop();
    let b = st.id_for("t".into());
    assert_eq!(b.to_static().as_str(), "t");
}

#[test]
fn absolute_ids_compare_by_content() {
    let mut st = IdStack::new();
    st.push("a".into());
    assert!(IdAbsolute::owned("a/b".into()) == st.id_for("b".into()));
    assert!(IdAbsolute::from("a/c") != st.id_for("b".into()));
    assert!(matches!(IdAbsolute::owned("x".into()).0, Cow::Owned(_)));
}

#[test]
fn pop_on_empty_stack_is_harmless() {
    let mut st = IdStack::new();
    st.pop();
    assert_eq!(st.prefix(), "");
    st.push("窗口".into());
    st.push("内".into());
    assert_eq!(st.prefix(), "窗口/内");
    st.pop();
    assert_eq!(st.prefix(), "窗口");
}

#[test]
fn push_pop_with_empty_segment() {
    let mut st = IdStack::new();
    st.push("".into());
    assert_eq!(st.prefix(), "");
    assert_eq!(st.id_for("a".into()).as_str(), "/a", "nested under an empty segment");
    st.push("x".into());
    assert_eq!(st.prefix(), "x");
    st.pop();
    assert_eq!(st.prefix(), "");
}

#[test]
fn nested_id_equals_pushed_prefix() {
    let mut st = IdStack::new();
    st.push("outer".into());
    let id = st.id_for("inner".into()).to_static();
    st.push("inner".into());
    assert_eq!(st.prefix(), id.as_str());
}

#[test]
fn borrow_str_allows_get_by_str() {
    let mut m: HashMap<IdAbsolute<'static>, u32> = HashMap::new();
    m.insert(IdAbsolute::from("a/b"), 1u32);
    m.insert(IdAbsolute::owned("w/c".into()), 2u32);
    assert_eq!(m.get("a/b"), Some(&1));
    assert_eq!(m.get("w/c"), Some(&2));
    assert_eq!(m.get("nope"), None);
    let mut st = IdStack::new();
    st.push("a".into());
    assert!(IdAbsolute::owned("a/b".into()) == st.id_for("b".into()));
}
