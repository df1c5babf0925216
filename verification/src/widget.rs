//! Widget-level values: the unified [`Response`], the expansion mode of a widget
//! and the three sources of a widget id.
use vstd::prelude::*;
use crate::chars::{chars_of, string_push};
use crate::state::ButtonState;

verus! {

broadcast use vstd::string::group_string_axioms;

/// Unified interaction response of a widget.
#[derive(Clone, Copy, Debug, Default, PartialEq, Eq)]
pub struct Response {
    /// The pointer is on the widget (also while pressed).
    pub hovered: bool,
    /// Pressed and not yet released.
    pub pressed: bool,
    /// A click completed this frame (pointer, or Enter / Space on the focused widget).
    pub clicked: bool,
    /// Released this frame, wherever the pointer is.
    pub released: bool,
    /// Check boxes and radios: the state flipped this frame (always `false` otherwise).
    pub toggled: bool,
}

impl Response {
    pub fn hovered(&self) -> (r: bool)
        ensures
            r == self.hovered,
    {
        self.hovered
    }

    pub fn pressed(&self) -> (r: bool)
        ensures
            r == self.pressed,
    {
        self.pressed
    }

    pub fn clicked(&self) -> (r: bool)
        ensures
            r == self.clicked,
    {
        self.clicked
    }

    pub fn released(&self) -> (r: bool)
        ensures
            r == self.released,
    {
        self.released
    }

    pub fn toggled(&self) -> (r: bool)
        ensures
            r == self.toggled,
    {
        self.toggled
    }
}

impl From<ButtonState> for Response {
    fn from(s: ButtonState) -> (r: Self) {
        Response {
            hovered: s.hovered(),
            pressed: s.pressed(),
            clicked: s.clicked(),
            released: s.released(),
            toggled: false,
        }
    }
}

impl vstd::std_specs::convert::FromSpecImpl<ButtonState> for Response {
    open spec fn obeys_from_spec() -> bool {
        true
    }

    open spec fn from_spec(s: ButtonState) -> Self {
        Response { hovered: s@.0, pressed: s@.1, clicked: s@.2, released: s@.3, toggled: false }
    }
}

/// How a widget's content size relates to the space its parent offers.
#[derive(Clone, Copy, Debug, PartialEq, Eq, Structural)]
pub enum Expansion {
    /// Own size (clamped to min/max); never enlarges the parent, may overflow it.
    DisableAutoExpansion,
    /// Limited to the parent's available width; the widget handles the excess
    /// (wrapping, ellipsis, scrolling). Without available space it behaves as
    /// [`Expansion::UnlimitedExpansion`].
    LimitedInParent,
    /// Natural size (clamped to min/max), enlarging the parent (the default).
    UnlimitedExpansion,
}

impl Default for Expansion {
    fn default() -> (r: Self)
        ensures
            r == Expansion::UnlimitedExpansion,
    {
        Expansion::UnlimitedExpansion
    }
}

/// Source of a widget id (the cross-frame state key).
#[derive(Clone, Copy, Debug, PartialEq, Eq)]
pub enum WidgetId<'a> {
    /// The id is the label text itself.
    Label,
    /// An explicit string id.
    String(&'a str),
    /// A numeric id (such as a list row index).
    Int(u64),
}

impl<'a> From<Option<&'a str>> for WidgetId<'a> {
    fn from(id: Option<&'a str>) -> (r: Self) {
        match id {
            Some(s) => WidgetId::String(s),
            None => WidgetId::Label,
        }
    }
}

impl<'a> vstd::std_specs::convert::FromSpecImpl<Option<&'a str>> for WidgetId<'a> {
    open spec fn obeys_from_spec() -> bool {
        true
    }

    open spec fn from_spec(id: Option<&'a str>) -> Self {
        match id {
            Some(s) => WidgetId::String(s),
            None => WidgetId::Label,
        }
    }
}

impl<'a> From<&'a str> for WidgetId<'a> {
    fn from(s: &'a str) -> (r: Self) {
        WidgetId::String(s)
    }
}

impl<'a> vstd::std_specs::convert::FromSpecImpl<&'a str> for WidgetId<'a> {
    open spec fn obeys_from_spec() -> bool {
        true
    }

    open spec fn from_spec(s: &'a str) -> Self {
        WidgetId::String(s)
    }
}

impl<'a> From<u64> for WidgetId<'a> {
    fn from(i: u64) -> (r: Self) {
        WidgetId::Int(i)
    }
}

impl<'a> vstd::std_specs::convert::FromSpecImpl<u64> for WidgetId<'a> {
    open spec fn obeys_from_spec() -> bool {
        true
    }

    open spec fn from_spec(i: u64) -> Self {
        WidgetId::Int(i)
    }
}

/// The decimal digit character of `d` (`0 <= d < 10`).
pub open spec fn digit_char(d: nat) -> char {
    ((d + 48) as u8) as char
}

/// Decimal notation of `n` (no sign, no leading zeros).
pub open spec fn decimal(n: nat) -> Seq<char>
    decreases n,
{
    if n < 10 {
        seq![digit_char(n)]
    } else {
        decimal(n / 10).push(digit_char(n % 10))
    }
}

/// The id string a [`WidgetId`] resolves to for a widget labelled `label`.
pub open spec fn spec_resolve(id: WidgetId, label: Seq<char>) -> Seq<char> {
    match id {
        WidgetId::Label => label,
        WidgetId::String(s) => s@,
        WidgetId::Int(i) => decimal(i as nat),
    }
}

/// Appends the decimal notation of `n` to `s`.
fn push_decimal(s: &mut String, n: u64)
    ensures
        final(s)@ == old(s)@ + decimal(n as nat),
    decreases n,
{
    if n >= 10 {
        push_decimal(s, n / 10);
    }
    let d = (n % 10) as u8;
    string_push(s, (d + 48) as char);
    proof {
        if n < 10 {
            assert(decimal(n as nat) == seq![digit_char(n as nat)]);
        }
    }
}

/// A copy of `s`.
fn owned_str(s: &str) -> (r: String)
    ensures
        r@ == s@,
{
    let v = chars_of(s);
    crate::chars::string_from_chars(&v)
}

impl WidgetId<'_> {
    /// The id string: the label for [`WidgetId::Label`], the string itself for
    /// [`WidgetId::String`], the decimal number for [`WidgetId::Int`].
    pub fn resolve(&self, label: &str) -> (r: String)
        ensures
            r@ == spec_resolve(*self, label@),
    {
        match self {
            WidgetId::Label => owned_str(label),
            WidgetId::String(s) => owned_str(s),
            WidgetId::Int(i) => {
                let mut out = String::new();
                push_decimal(&mut out, *i);
                proof {
                    assert(out@ =~= decimal(*i as nat));
                }
                out
            },
        }
    }
}

} // verus!
