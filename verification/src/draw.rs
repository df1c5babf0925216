//! Drawing vocabulary and submission order.
use vstd::prelude::*;

verus! {

broadcast use vstd::seq_lib::group_to_multiset_ensures;

/// Direction of a gradient fill.
#[derive(Clone, Copy, Debug, PartialEq, Eq, Structural)]
pub enum GradientAxis {
    /// Along y (0 = top → bottom).
    Vertical,
    /// Along x (0 = left → right).
    Horizontal,
}

/// Horizontal text alignment (text is always centred vertically).
#[derive(Clone, Copy, Debug, PartialEq, Eq, Structural)]
pub enum TextAlign {
    Left,
    Center,
    Right,
}

/// Submission group of backgrounds and shapes (drawn first within an element).
pub const GROUP_GRAPHIC: u8 = 0;

/// Submission group of text (drawn over the shapes of its element).
pub const GROUP_TEXT: u8 = 1;

/// Lexicographic order on `(window z, group, texture id)`.
pub open spec fn group_key_le(a: (u32, u8, u64), b: (u32, u8, u64)) -> bool {
    ||| a.0 < b.0
    ||| a.0 == b.0 && a.1 < b.1
    ||| a.0 == b.0 && a.1 == b.1 && a.2 <= b.2
}

/// Ascending under [`group_key_le`].
pub open spec fn groups_sorted(s: Seq<(u32, u8, u64)>) -> bool {
    forall|i: int, j: int| 0 <= i < j < s.len() ==> group_key_le(s[i], s[j])
}

fn key_le(a: (u32, u8, u64), b: (u32, u8, u64)) -> (r: bool)
    ensures
        r == group_key_le(a, b),
{
    a.0 < b.0 || (a.0 == b.0 && a.1 < b.1) || (a.0 == b.0 && a.1 == b.1 && a.2 <= b.2)
}

/// Orders `(window z, group, texture id)` keys: windows from the bottom up, and
/// within a window shapes before text, then by texture — the same order every
/// frame whatever order they were collected in. Within a window every shape
/// group comes before every text group, so this is the order for the groups of
/// one element; the frame's submission, which must keep later elements over
/// earlier ones, is [`sort_submit_groups`].
pub fn sort_draw_groups(groups: &mut Vec<(u32, u8, u64)>)
    ensures
        groups_sorted(final(groups)@),
        final(groups)@.to_multiset() == old(groups)@.to_multiset(),
{
    let ghost src = groups@;
    let n = groups.len();
    let mut out: Vec<(u32, u8, u64)> = Vec::new();
    let mut k: usize = 0;
    proof {
        assert(src.take(0) =~= Seq::<(u32, u8, u64)>::empty());
    }
    while k < n
        invariant
            groups@ == src,
            n == src.len(),
            0 <= k <= n,
            groups_sorted(out@),
            out@.to_multiset() == src.take(k as int).to_multiset(),
        decreases n - k,
    {
        let x = groups[k];
        // insertion point: after every element not greater than `x`
        let mut pos: usize = 0;
        while pos < out.len() && key_le(out[pos], x)
            invariant
                0 <= pos <= out@.len(),
                forall|j: int| 0 <= j < pos ==> group_key_le(#[trigger] out@[j], x),
            decreases out@.len() - pos,
        {
            pos += 1;
        }
        proof {
            // elements from `pos` on are all greater than `x`
            assert forall|j: int| pos <= j < out@.len() implies !group_key_le(#[trigger] out@[j], x) by {
                if j > pos {
                    assert(group_key_le(out@[pos as int], out@[j]));
                }
            }
        }
        let ghost before = out@;
        out.insert(pos, x);
        proof {
            vstd::seq_lib::to_multiset_insert(before, pos as int, x);
            assert(src.take(k + 1) =~= src.take(k as int).push(x));
            vstd::seq_lib::to_multiset_build(src.take(k as int), x);
            assert forall|i: int, j: int| 0 <= i < j < out@.len() implies group_key_le(out@[i], out@[j]) by {
                if j < pos {
                    assert(out@[i] == before[i]);
                    assert(out@[j] == before[j]);
                } else if i < pos && j == pos {
                    assert(out@[i] == before[i]);
                } else if i < pos && j > pos {
                    assert(out@[i] == before[i]);
                    assert(out@[j] == before[j - 1]);
                } else if i == pos {
                    assert(out@[j] == before[j - 1]);
                } else {
                    assert(out@[i] == before[i - 1]);
                    assert(out@[j] == before[j - 1]);
                }
            }
        }
        k += 1;
    }
    proof {
        assert(src.take(n as int) =~= src);
    }
    *groups = out;
}


/// Variant of a draw command, as far as submission order is concerned.
#[derive(Clone, Copy, Debug, PartialEq, Eq, Structural)]
pub enum DrawClass {
    /// Solid rectangle.
    Solid,
    /// Rounded rectangle (nine-patch).
    RoundedRect,
    /// Linear gradient rectangle.
    Gradient,
    /// Rectangle border.
    Border,
    /// Text run.
    Text,
    /// Text caret.
    Caret,
    /// Screen-space debug primitive.
    Debug,
}

/// Submission group of debug primitives (submitted after all content).
pub const GROUP_DEBUG: u8 = 2;

/// Group of a command class: text is [`GROUP_TEXT`], debug primitives
/// [`GROUP_DEBUG`], every other shape [`GROUP_GRAPHIC`].
pub open spec fn class_group(c: DrawClass) -> u8 {
    match c {
        DrawClass::Text => GROUP_TEXT,
        DrawClass::Debug => GROUP_DEBUG,
        _ => GROUP_GRAPHIC,
    }
}

impl DrawClass {
    /// Submission group within an element: shapes first, then text; debug
    /// primitives after everything.
    pub fn group(&self) -> (r: u8)
        ensures
            r == class_group(*self),
    {
        match self {
            DrawClass::Text => GROUP_TEXT,
            DrawClass::Debug => GROUP_DEBUG,
            _ => GROUP_GRAPHIC,
        }
    }
}

/// Lexicographic order on draw-queue keys `(window z, depth, element, group, sequence)`.
pub open spec fn queue_key_le(a: (u32, u32, u32, u8, u32), b: (u32, u32, u32, u8, u32)) -> bool {
    ||| a.0 < b.0
    ||| a.0 == b.0 && a.1 < b.1
    ||| a.0 == b.0 && a.1 == b.1 && a.2 < b.2
    ||| a.0 == b.0 && a.1 == b.1 && a.2 == b.2 && a.3 < b.3
    ||| a.0 == b.0 && a.1 == b.1 && a.2 == b.2 && a.3 == b.3 && a.4 <= b.4
}

/// Ascending under [`queue_key_le`].
pub open spec fn queue_sorted(s: Seq<(u32, u32, u32, u8, u32)>) -> bool {
    forall|i: int, j: int| 0 <= i < j < s.len() ==> queue_key_le(s[i], s[j])
}

fn queue_le(a: (u32, u32, u32, u8, u32), b: (u32, u32, u32, u8, u32)) -> (r: bool)
    ensures
        r == queue_key_le(a, b),
{
    if a.0 != b.0 {
        a.0 < b.0
    } else if a.1 != b.1 {
        a.1 < b.1
    } else if a.2 != b.2 {
        a.2 < b.2
    } else if a.3 != b.3 {
        a.3 < b.3
    } else {
        a.4 <= b.4
    }
}

/// Orders the frame's draw commands, given by their keys `(window z, depth,
/// element, group, sequence)`: windows from the bottom up, then depth, then the
/// elements in recording order (a later element covers an earlier one), within
/// an element shapes before text, and finally recording order.
pub fn sort_draw_queue(keys: &mut Vec<(u32, u32, u32, u8, u32)>)
    ensures
        queue_sorted(final(keys)@),
        final(keys)@.to_multiset() == old(keys)@.to_multiset(),
{
    let ghost src = keys@;
    let n = keys.len();
    let mut out: Vec<(u32, u32, u32, u8, u32)> = Vec::new();
    let mut k: usize = 0;
    proof {
        assert(src.take(0) =~= Seq::<(u32, u32, u32, u8, u32)>::empty());
    }
    while k < n
        invariant
            keys@ == src,
            n == src.len(),
            0 <= k <= n,
            queue_sorted(out@),
            out@.to_multiset() == src.take(k as int).to_multiset(),
        decreases n - k,
    {
        let x = keys[k];
        let mut pos: usize = 0;
        while pos < out.len() && queue_le(out[pos], x)
            invariant
                0 <= pos <= out@.len(),
                forall|j: int| 0 <= j < pos ==> queue_key_le(#[trigger] out@[j], x),
            decreases out@.len() - pos,
        {
            pos += 1;
        }
        proof {
            assert forall|j: int| pos <= j < out@.len() implies !queue_key_le(#[trigger] out@[j], x) by {
                if j > pos {
                    assert(queue_key_le(out@[pos as int], out@[j]));
                }
            }
        }
        let ghost before = out@;
        out.insert(pos, x);
        proof {
            vstd::seq_lib::to_multiset_insert(before, pos as int, x);
            assert(src.take(k + 1) =~= src.take(k as int).push(x));
            vstd::seq_lib::to_multiset_build(src.take(k as int), x);
            assert forall|i: int, j: int| 0 <= i < j < out@.len() implies queue_key_le(out@[i], out@[j]) by {
                if j < pos {
                    assert(out@[i] == before[i]);
                    assert(out@[j] == before[j]);
                } else if i < pos && j == pos {
                    assert(out@[i] == before[i]);
                } else if i < pos && j > pos {
                    assert(out@[i] == before[i]);
                    assert(out@[j] == before[j - 1]);
                } else if i == pos {
                    assert(out@[j] == before[j - 1]);
                } else {
                    assert(out@[i] == before[i - 1]);
                    assert(out@[j] == before[j - 1]);
                }
            }
        }
        k += 1;
    }
    proof {
        assert(src.take(n as int) =~= src);
    }
    *keys = out;
}

/// In a sorted queue, within one window and depth, every command of an earlier
/// element comes before every command of a later one, whatever their groups; and
/// within one element, shapes come before text.
pub proof fn law_record_order_then_group(s: Seq<(u32, u32, u32, u8, u32)>, i: int, j: int)
    requires
        queue_sorted(s),
        0 <= i < s.len(),
        0 <= j < s.len(),
        s[i].0 == s[j].0,
        s[i].1 == s[j].1,
    ensures
        s[i].2 < s[j].2 ==> i < j,
        s[i].2 == s[j].2 && s[i].3 < s[j].3 ==> i < j,
{
    if i >= j && s[i].2 < s[j].2 {
        if i > j {
            assert(queue_key_le(s[j], s[i]));
        }
    }
    if i >= j && s[i].2 == s[j].2 && s[i].3 < s[j].3 {
        if i > j {
            assert(queue_key_le(s[j], s[i]));
        }
    }
}


/// Lexicographic order on submission keys `(window z, element, group, texture id)`.
pub open spec fn submit_key_le(a: (u32, u32, u8, u64), b: (u32, u32, u8, u64)) -> bool {
    ||| a.0 < b.0
    ||| a.0 == b.0 && a.1 < b.1
    ||| a.0 == b.0 && a.1 == b.1 && a.2 < b.2
    ||| a.0 == b.0 && a.1 == b.1 && a.2 == b.2 && a.3 <= b.3
}

/// Ascending under [`submit_key_le`].
pub open spec fn submit_sorted(s: Seq<(u32, u32, u8, u64)>) -> bool {
    forall|i: int, j: int| 0 <= i < j < s.len() ==> submit_key_le(s[i], s[j])
}

fn submit_le(a: (u32, u32, u8, u64), b: (u32, u32, u8, u64)) -> (r: bool)
    ensures
        r == submit_key_le(a, b),
{
    if a.0 != b.0 {
        a.0 < b.0
    } else if a.1 != b.1 {
        a.1 < b.1
    } else if a.2 != b.2 {
        a.2 < b.2
    } else {
        a.3 <= b.3
    }
}

/// Orders the frame's vertex groups for submission by `(window z, element,
/// group, texture id)`: windows from the bottom up; within a window the elements
/// in recording order, so that a later element covers an earlier one whatever
/// its groups; within an element shapes before text; then by texture. The order
/// does not depend on the order the groups were collected in.
pub fn sort_submit_groups(groups: &mut Vec<(u32, u32, u8, u64)>)
    ensures
        submit_sorted(final(groups)@),
        final(groups)@.to_multiset() == old(groups)@.to_multiset(),
{
    let ghost src = groups@;
    let n = groups.len();
    let mut out: Vec<(u32, u32, u8, u64)> = Vec::new();
    let mut k: usize = 0;
    proof {
        assert(src.take(0) =~= Seq::<(u32, u32, u8, u64)>::empty());
    }
    while k < n
        invariant
            groups@ == src,
            n == src.len(),
            0 <= k <= n,
            submit_sorted(out@),
            out@.to_multiset() == src.take(k as int).to_multiset(),
        decreases n - k,
    {
        let x = groups[k];
        let mut pos: usize = 0;
        while pos < out.len() && submit_le(out[pos], x)
            invariant
                0 <= pos <= out@.len(),
                forall|j: int| 0 <= j < pos ==> submit_key_le(#[trigger] out@[j], x),
            decreases out@.len() - pos,
        {
            pos += 1;
        }
        proof {
            assert forall|j: int| pos <= j < out@.len() implies !submit_key_le(#[trigger] out@[j], x) by {
                if j > pos {
                    assert(submit_key_le(out@[pos as int], out@[j]));
                }
            }
        }
        let ghost before = out@;
        out.insert(pos, x);
        proof {
            vstd::seq_lib::to_multiset_insert(before, pos as int, x);
            assert(src.take(k + 1) =~= src.take(k as int).push(x));
            vstd::seq_lib::to_multiset_build(src.take(k as int), x);
            assert forall|i: int, j: int| 0 <= i < j < out@.len() implies submit_key_le(out@[i], out@[j]) by {
                if j < pos {
                    assert(out@[i] == before[i]);
                    assert(out@[j] == before[j]);
                } else if i < pos && j == pos {
                    assert(out@[i] == before[i]);
                } else if i < pos && j > pos {
                    assert(out@[i] == before[i]);
                    assert(out@[j] == before[j - 1]);
                } else if i == pos {
                    assert(out@[j] == before[j - 1]);
                } else {
                    assert(out@[i] == before[i - 1]);
                    assert(out@[j] == before[j - 1]);
                }
            }
        }
        k += 1;
    }
    proof {
        assert(src.take(n as int) =~= src);
    }
    *groups = out;
}

/// In the submission order, within one window a later element's groups all come
/// after an earlier element's, even its shapes after the earlier one's text; and
/// within one element shapes come before text.
pub proof fn law_submit_element_then_group(s: Seq<(u32, u32, u8, u64)>, i: int, j: int)
    requires
        submit_sorted(s),
        0 <= i < s.len(),
        0 <= j < s.len(),
        s[i].0 == s[j].0,
    ensures
        s[i].1 < s[j].1 ==> i < j,
        s[i].1 == s[j].1 && s[i].2 < s[j].2 ==> i < j,
{
    if i > j {
        assert(submit_key_le(s[j], s[i]));
    }
}

} // verus!
