//! Text-editing logic shared by the single-line input and the multi-line text
//! area: line/column arithmetic, caret movement across lines, selections,
//! character insertion/removal and conversion between character and byte offsets.
//!
//! Caret positions are character indices (`char` counts, not bytes).
use vstd::prelude::*;
use vstd::utf8::*;
use vstd::string::StrSliceExecFns;
use crate::chars::{
    char_utf8_width, char_width, chars_of, is_byte_boundary, lemma_char_width_bounds, lemma_utf8_len_take_mono,
    lemma_utf8_len_take_step, str_byte_len, string_from_range, string_push, utf8_len,
};

verus! {

broadcast use vstd::string::group_string_axioms;

// ───────────────────────── specifications ─────────────────────────

/// `(line, column)` of the position right after the characters `p`: the line is
/// the number of `'\n'` in `p`, the column the number of characters after the last one.
pub open spec fn line_col_after(p: Seq<char>) -> (nat, nat)
    decreases p.len(),
{
    if p.len() == 0 {
        (0, 0)
    } else {
        let lc = line_col_after(p.drop_last());
        if p.last() == '\n' {
            ((lc.0 + 1) as nat, 0)
        } else {
            (lc.0, (lc.1 + 1) as nat)
        }
    }
}

/// `i` clamped to the length of `s`.
pub open spec fn clamp_len(s: Seq<char>, i: int) -> int {
    if i < s.len() {
        i
    } else {
        s.len() as int
    }
}

/// `(line, column)` of character index `idx` in `s` (indices past the end count as the end).
pub open spec fn spec_line_col_of(s: Seq<char>, idx: int) -> (nat, nat) {
    line_col_after(s.take(clamp_len(s, idx)))
}

/// Character index of `(line, col)` in `s`, read from the front: the column is
/// clamped to the end of its line (the position before its `'\n'`), and a line
/// past the last one gives the end of the text.
pub open spec fn spec_index_of_line_col(s: Seq<char>, line: nat, col: nat) -> nat
    decreases s.len(),
{
    if s.len() == 0 {
        0
    } else if line == 0 {
        if col == 0 || s[0] == '\n' {
            0
        } else {
            1 + spec_index_of_line_col(s.drop_first(), 0, (col - 1) as nat)
        }
    } else if s[0] == '\n' {
        1 + spec_index_of_line_col(s.drop_first(), (line - 1) as nat, col)
    } else {
        1 + spec_index_of_line_col(s.drop_first(), line, col)
    }
}

/// Caret after moving `delta` lines from `idx`, keeping the column.
pub open spec fn spec_move_caret_line(s: Seq<char>, idx: int, delta: int) -> int {
    if delta == 0 {
        idx
    } else {
        let lc = spec_line_col_of(s, idx);
        let target: int = if delta > 0 {
            lc.0 + delta
        } else if lc.0 >= -delta {
            lc.0 + delta
        } else {
            0
        };
        spec_index_of_line_col(s, target as nat, lc.1) as int
    }
}

/// Normalised selection `(lo, hi)` with `lo < hi`, or `None` when nothing is selected.
pub open spec fn spec_sel_range(anchor: Option<usize>, caret: usize) -> Option<(usize, usize)> {
    match anchor {
        None => None,
        Some(a) => if a == caret {
            None
        } else if a < caret {
            Some((a, caret))
        } else {
            Some((caret, a))
        },
    }
}

/// The text with the characters `[lo, hi)` removed (bounds clamped; nothing when `lo >= hi`).
pub open spec fn spec_delete_range(s: Seq<char>, lo: int, hi: int) -> Seq<char> {
    let l = clamp_len(s, lo);
    let h = clamp_len(s, hi);
    if l < h {
        s.take(l) + s.skip(h)
    } else {
        s
    }
}

/// The text with `t` inserted at character index `caret` (clamped to the end).
pub open spec fn spec_insert_at(s: Seq<char>, caret: int, t: Seq<char>) -> Seq<char> {
    let c = clamp_len(s, caret);
    s.take(c) + t + s.skip(c)
}

// ───────────────────────── lemmas ─────────────────────────

/// Line and column together never exceed the number of characters.
pub proof fn lemma_line_col_bound(p: Seq<char>)
    ensures
        line_col_after(p).0 + line_col_after(p).1 <= p.len(),
    decreases p.len(),
{
    if p.len() > 0 {
        lemma_line_col_bound(p.drop_last());
    }
}

/// `(line, column)` after a sequence that starts with the character `x`.
pub proof fn lemma_line_col_cons(x: char, t: Seq<char>)
    ensures
        line_col_after(seq![x] + t) == (if x == '\n' {
            ((line_col_after(t).0 + 1) as nat, line_col_after(t).1)
        } else if line_col_after(t).0 == 0 {
            (0nat, (line_col_after(t).1 + 1) as nat)
        } else {
            line_col_after(t)
        }),
    decreases t.len(),
{
    let xt = seq![x] + t;
    if t.len() == 0 {
        assert(xt.drop_last() =~= Seq::<char>::empty());
        assert(xt.last() == x);
        assert(line_col_after(t) == (0nat, 0nat));
        assert(line_col_after(xt.drop_last()) == (0nat, 0nat));
    } else {
        assert(xt.drop_last() =~= seq![x] + t.drop_last());
        assert(xt.last() == t.last());
        lemma_line_col_cons(x, t.drop_last());
        let a = line_col_after(t.drop_last());
        let b = line_col_after(xt.drop_last());
        assert(line_col_after(t) == (if t.last() == '\n' {
            ((a.0 + 1) as nat, 0nat)
        } else {
            (a.0, (a.1 + 1) as nat)
        }));
        assert(line_col_after(xt) == (if t.last() == '\n' {
            ((b.0 + 1) as nat, 0nat)
        } else {
            (b.0, (b.1 + 1) as nat)
        }));
    }
}

/// The result of [`spec_index_of_line_col`] is a valid caret.
pub proof fn lemma_index_of_line_col_bound(s: Seq<char>, line: nat, col: nat)
    ensures
        spec_index_of_line_col(s, line, col) <= s.len(),
    decreases s.len(),
{
    if s.len() > 0 {
        if line == 0 {
            if col != 0 && s[0] != '\n' {
                lemma_index_of_line_col_bound(s.drop_first(), 0, (col - 1) as nat);
            }
        } else if s[0] == '\n' {
            lemma_index_of_line_col_bound(s.drop_first(), (line - 1) as nat, col);
        } else {
            lemma_index_of_line_col_bound(s.drop_first(), line, col);
        }
    }
}

/// Round trip: the index of the `(line, column)` of caret `i` is `i` itself.
pub proof fn lemma_index_of_line_col_after(s: Seq<char>, i: int)
    requires
        0 <= i <= s.len(),
    ensures
        spec_index_of_line_col(s, line_col_after(s.take(i)).0, line_col_after(s.take(i)).1) == i,
    decreases s.len(),
{
    if i == 0 {
        assert(s.take(0) =~= Seq::<char>::empty());
    } else {
        let x = s[0];
        let rest = s.drop_first();
        let t = rest.take(i - 1);
        assert(s.take(i) =~= seq![x] + t);
        lemma_line_col_cons(x, t);
        lemma_index_of_line_col_after(rest, i - 1);
    }
}

/// Number of line breaks in `s` (the text has one more line than that).
pub open spec fn newline_count(s: Seq<char>) -> nat
    decreases s.len(),
{
    if s.len() == 0 {
        0
    } else {
        (if s[0] == '\n' { 1nat } else { 0nat }) + newline_count(s.drop_first())
    }
}

/// Where [`spec_index_of_line_col`] lands: on an existing line it lands on that
/// line, at the asked column or earlier, and earlier only at the end of the line
/// (before its line break or at the end of the text); past the last line it
/// lands at the end of the text.
pub proof fn lemma_index_of_line_col_lands(s: Seq<char>, line: nat, col: nat)
    ensures
        ({
            let j = spec_index_of_line_col(s, line, col) as int;
            let lc = line_col_after(s.take(j));
            &&& line <= newline_count(s) ==> {
                &&& lc.0 == line
                &&& lc.1 <= col
                &&& lc.1 == col || j == s.len() || s[j] == '\n'
            }
            &&& line > newline_count(s) ==> j == s.len()
        }),
    decreases s.len(),
{
    lemma_index_of_line_col_bound(s, line, col);
    if s.len() == 0 {
        assert(s.take(0) =~= Seq::<char>::empty());
    } else {
        let x = s[0];
        let rest = s.drop_first();
        let j = spec_index_of_line_col(s, line, col) as int;
        if line == 0 && (col == 0 || x == '\n') {
            assert(j == 0);
            assert(s.take(0) =~= Seq::<char>::empty());
        } else {
            let (l2, c2): (nat, nat) = if line == 0 {
                (0, (col - 1) as nat)
            } else if x == '\n' {
                ((line - 1) as nat, col)
            } else {
                (line, col)
            };
            lemma_index_of_line_col_lands(rest, l2, c2);
            let j2 = spec_index_of_line_col(rest, l2, c2) as int;
            assert(j == 1 + j2);
            assert(s.take(j) =~= seq![x] + rest.take(j2));
            lemma_line_col_cons(x, rest.take(j2));
            if j2 < rest.len() {
                assert(s[j] == rest[j2]);
            }
        }
    }
}

// ───────────────────────── laws ─────────────────────────

/// Converting a caret to `(line, column)` and back gives the caret (clamped to the text).
pub proof fn law_line_col_roundtrip(s: Seq<char>, idx: int)
    requires
        0 <= idx,
    ensures
        spec_index_of_line_col(s, spec_line_col_of(s, idx).0, spec_line_col_of(s, idx).1)
            == clamp_len(s, idx),
{
    lemma_index_of_line_col_after(s, clamp_len(s, idx));
}

/// Moving the caret by zero lines leaves it where it is.
pub proof fn law_move_zero_lines(s: Seq<char>, idx: int)
    ensures
        spec_move_caret_line(s, idx, 0) == idx,
{
}

/// Moving the caret across lines keeps its column: when the target line exists
/// the caret lands on it, at the same column or, when that line is shorter, at
/// its end; moving below the last line puts the caret at the end of the text.
pub proof fn law_move_keeps_column(s: Seq<char>, idx: int, delta: int)
    requires
        0 <= idx,
        delta != 0,
    ensures
        ({
            let lc = spec_line_col_of(s, idx);
            let target: int = if delta > 0 {
                lc.0 + delta
            } else if lc.0 >= -delta {
                lc.0 + delta
            } else {
                0
            };
            let j = spec_move_caret_line(s, idx, delta);
            let lc2 = spec_line_col_of(s, j);
            &&& 0 <= j <= s.len()
            &&& target <= newline_count(s) ==> {
                &&& lc2.0 == target
                &&& lc2.1 <= lc.1
                &&& lc2.1 == lc.1 || j == s.len() || s[j] == '\n'
            }
            &&& target > newline_count(s) ==> j == s.len()
        }),
{
    let lc = spec_line_col_of(s, idx);
    let target: int = if delta > 0 {
        lc.0 + delta
    } else if lc.0 >= -delta {
        lc.0 + delta
    } else {
        0
    };
    lemma_index_of_line_col_lands(s, target as nat, lc.1);
    lemma_index_of_line_col_bound(s, target as nat, lc.1);
}

/// A selection is the same range whichever end is the anchor, so cutting it
/// removes the same characters in both directions.
pub proof fn law_selection_direction_free(s: Seq<char>, a: usize, c: usize)
    ensures
        spec_sel_range(Some(a), c) == spec_sel_range(Some(c), a),
        match spec_sel_range(Some(a), c) {
            Some((lo, hi)) => lo < hi && spec_delete_range(s, lo as int, hi as int) == spec_delete_range(
                s,
                if a < c { a as int } else { c as int },
                if a < c { c as int } else { a as int },
            ),
            None => a == c,
        },
{
}

/// Deleting what was just inserted restores the text.
pub proof fn law_delete_undoes_insert(s: Seq<char>, caret: int, t: Seq<char>)
    requires
        0 <= caret,
    ensures
        spec_delete_range(
            spec_insert_at(s, caret, t),
            clamp_len(s, caret),
            clamp_len(s, caret) + t.len(),
        ) == s,
{
    let c = clamp_len(s, caret);
    let u = spec_insert_at(s, caret, t);
    assert(u.len() == s.len() + t.len());
    if t.len() > 0 {
        assert(u.take(c) =~= s.take(c));
        assert(u.skip(c + t.len()) =~= s.skip(c));
        assert(s.take(c) + s.skip(c) =~= s);
    } else {
        assert(u =~= s);
    }
}

/// Backspace right after typing a character removes that character and puts the
/// caret back.
pub proof fn law_backspace_undoes_typing(s: Seq<char>, caret: int, ch: char)
    requires
        0 <= caret,
    ensures
        spec_insert_at(s, caret, seq![ch]).remove(clamp_len(s, caret)) == s,
        clamp_len(spec_insert_at(s, caret, seq![ch]), clamp_len(s, caret) + 1) - 1 == clamp_len(
            s,
            caret,
        ),
{
    let c = clamp_len(s, caret);
    assert(spec_insert_at(s, caret, seq![ch]).remove(c) =~= s);
}

/// Character → byte → character gives the caret back (clamped), and the byte
/// offset of a caret is always a character boundary.
pub proof fn law_char_byte_roundtrip(s: Seq<char>, idx: int, r: int)
    requires
        0 <= idx,
        0 <= r <= s.len(),
        utf8_len(s.take(r)) == utf8_len(s.take(clamp_len(s, idx))),
    ensures
        r == clamp_len(s, idx),
        is_byte_boundary(s, utf8_len(s.take(clamp_len(s, idx))) as int),
{
    crate::chars::lemma_byte_boundary_unique(s, r, clamp_len(s, idx));
    assert(utf8_len(s.take(clamp_len(s, idx))) == utf8_len(s.take(clamp_len(s, idx))));
}

// ───────────────────────── helpers ─────────────────────────

/// Appends the characters `v[lo..hi]` to `s`.
fn push_range(s: &mut String, v: &Vec<char>, lo: usize, hi: usize)
    requires
        lo <= hi <= v@.len(),
    ensures
        final(s)@ == old(s)@ + v@.subrange(lo as int, hi as int),
{
    let mut i = lo;
    while i < hi
        invariant
            lo <= i <= hi <= v@.len(),
            s@ == old(s)@ + v@.subrange(lo as int, i as int),
        decreases hi - i,
    {
        string_push(s, v[i]);
        assert(v@.subrange(lo as int, i + 1) =~= v@.subrange(lo as int, i as int).push(v@[i as int]));
        assert(s@ =~= old(s)@ + v@.subrange(lo as int, i + 1));
        i += 1;
    }
}

fn min_usize(a: usize, b: usize) -> (r: usize)
    ensures
        r == if a < b { a } else { b },
{
    if a < b {
        a
    } else {
        b
    }
}

// ───────────────────────── line / column ─────────────────────────

/// Character index → `(line, column)`: the line is the number of `'\n'` before
/// `idx`, the column the number of characters since the last one.
pub fn line_col_of(s: &str, idx: usize) -> (r: (usize, usize))
    ensures
        r.0 == spec_line_col_of(s@, idx as int).0,
        r.1 == spec_line_col_of(s@, idx as int).1,
{
    let v = chars_of(s);
    let n = min_usize(idx, v.len());
    let mut line: usize = 0;
    let mut col: usize = 0;
    let mut i: usize = 0;
    while i < n
        invariant
            v@ == s@,
            n == clamp_len(s@, idx as int),
            0 <= i <= n,
            line == line_col_after(v@.take(i as int)).0,
            col == line_col_after(v@.take(i as int)).1,
            line + col <= i,
        decreases n - i,
    {
        assert(v@.take(i + 1).drop_last() =~= v@.take(i as int));
        if v[i] == '\n' {
            line += 1;
            col = 0;
        } else {
            col += 1;
        }
        i += 1;
    }
    (line, col)
}

/// `(line, column)` → character index. A column past the end of its line gives
/// the end of that line; a line past the last one gives the end of the text.
pub fn index_of_line_col(s: &str, line: usize, col: usize) -> (r: usize)
    ensures
        r == spec_index_of_line_col(s@, line as nat, col as nat),
        r <= s@.len(),
{
    let v = chars_of(s);
    let n = v.len();
    let mut cur_line: usize = 0;
    let mut line_col: usize = 0;
    let mut i: usize = 0;
    proof {
        lemma_index_of_line_col_bound(s@, line as nat, col as nat);
        assert(v@.skip(0) =~= v@);
    }
    while i < n
        invariant
            v@ == s@,
            n == v@.len(),
            0 <= i <= n,
            cur_line <= line,
            line_col <= col,
            cur_line < line ==> line_col == 0,
            spec_index_of_line_col(v@, line as nat, col as nat) == i + spec_index_of_line_col(
                v@.skip(i as int),
                (line - cur_line) as nat,
                (col - line_col) as nat,
            ),
        decreases n - i,
    {
        let ch = v[i];
        let ghost rest = v@.skip(i as int);
        assert(rest[0] == ch);
        assert(rest.drop_first() =~= v@.skip(i + 1));
        if cur_line == line {
            if line_col >= col {
                return i;
            }
            if ch == '\n' {
                return i;
            }
            line_col += 1;
        } else if ch == '\n' {
            cur_line += 1;
        }
        i += 1;
    }
    assert(v@.skip(n as int) =~= Seq::<char>::empty());
    n
}

/// Moves the caret `delta` lines (`+1` down, `-1` up), keeping its column
/// (clamped to the end of the target line). `delta == 0` leaves `idx` as it is.
pub fn move_caret_line(s: &str, idx: usize, delta: i32) -> (r: usize)
    requires
        delta != i32::MIN,
        delta > 0 ==> spec_line_col_of(s@, idx as int).0 + delta <= usize::MAX,
    ensures
        r == spec_move_caret_line(s@, idx as int, delta as int),
{
    if delta == 0 {
        return idx;
    }
    let (line, col) = line_col_of(s, idx);
    let target = if delta > 0 {
        line + delta as usize
    } else {
        line.saturating_sub((-delta) as usize)
    };
    index_of_line_col(s, target, col)
}

// ───────────────────────── selection ─────────────────────────

/// Selection `(anchor, caret)` → `(lo, hi)` with `lo < hi`; `None` when there is
/// no anchor or the anchor equals the caret.
pub fn sel_range(anchor: Option<usize>, caret: usize) -> (r: Option<(usize, usize)>)
    ensures
        r == spec_sel_range(anchor, caret),
{
    match anchor {
        None => None,
        Some(a) => {
            let lo = if a < caret { a } else { caret };
            let hi = if a < caret { caret } else { a };
            if lo == hi {
                None
            } else {
                Some((lo, hi))
            }
        },
    }
}

/// The selected text (empty when nothing is selected; bounds clamped to the text).
pub fn selected_text(s: &str, anchor: Option<usize>, caret: usize) -> (r: String)
    ensures
        r@ == (match spec_sel_range(anchor, caret) {
            Some((lo, hi)) => s@.subrange(clamp_len(s@, lo as int), clamp_len(s@, hi as int)),
            None => Seq::<char>::empty(),
        }),
{
    match sel_range(anchor, caret) {
        Some((lo, hi)) => {
            let v = chars_of(s);
            let l = min_usize(lo, v.len());
            let h = min_usize(hi, v.len());
            string_from_range(&v, l, h)
        },
        None => String::new(),
    }
}

// ───────────────────────── editing ─────────────────────────

/// Deletes the characters `[lo, hi)` (bounds clamped; nothing when `lo >= hi`).
pub fn delete_range(s: &mut String, lo: usize, hi: usize)
    ensures
        final(s)@ == spec_delete_range(old(s)@, lo as int, hi as int),
{
    let v = chars_of(s.as_str());
    let n = v.len();
    let l = min_usize(lo, n);
    let h = min_usize(hi, n);
    if l < h {
        let mut out = String::new();
        push_range(&mut out, &v, 0, l);
        push_range(&mut out, &v, h, n);
        assert(v@.subrange(0, l as int) =~= v@.take(l as int));
        assert(v@.subrange(h as int, n as int) =~= v@.skip(h as int));
        *s = out;
    }
}

/// Inserts `text` at character index `caret` (clamped to the end).
pub fn insert_str_at(s: &mut String, caret: usize, text: &str)
    ensures
        final(s)@ == spec_insert_at(old(s)@, caret as int, text@),
{
    let v = chars_of(s.as_str());
    let t = chars_of(text);
    let n = v.len();
    let c = min_usize(caret, n);
    let mut out = String::new();
    push_range(&mut out, &v, 0, c);
    push_range(&mut out, &t, 0, t.len());
    push_range(&mut out, &v, c, n);
    assert(v@.subrange(0, c as int) =~= v@.take(c as int));
    assert(t@.subrange(0, t@.len() as int) =~= t@);
    assert(v@.subrange(c as int, n as int) =~= v@.skip(c as int));
    *s = out;
}

/// Inserts one character at character index `caret` (clamped to the end).
pub fn insert_char_at(s: &mut String, caret: usize, ch: char)
    ensures
        final(s)@ == spec_insert_at(old(s)@, caret as int, seq![ch]),
{
    let v = chars_of(s.as_str());
    let n = v.len();
    let c = min_usize(caret, n);
    let mut out = String::new();
    push_range(&mut out, &v, 0, c);
    string_push(&mut out, ch);
    push_range(&mut out, &v, c, n);
    assert(v@.subrange(0, c as int) =~= v@.take(c as int));
    assert(v@.subrange(c as int, n as int) =~= v@.skip(c as int));
    assert(out@ =~= v@.take(c as int) + seq![ch] + v@.skip(c as int));
    *s = out;
}

/// Backspace: removes the character before `caret` (clamped to the end) and
/// returns the new caret; at the start of the text nothing changes and `0` is returned.
pub fn remove_before(s: &mut String, caret: usize) -> (r: usize)
    ensures
        clamp_len(old(s)@, caret as int) == 0 ==> r == 0 && final(s)@ == old(s)@,
        clamp_len(old(s)@, caret as int) > 0 ==> r == clamp_len(old(s)@, caret as int) - 1
            && final(s)@ == old(s)@.remove(r as int),
{
    let v = chars_of(s.as_str());
    let n = v.len();
    let c = min_usize(caret, n);
    if c == 0 {
        return 0;
    }
    let mut out = String::new();
    push_range(&mut out, &v, 0, c - 1);
    push_range(&mut out, &v, c, n);
    assert(out@ =~= v@.remove(c - 1));
    *s = out;
    c - 1
}

/// Delete: removes the character at `idx` (nothing when `idx` is at or past the end).
pub fn remove_at(s: &mut String, idx: usize)
    ensures
        idx < old(s)@.len() ==> final(s)@ == old(s)@.remove(idx as int),
        idx >= old(s)@.len() ==> final(s)@ == old(s)@,
{
    let v = chars_of(s.as_str());
    let n = v.len();
    if idx < n {
        let mut out = String::new();
        push_range(&mut out, &v, 0, idx);
        push_range(&mut out, &v, idx + 1, n);
        assert(out@ =~= v@.remove(idx as int));
        *s = out;
    }
}

// ───────────────────────── characters and bytes ─────────────────────────

/// Character index → byte offset (an index past the end gives the byte length).
pub fn char_to_byte(s: &str, char_idx: usize) -> (r: usize)
    requires
        utf8_len(s@) <= usize::MAX,
    ensures
        r == utf8_len(s@.take(clamp_len(s@, char_idx as int))),
{
    let v = chars_of(s);
    let n = min_usize(char_idx, v.len());
    let mut acc: usize = 0;
    let mut k: usize = 0;
    proof {
        assert(v@.take(0) =~= Seq::<char>::empty());
    }
    while k < n
        invariant
            v@ == s@,
            n == clamp_len(s@, char_idx as int),
            0 <= k <= n,
            acc == utf8_len(v@.take(k as int)),
            utf8_len(s@) <= usize::MAX,
        decreases n - k,
    {
        proof {
            lemma_utf8_len_take_step(v@, k as int);
            lemma_utf8_len_take_mono(v@, k + 1, k + 1);
        }
        acc = acc + char_width(v[k]);
        k += 1;
    }
    acc
}

/// Byte offset → character index: the number of characters in front of
/// `byte` (clamped to the byte length), which must lie on a character boundary.
pub fn byte_to_char(s: &str, byte: usize) -> (r: usize)
    requires
        utf8_len(s@) <= usize::MAX,
        byte < utf8_len(s@) ==> is_byte_boundary(s@, byte as int),
    ensures
        r <= s@.len(),
        utf8_len(s@.take(r as int)) == (if byte < utf8_len(s@) {
            byte as int
        } else {
            utf8_len(s@) as int
        }),
{
    let v = chars_of(s);
    let n = v.len();
    let total = str_byte_len(s);
    let b = min_usize(byte, total);
    let ghost kb: int = if byte < utf8_len(s@) {
        choose|k: int| 0 <= k <= s@.len() && #[trigger] utf8_len(s@.take(k)) == byte
    } else {
        s@.len() as int
    };
    proof {
        assert(v@.take(0) =~= Seq::<char>::empty());
        assert(v@.take(n as int) =~= v@);
    }
    let mut acc: usize = 0;
    let mut k: usize = 0;
    while acc < b
        invariant
            v@ == s@,
            n == v@.len(),
            0 <= k <= kb <= n,
            utf8_len(v@.take(kb)) == b,
            acc == utf8_len(v@.take(k as int)),
            acc <= b,
        decreases b - acc,
    {
        proof {
            if k == kb {
                assert(false);
            }
            lemma_utf8_len_take_step(v@, k as int);
            lemma_utf8_len_take_mono(v@, k + 1, kb);
            lemma_char_width_bounds(v@[k as int]);
        }
        acc = acc + char_width(v[k]);
        k += 1;
    }
    k
}

// ───────────────────────── input-method composition ─────────────────────────

/// Byte offset, inside the composition string `p`, of the composition caret
/// reported at byte `b`: the closest character boundary at or before `b`
/// (clamped to the end); the end of `p` when no caret is reported.
pub open spec fn preedit_caret_byte(p: Seq<char>, b: Option<usize>) -> int {
    match b {
        Some(x) => utf8_len(p.take(chars_within(p, if x < utf8_len(p) { x as int } else { utf8_len(p) as int }) as int)) as int,
        None => utf8_len(p) as int,
    }
}

/// The text shown while an input method composes `preedit` at `caret`: the
/// composition is inlined at the caret (clamped to the end), so that the text
/// after it moves right instead of being covered. Returns the shown text, the
/// byte range `[start, end)` of the composition in it, and the byte offset of
/// the composition caret in it (`preedit_caret`: the caret reported by the input
/// method, a byte offset into `preedit`).
pub fn compose_preedit(value: &str, caret: usize, preedit: &str, preedit_caret: Option<usize>) -> (r: (
    String,
    usize,
    usize,
    usize,
))
    requires
        utf8_len(value@) + utf8_len(preedit@) <= usize::MAX,
    ensures
        r.0@ == spec_insert_at(value@, caret as int, preedit@),
        r.1 == utf8_len(value@.take(clamp_len(value@, caret as int))),
        r.2 == r.1 + utf8_len(preedit@),
        r.3 == r.1 + preedit_caret_byte(preedit@, preedit_caret),
{
    let v = chars_of(value);
    let p = chars_of(preedit);
    let n = v.len();
    let c = min_usize(caret, n);
    let mut disp = String::new();
    push_range(&mut disp, &v, 0, c);
    push_range(&mut disp, &p, 0, p.len());
    push_range(&mut disp, &v, c, n);
    assert(v@.subrange(0, c as int) =~= v@.take(c as int));
    assert(p@.subrange(0, p@.len() as int) =~= p@);
    assert(v@.subrange(c as int, n as int) =~= v@.skip(c as int));
    proof {
        lemma_utf8_len_take_mono(value@, c as int, value@.len() as int);
        assert(value@.take(value@.len() as int) =~= value@);
    }
    let start = char_to_byte(value, caret);
    let plen = str_byte_len(preedit);
    let end = start + plen;
    let caret_b = match preedit_caret {
        Some(b) => {
            let bb = if b < plen {
                b
            } else {
                plen
            };
            let k = floor_char_index(&p, bb);
            proof {
                lemma_utf8_len_take_mono(preedit@, k as int, preedit@.len() as int);
                assert(preedit@.take(preedit@.len() as int) =~= preedit@);
            }
            char_to_byte(preedit, k)
        },
        None => plen,
    };
    proof {
        if preedit_caret is Some {
            let k = chars_within(preedit@, if preedit_caret->0 < utf8_len(preedit@) { preedit_caret->0 as int } else { utf8_len(preedit@) as int });
            lemma_utf8_len_take_mono(preedit@, k as int, preedit@.len() as int);
            assert(preedit@.take(preedit@.len() as int) =~= preedit@);
        }
    }
    (disp, start, end, start + caret_b)
}

// ───────────────────────── visual lines ─────────────────────────

/// Byte range `[byte_start, byte_end)` of one laid-out (possibly wrapped) row of text.
#[derive(Clone, Copy, Debug, PartialEq, Eq)]
pub struct VisualLine {
    pub byte_start: usize,
    pub byte_end: usize,
}

/// Row `i` owns byte offset `byte`: the byte lies inside the row, or sits at its
/// end where the next row does not start right there (a line break or the end of
/// the text rather than a soft wrap).
pub open spec fn row_owns_byte(v: Seq<VisualLine>, i: int, byte: int) -> bool {
    ||| v[i].byte_start <= byte < v[i].byte_end
    ||| byte == v[i].byte_end && (i + 1 == v.len() || v[i + 1].byte_start > v[i].byte_end)
}

/// First row at or after `i` that owns `byte`, or `-1`.
pub open spec fn first_owner_from(v: Seq<VisualLine>, i: int, byte: int) -> int
    decreases v.len() - i,
{
    if i < 0 || i >= v.len() {
        -1
    } else if row_owns_byte(v, i, byte) {
        i
    } else {
        first_owner_from(v, i + 1, byte)
    }
}

/// Visual row of a byte offset: the first row that owns it; when none does, the
/// last row (`0` for no rows).
pub open spec fn spec_vline_of_byte(v: Seq<VisualLine>, byte: int) -> int {
    let f = first_owner_from(v, 0, byte);
    if f >= 0 {
        f
    } else if v.len() == 0 {
        0
    } else {
        v.len() - 1
    }
}

/// [`first_owner_from`] finds the first owner at or after `i`.
pub proof fn lemma_first_owner_from(v: Seq<VisualLine>, i: int, byte: int)
    requires
        0 <= i <= v.len(),
    ensures
        first_owner_from(v, i, byte) == -1 || (i <= first_owner_from(v, i, byte) < v.len()
            && row_owns_byte(v, first_owner_from(v, i, byte), byte)),
        forall|j: int| i <= j < v.len() && j < first_owner_from(v, i, byte) ==> !row_owns_byte(v, j, byte),
        first_owner_from(v, i, byte) == -1 ==> forall|j: int| i <= j < v.len() ==> !row_owns_byte(v, j, byte),
    decreases v.len() - i,
{
    if i < v.len() && !row_owns_byte(v, i, byte) {
        lemma_first_owner_from(v, i + 1, byte);
    }
}

/// Byte offset → visual row: the first row that owns the byte; when none does,
/// the last row (`0` for no rows).
pub fn vline_of_byte(vlines: &[VisualLine], byte: usize) -> (r: usize)
    ensures
        r == spec_vline_of_byte(vlines@, byte as int),
        (r < vlines@.len() && row_owns_byte(vlines@, r as int, byte as int) && forall|j: int|
            0 <= j < r ==> !row_owns_byte(vlines@, j, byte as int)) || ((forall|j: int|
            0 <= j < vlines@.len() ==> !row_owns_byte(vlines@, j, byte as int)) && r == (if vlines@.len()
            == 0 {
            0
        } else {
            vlines@.len() - 1
        })),
{
    let n = vlines.len();
    let mut i: usize = 0;
    proof {
        lemma_first_owner_from(vlines@, 0, byte as int);
    }
    while i < n
        invariant
            n == vlines@.len(),
            0 <= i <= n,
            forall|j: int| 0 <= j < i ==> !row_owns_byte(vlines@, j, byte as int),
            first_owner_from(vlines@, 0, byte as int) == first_owner_from(vlines@, i as int, byte as int),
        decreases n - i,
    {
        let l = vlines[i];
        if byte >= l.byte_start && byte < l.byte_end {
            return i;
        }
        if byte == l.byte_end && (i + 1 == n || vlines[i + 1].byte_start > l.byte_end) {
            return i;
        }
        i += 1;
    }
    proof {
        lemma_first_owner_from(vlines@, 0, byte as int);
    }
    n.saturating_sub(1)
}

/// Number of whole characters of `s` whose encoding fits in the first `b` bytes
/// (the character index of the closest boundary at or before byte `b`).
pub open spec fn chars_within(s: Seq<char>, b: int) -> nat
    decreases s.len(),
{
    if s.len() == 0 {
        0
    } else if char_utf8_width(s[0]) <= b {
        1 + chars_within(s.drop_first(), b - char_utf8_width(s[0]))
    } else {
        0
    }
}

/// Character index of the closest character boundary at or before byte `b`
/// (the character count when `b` is at or past the end).
fn floor_char_index(v: &Vec<char>, b: usize) -> (k: usize)
    ensures
        k == chars_within(v@, b as int),
        k <= v@.len(),
{
    let n = v.len();
    let mut k: usize = 0;
    let mut left: usize = b;
    proof {
        assert(v@.skip(0) =~= v@);
    }
    while k < n && char_width(v[k]) <= left
        invariant
            n == v@.len(),
            0 <= k <= n,
            left <= b,
            chars_within(v@, b as int) == k + chars_within(v@.skip(k as int), left as int),
        decreases n - k,
    {
        let ghost rest = v@.skip(k as int);
        assert(rest[0] == v@[k as int]);
        assert(rest.drop_first() =~= v@.skip(k + 1));
        left = left - char_width(v[k]);
        k += 1;
    }
    proof {
        if k < n {
            let rest = v@.skip(k as int);
            assert(rest[0] == v@[k as int]);
        } else {
            assert(v@.skip(k as int) =~= Seq::<char>::empty());
        }
    }
    k
}

/// The text of a visual row, with both ends moved back to character boundaries
/// and the end clamped to the text, so that a row computed for an older version
/// of the text never splits a character (empty when the ends meet or cross).
pub fn safe_line_slice<'a>(value: &'a str, line: &VisualLine) -> (r: &'a str)
    ensures
        ({
            let ks = chars_within(value@, line.byte_start as int);
            let ke = chars_within(value@, line.byte_end as int);
            r@ == if ks < ke {
                value@.subrange(ks as int, ke as int)
            } else {
                Seq::<char>::empty()
            }
        }),
{
    let v = chars_of(value);
    let ks = floor_char_index(&v, line.byte_start);
    let ke = floor_char_index(&v, line.byte_end);
    if ks < ke {
        value.substring_char(ks, ke)
    } else {
        proof {
            reveal_strlit("");
        }
        ""
    }
}

/// Lemma: [`chars_within`] counts the whole characters fitting in `b` bytes.
pub proof fn lemma_chars_within(s: Seq<char>, b: int)
    ensures
        chars_within(s, b) <= s.len(),
        b >= 0 ==> utf8_len(s.take(chars_within(s, b) as int)) <= b,
        chars_within(s, b) < s.len() ==> utf8_len(s.take(chars_within(s, b) + 1 as int)) > b,
    decreases s.len(),
{
    if s.len() == 0 {
        assert(s.take(0) =~= Seq::<char>::empty());
    } else {
        let w = char_utf8_width(s[0]);
        crate::chars::lemma_char_width_bounds(s[0]);
        let rest = s.drop_first();
        crate::chars::lemma_encode_single(s[0]);
        if w <= b {
            lemma_chars_within(rest, b - w);
            let k = chars_within(rest, b - w) as int;
            assert(s.take(k + 1) =~= seq![s[0]] + rest.take(k as int));
            crate::chars::lemma_encode_utf8_concat(seq![s[0]], rest.take(k as int));
            if k < rest.len() {
                assert(s.take(k + 2) =~= seq![s[0]] + rest.take(k + 1));
                crate::chars::lemma_encode_utf8_concat(seq![s[0]], rest.take(k + 1));
            }
        } else {
            assert(s.take(0) =~= Seq::<char>::empty());
            assert(s.take(1) =~= seq![s[0]]);
        }
    }
}

/// On a character boundary, [`chars_within`] is the number of characters in front of it.
pub proof fn lemma_chars_within_boundary(s: Seq<char>, k: int)
    requires
        0 <= k <= s.len(),
    ensures
        chars_within(s, utf8_len(s.take(k)) as int) == k,
{
    let b = utf8_len(s.take(k)) as int;
    lemma_chars_within(s, b);
    let c = chars_within(s, b) as int;
    if c < k {
        crate::chars::lemma_utf8_len_take_mono(s, c + 1, k);
    } else if c > k {
        crate::chars::lemma_utf8_len_take_strict(s, k, c);
    }
}

/// Past the end of the text, [`chars_within`] counts every character.
pub proof fn lemma_chars_within_past_end(s: Seq<char>, b: int)
    requires
        b >= utf8_len(s),
    ensures
        chars_within(s, b) == s.len(),
{
    lemma_chars_within(s, b);
    let c = chars_within(s, b) as int;
    if c < s.len() {
        crate::chars::lemma_utf8_len_take_mono(s, c + 1, s.len() as int);
        assert(s.take(s.len() as int) =~= s);
    }
}

/// Caret-moving keys of the multi-line text area.
#[derive(Clone, Copy, Debug, PartialEq, Eq, Structural)]
pub enum NavKey {
    /// Previous visual row, same column.
    Up,
    /// Next visual row, same column.
    Down,
    /// Start of the visual row.
    Home,
    /// End of the visual row.
    End,
}

/// Byte offset of caret `caret` in `s`.
pub open spec fn caret_byte(s: Seq<char>, caret: int) -> int {
    utf8_len(s.take(clamp_len(s, caret))) as int
}

/// Caret after `key` in a text area showing `s` in the visual rows `v`: Home / End
/// go to the start / end of the caret's row; Up / Down keep the column (characters
/// since the row start), clamped to the length of the target row (the first /
/// last row stays put as a target).
pub open spec fn spec_nav_caret(s: Seq<char>, v: Seq<VisualLine>, caret: int, key: NavKey) -> int {
    let li = spec_vline_of_byte(v, caret_byte(s, caret));
    match key {
        NavKey::Home => chars_within(s, v[li].byte_start as int) as int,
        NavKey::End => chars_within(s, v[li].byte_end as int) as int,
        _ => {
            let col = clamp_len(s, caret) - chars_within(s, v[li].byte_start as int);
            let tgt = if key == NavKey::Up {
                if li > 0 {
                    li - 1
                } else {
                    0
                }
            } else if li + 1 < v.len() {
                li + 1
            } else {
                v.len() - 1
            };
            let ks = chars_within(s, v[tgt].byte_start as int) as int;
            let ke = chars_within(s, v[tgt].byte_end as int) as int;
            let row_len = if ks < ke {
                ke - ks
            } else {
                0
            };
            ks + if col < row_len {
                col
            } else {
                row_len
            }
        },
    }
}

/// Selection anchor after a caret move from `caret` to `new_caret`: Shift keeps
/// the anchor (or starts one at the old caret), no Shift drops it, and an anchor
/// left at the caret is dropped.
pub open spec fn spec_nav_anchor(caret: usize, sel_anchor: Option<usize>, shift: bool, new_caret: usize) -> Option<usize> {
    let a = if shift {
        match sel_anchor {
            Some(x) => Some(x),
            None => Some(caret),
        }
    } else {
        None::<usize>
    };
    if a == Some(new_caret) {
        None
    } else {
        a
    }
}

/// Moves the text-area caret with `key` across visual rows, extending the
/// selection while Shift is held and dropping it otherwise (a selection that
/// shrinks to nothing is dropped too).
///
/// The caret's row must start on a character boundary at or before the caret
/// (rows laid out for the current text).
pub fn text_area_nav(value: &str, vlines: &[VisualLine], caret: usize, sel_anchor: Option<usize>, key: NavKey, shift: bool) -> (r: (usize, Option<usize>))
    requires
        vlines@.len() > 0,
        utf8_len(value@) <= usize::MAX,
        ({
            let li = spec_vline_of_byte(vlines@, caret_byte(value@, caret as int));
            (key == NavKey::Up || key == NavKey::Down) ==> (
                (vlines@[li].byte_start < utf8_len(value@) ==> is_byte_boundary(value@, vlines@[li].byte_start as int))
                && vlines@[li].byte_start <= caret_byte(value@, caret as int))
        }),
    ensures
        r.0 == spec_nav_caret(value@, vlines@, caret as int, key),
        r.1 == spec_nav_anchor(caret, sel_anchor, shift, r.0),
{
    // Shift starts (or keeps) a selection; no Shift drops it.
    let mut anchor = if shift {
        match sel_anchor {
            Some(x) => Some(x),
            None => Some(caret),
        }
    } else {
        None
    };
    let v = chars_of(value);
    let n = v.len();
    let cur_char = min_usize(caret, n);
    let cur_byte = char_to_byte(value, caret);
    let li = vline_of_byte(vlines, cur_byte);
    let new_caret = match key {
        NavKey::Home => floor_char_index(&v, vlines[li].byte_start),
        NavKey::End => floor_char_index(&v, vlines[li].byte_end),
        _ => {
            let row_start = byte_to_char(value, vlines[li].byte_start);
            proof {
                let st = vlines@[li as int].byte_start as int;
                if st < utf8_len(value@) {
                    let k = choose|k: int| 0 <= k <= value@.len() && #[trigger] utf8_len(value@.take(k)) == st;
                    crate::chars::lemma_byte_boundary_unique(value@, row_start as int, k);
                    lemma_chars_within_boundary(value@, k);
                    if row_start > cur_char {
                        crate::chars::lemma_utf8_len_take_strict(value@, cur_char as int, row_start as int);
                    }
                } else {
                    lemma_chars_within_past_end(value@, st);
                    assert(value@.take(value@.len() as int) =~= value@);
                    crate::chars::lemma_byte_boundary_unique(value@, row_start as int, value@.len() as int);
                    if cur_char < n {
                        crate::chars::lemma_utf8_len_take_strict(value@, cur_char as int, n as int);
                    }
                }
            }
            let col = cur_char - row_start;
            let last = vlines.len() - 1;
            let tgt = if key == NavKey::Up {
                li.saturating_sub(1)
            } else if li + 1 < vlines.len() {
                li + 1
            } else {
                last
            };
            let ks = floor_char_index(&v, vlines[tgt].byte_start);
            let ke = floor_char_index(&v, vlines[tgt].byte_end);
            let row_len = if ks < ke {
                ke - ks
            } else {
                0
            };
            ks + min_usize(col, row_len)
        },
    };
    if anchor == Some(new_caret) {
        anchor = None;
    }
    (new_caret, anchor)
}

/// Up and Down move the caret exactly one visual row (Down to row `li + 1`, Up to
/// row `li - 1`, where `li` is the caret's row; the last and first rows stay as
/// targets): the caret lands inside the target row's byte range, at its old
/// column (characters since its row's start) clamped to the target row's length.
/// The rows must be laid out for the text: the caret sits at or after its row's
/// start, and the target row starts on a character boundary and ends after it.
pub proof fn law_vertical_nav_moves_one_row(s: Seq<char>, v: Seq<VisualLine>, caret: int, key: NavKey)
    requires
        key == NavKey::Up || key == NavKey::Down,
        v.len() > 0,
        0 <= caret,
        ({
            let li = spec_vline_of_byte(v, caret_byte(s, caret));
            let t = if key == NavKey::Down {
                if li + 1 < v.len() { li + 1 } else { v.len() - 1 }
            } else {
                if li > 0 { li - 1 } else { 0 }
            };
            &&& chars_within(s, v[li].byte_start as int) <= clamp_len(s, caret)
            &&& v[t].byte_start <= v[t].byte_end
            &&& is_byte_boundary(s, v[t].byte_start as int)
        }),
    ensures
        ({
            let li = spec_vline_of_byte(v, caret_byte(s, caret));
            let t = if key == NavKey::Down {
                if li + 1 < v.len() { li + 1 } else { v.len() - 1 }
            } else {
                if li > 0 { li - 1 } else { 0 }
            };
            let r = spec_nav_caret(s, v, caret, key);
            let col = clamp_len(s, caret) - chars_within(s, v[li].byte_start as int);
            let ks = chars_within(s, v[t].byte_start as int);
            let ke = chars_within(s, v[t].byte_end as int);
            &&& v[t].byte_start <= caret_byte(s, r) <= v[t].byte_end
            &&& r - ks == (if col < ke - ks { col } else { ke - ks })
        }),
{
    let li = spec_vline_of_byte(v, caret_byte(s, caret));
    lemma_first_owner_from(v, 0, caret_byte(s, caret));
    let t = if key == NavKey::Down {
        if li + 1 < v.len() { li + 1 } else { v.len() - 1 }
    } else {
        if li > 0 { li - 1 } else { 0 }
    };
    let st = v[t].byte_start as int;
    let en = v[t].byte_end as int;
    let ks = chars_within(s, st) as int;
    let ke = chars_within(s, en) as int;
    lemma_chars_within_mono(s, st, en);
    lemma_chars_within(s, en);
    let k = choose|k: int| 0 <= k <= s.len() && #[trigger] utf8_len(s.take(k)) == st;
    lemma_chars_within_boundary(s, k);
    let r = spec_nav_caret(s, v, caret, key);
    assert(ks <= r <= ke);
    crate::chars::lemma_utf8_len_take_mono(s, ks, r);
    crate::chars::lemma_utf8_len_take_mono(s, r, ke);
}

/// Home / End keep the caret on its visual row: afterwards the caret lies within
/// the characters of that row's byte range.
pub proof fn law_home_end_stay_in_row(s: Seq<char>, v: Seq<VisualLine>, caret: int)
    requires
        v.len() > 0,
        0 <= caret,
        v[spec_vline_of_byte(v, caret_byte(s, caret))].byte_start <= v[spec_vline_of_byte(
            v,
            caret_byte(s, caret),
        )].byte_end,
    ensures
        spec_nav_caret(s, v, caret, NavKey::Home) <= spec_nav_caret(s, v, caret, NavKey::End),
        spec_nav_caret(s, v, caret, NavKey::End) <= s.len(),
{
    let li = spec_vline_of_byte(v, caret_byte(s, caret));
    lemma_first_owner_from(v, 0, caret_byte(s, caret));
    lemma_chars_within_mono(s, v[li].byte_start as int, v[li].byte_end as int);
    lemma_chars_within(s, v[li].byte_end as int);
}

/// Home puts the caret at the start of its visual row and End at the row's end
/// (the text's end when the row runs past it), for rows laid out for the text:
/// the row starts on a character boundary, and ends on one or past the text.
pub proof fn law_home_end_reach_row_ends(s: Seq<char>, v: Seq<VisualLine>, caret: int)
    requires
        v.len() > 0,
        0 <= caret,
        ({
            let li = spec_vline_of_byte(v, caret_byte(s, caret));
            &&& is_byte_boundary(s, v[li].byte_start as int)
            &&& (is_byte_boundary(s, v[li].byte_end as int) || v[li].byte_end >= utf8_len(s))
        }),
    ensures
        ({
            let li = spec_vline_of_byte(v, caret_byte(s, caret));
            &&& caret_byte(s, spec_nav_caret(s, v, caret, NavKey::Home)) == v[li].byte_start
            &&& caret_byte(s, spec_nav_caret(s, v, caret, NavKey::End)) == (if v[li].byte_end < utf8_len(s) {
                v[li].byte_end as int
            } else {
                utf8_len(s) as int
            })
        }),
{
    let li = spec_vline_of_byte(v, caret_byte(s, caret));
    lemma_first_owner_from(v, 0, caret_byte(s, caret));
    let st = v[li].byte_start as int;
    let en = v[li].byte_end as int;
    let k = choose|k: int| 0 <= k <= s.len() && #[trigger] utf8_len(s.take(k)) == st;
    lemma_chars_within_boundary(s, k);
    if is_byte_boundary(s, en) {
        let k2 = choose|k: int| 0 <= k <= s.len() && #[trigger] utf8_len(s.take(k)) == en;
        lemma_chars_within_boundary(s, k2);
        crate::chars::lemma_utf8_len_take_mono(s, k2, s.len() as int);
        assert(s.take(s.len() as int) =~= s);
    } else {
        lemma_chars_within_past_end(s, en);
        assert(s.take(s.len() as int) =~= s);
    }
}

/// After a caret move the selection runs from the old anchor (or, when there was
/// none, the old caret) to the new caret while Shift is held, and there is no
/// selection without Shift.
pub proof fn law_nav_selection(caret: usize, sel_anchor: Option<usize>, shift: bool, new_caret: usize)
    ensures
        !shift ==> spec_sel_range(spec_nav_anchor(caret, sel_anchor, shift, new_caret), new_caret) is None,
        shift ==> spec_sel_range(spec_nav_anchor(caret, sel_anchor, shift, new_caret), new_caret) == spec_sel_range(
            Some(
                match sel_anchor {
                    Some(x) => x,
                    None => caret,
                },
            ),
            new_caret,
        ),
{
}

/// [`chars_within`] grows with the byte budget.
pub proof fn lemma_chars_within_mono(s: Seq<char>, a: int, b: int)
    requires
        a <= b,
    ensures
        chars_within(s, a) <= chars_within(s, b),
    decreases s.len(),
{
    if s.len() > 0 && char_utf8_width(s[0]) <= a {
        lemma_chars_within_mono(s.drop_first(), a - char_utf8_width(s[0]), b - char_utf8_width(s[0]));
    }
}


// ───────────────────────── selection highlight ─────────────────────────

/// `x` raised to `lo`, then lowered to `hi`.
pub open spec fn clamp_between(x: int, lo: int, hi: int) -> int {
    let y = if x < lo { lo } else { x };
    if y > hi { hi } else { y }
}

/// Selection span on visual row `li`: `(li, row start, span start, span end)`, in
/// bytes clamped to the text. On the first row of the selection (`lo_li`) the
/// span starts at the selection start `lo_b`, on its last row (`hi_li`) it ends
/// at the selection end `hi_b`; rows in between are covered whole.
pub open spec fn sel_span_at(
    n: int,
    vlines: Seq<VisualLine>,
    lo_b: int,
    hi_b: int,
    lo_li: int,
    hi_li: int,
    li: int,
) -> (usize, usize, usize, usize) {
    let ls = if vlines[li].byte_start < n { vlines[li].byte_start as int } else { n };
    let le = if vlines[li].byte_end < n { vlines[li].byte_end as int } else { n };
    let c0 = if li == lo_li { clamp_between(lo_b, ls, le) } else { ls };
    let c1 = if li == hi_li { clamp_between(hi_b, ls, le) } else { le };
    (li as usize, ls as usize, c0 as usize, c1 as usize)
}

/// A span that covers something.
pub open spec fn span_nonempty(t: (usize, usize, usize, usize)) -> bool {
    t.2 < t.3
}

/// Spans that highlight the characters `[lo, hi)` of `value` laid out in
/// `vlines`: one per visual row from the row of the selection start to the row of
/// its end, empty ones left out.
pub open spec fn spec_selection_spans(value: Seq<char>, vlines: Seq<VisualLine>, lo: int, hi: int) -> Seq<(usize, usize, usize, usize)> {
    let n = utf8_len(value) as int;
    let lo_b = utf8_len(value.take(clamp_len(value, lo))) as int;
    let hi_b = utf8_len(value.take(clamp_len(value, hi))) as int;
    let lo_li = spec_vline_of_byte(vlines, lo_b);
    let hi_li = spec_vline_of_byte(vlines, hi_b);
    let count: nat = if hi_li >= lo_li { (hi_li - lo_li + 1) as nat } else { 0 };
    Seq::new(count, |k: int| sel_span_at(n, vlines, lo_b, hi_b, lo_li, hi_li, lo_li + k)).filter(
        |t: (usize, usize, usize, usize)| span_nonempty(t),
    )
}

/// Highlight spans of the selection `[lo, hi)` (characters) in a text area whose
/// text `value` is laid out in the rows `vlines`: `(row, row start, span start,
/// span end)` in bytes, one per row touched by the selection that has something
/// to cover. The caller measures `value[row start..span start]` and
/// `value[row start..span end]` for the span's x extent.
pub fn selection_spans(value: &str, vlines: &[VisualLine], lo: usize, hi: usize) -> (r: Vec<(usize, usize, usize, usize)>)
    requires
        vlines@.len() > 0,
        utf8_len(value@) <= usize::MAX,
    ensures
        r@ == spec_selection_spans(value@, vlines@, lo as int, hi as int),
        forall|i: int| 0 <= i < r@.len() ==> span_nonempty(#[trigger] r@[i]) && r@[i].0 < vlines@.len(),
{
    let n = str_byte_len(value);
    let lo_b = char_to_byte(value, lo);
    let hi_b = char_to_byte(value, hi);
    let lo_li = vline_of_byte(vlines, lo_b);
    let hi_li = vline_of_byte(vlines, hi_b);
    let ghost f = |k: int| sel_span_at(n as int, vlines@, lo_b as int, hi_b as int, lo_li as int, hi_li as int, lo_li + k);
    let ghost pred = |t: (usize, usize, usize, usize)| span_nonempty(t);
    let mut out: Vec<(usize, usize, usize, usize)> = Vec::new();
    if hi_li < lo_li {
        proof {
            assert(Seq::new(0, f) =~= Seq::<(usize, usize, usize, usize)>::empty());
            assert(Seq::<(usize, usize, usize, usize)>::empty().filter(pred) =~= Seq::<(usize, usize, usize, usize)>::empty()) by {
                reveal(Seq::filter);
            }
        }
        return out;
    }
    let mut li = lo_li;
    proof {
        assert(Seq::new(0, f) =~= Seq::<(usize, usize, usize, usize)>::empty());
        assert(Seq::<(usize, usize, usize, usize)>::empty().filter(pred) =~= Seq::<(usize, usize, usize, usize)>::empty()) by {
            reveal(Seq::filter);
        }
    }
    while li <= hi_li
        invariant
            lo_li <= li <= hi_li + 1,
            hi_li < vlines@.len(),
            lo_li <= hi_li,
            n == utf8_len(value@),
            f == (|k: int| sel_span_at(n as int, vlines@, lo_b as int, hi_b as int, lo_li as int, hi_li as int, lo_li + k)),
            pred == (|t: (usize, usize, usize, usize)| span_nonempty(t)),
            out@ == Seq::new((li - lo_li) as nat, f).filter(pred),
            forall|i: int| 0 <= i < out@.len() ==> span_nonempty(#[trigger] out@[i]) && out@[i].0 < vlines@.len(),
        decreases hi_li + 1 - li,
    {
        let line = vlines[li];
        let ls = if line.byte_start < n {
            line.byte_start
        } else {
            n
        };
        let le = if line.byte_end < n {
            line.byte_end
        } else {
            n
        };
        let c0 = if li == lo_li {
            let y = if lo_b < ls {
                ls
            } else {
                lo_b
            };
            if y > le {
                le
            } else {
                y
            }
        } else {
            ls
        };
        let c1 = if li == hi_li {
            let y = if hi_b < ls {
                ls
            } else {
                hi_b
            };
            if y > le {
                le
            } else {
                y
            }
        } else {
            le
        };
        let t = (li, ls, c0, c1);
        proof {
            let k = (li - lo_li) as nat;
            assert(t == f(k as int));
            assert(Seq::new(k + 1, f) =~= Seq::new(k, f).push(f(k as int)));
            Seq::new(k, f).lemma_filter_push(f(k as int), pred);
        }
        if c0 < c1 {
            out.push(t);
        }
        li += 1;
    }
    out
}


/// A selection across several visual rows highlights every row in between whole
/// (from the row's start to its end, clamped to the text) when it holds any
/// text; on its first row the highlight runs from the selection start to the
/// row's end, and on its last row from the row's start to the selection end.
pub proof fn law_selection_covers_rows(s: Seq<char>, v: Seq<VisualLine>, lo: int, hi: int, li: int)
    requires
        0 <= li < v.len(),
        ({
            let lo_li = spec_vline_of_byte(v, utf8_len(s.take(clamp_len(s, lo))) as int);
            let hi_li = spec_vline_of_byte(v, utf8_len(s.take(clamp_len(s, hi))) as int);
            lo_li <= li <= hi_li && lo_li < hi_li
        }),
    ensures
        ({
            let n = utf8_len(s) as int;
            let lo_b = utf8_len(s.take(clamp_len(s, lo))) as int;
            let hi_b = utf8_len(s.take(clamp_len(s, hi))) as int;
            let lo_li = spec_vline_of_byte(v, lo_b);
            let hi_li = spec_vline_of_byte(v, hi_b);
            let ls = if v[li].byte_start < n { v[li].byte_start as int } else { n };
            let le = if v[li].byte_end < n { v[li].byte_end as int } else { n };
            let spans = spec_selection_spans(s, v, lo, hi);
            &&& lo_li < li < hi_li && ls < le ==> spans.contains((li as usize, ls as usize, ls as usize, le as usize))
            &&& li == lo_li && clamp_between(lo_b, ls, le) < le ==> spans.contains(
                (li as usize, ls as usize, clamp_between(lo_b, ls, le) as usize, le as usize),
            )
            &&& li == hi_li && ls < clamp_between(hi_b, ls, le) ==> spans.contains(
                (li as usize, ls as usize, ls as usize, clamp_between(hi_b, ls, le) as usize),
            )
        }),
{
    let n = utf8_len(s) as int;
    let lo_b = utf8_len(s.take(clamp_len(s, lo))) as int;
    let hi_b = utf8_len(s.take(clamp_len(s, hi))) as int;
    let lo_li = spec_vline_of_byte(v, lo_b);
    let hi_li = spec_vline_of_byte(v, hi_b);
    let count: nat = (hi_li - lo_li + 1) as nat;
    let f = |k: int| sel_span_at(n, v, lo_b, hi_b, lo_li, hi_li, lo_li + k);
    let pred = |t: (usize, usize, usize, usize)| span_nonempty(t);
    let sq = Seq::new(count, f);
    let k = li - lo_li;
    assert(sq[k] == sel_span_at(n, v, lo_b, hi_b, lo_li, hi_li, li));
    assert(spec_selection_spans(s, v, lo, hi) == sq.filter(pred));
    if pred(sq[k]) {
        sq.lemma_filter_contains(pred, k);
    }
}


/// Every highlight span is a non-empty byte range inside its row (clamped to the
/// text) and inside the selection, on a row between the rows of the selection's
/// start and end.
pub proof fn law_selection_spans_inside(s: Seq<char>, v: Seq<VisualLine>, lo: int, hi: int, x: (usize, usize, usize, usize))
    requires
        spec_selection_spans(s, v, lo, hi).contains(x),
        0 <= lo,
        0 <= hi,
        utf8_len(s) <= usize::MAX,
        v.len() <= usize::MAX,
    ensures
        ({
            let n = utf8_len(s) as int;
            let lo_b = utf8_len(s.take(clamp_len(s, lo))) as int;
            let hi_b = utf8_len(s.take(clamp_len(s, hi))) as int;
            let lo_li = spec_vline_of_byte(v, lo_b);
            let hi_li = spec_vline_of_byte(v, hi_b);
            let li = x.0 as int;
            &&& lo_li <= li <= hi_li
            &&& x.1 == (if v[li].byte_start < n { v[li].byte_start as int } else { n })
            &&& x.1 <= x.2 < x.3 <= (if v[li].byte_end < n { v[li].byte_end as int } else { n })
            &&& li == lo_li ==> lo_b <= x.2
            &&& li == hi_li ==> x.3 <= hi_b
        }),
{
    let n = utf8_len(s) as int;
    let lo_b = utf8_len(s.take(clamp_len(s, lo))) as int;
    let hi_b = utf8_len(s.take(clamp_len(s, hi))) as int;
    let lo_li = spec_vline_of_byte(v, lo_b);
    let hi_li = spec_vline_of_byte(v, hi_b);
    let count: nat = if hi_li >= lo_li { (hi_li - lo_li + 1) as nat } else { 0 };
    let f = |k: int| sel_span_at(n, v, lo_b, hi_b, lo_li, hi_li, lo_li + k);
    let pred = |t: (usize, usize, usize, usize)| span_nonempty(t);
    let sq = Seq::new(count, f);
    assert(spec_selection_spans(s, v, lo, hi) == sq.filter(pred));
    let j = choose|j: int| 0 <= j < sq.filter(pred).len() && sq.filter(pred)[j] == x;
    sq.lemma_filter_pred(pred, j);
    sq.lemma_filter_contains_rev(pred, x);
    assert(pred(x));
    assert(sq.contains(x));
    let k = choose|k: int| 0 <= k < sq.len() && sq[k] == x;
    assert(0 <= k < sq.len());
    lemma_first_owner_from(v, 0, lo_b);
    lemma_first_owner_from(v, 0, hi_b);
    crate::chars::lemma_utf8_len_take_mono(s, clamp_len(s, lo), s.len() as int);
    crate::chars::lemma_utf8_len_take_mono(s, clamp_len(s, hi), s.len() as int);
    assert(sq[k] == sel_span_at(n, v, lo_b, hi_b, lo_li, hi_li, lo_li + k));
}

} // verus!
