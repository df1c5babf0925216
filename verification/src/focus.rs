//! Keyboard navigation: the focus chain (focusable widgets register each frame;
//! Tab / Shift+Tab / arrow keys walk it at frame end).
use vstd::prelude::*;
use crate::chars::str_eq;

verus! {

broadcast use vstd::string::group_string_axioms;

/// Kind of focusable widget (decides how keys act on it).
#[derive(Clone, Copy, Debug, PartialEq, Eq, Structural)]
pub enum FocusKind {
    /// Enter / Space activate.
    Button,
    /// Enter / Space toggle.
    Checkbox,
    /// Enter / Space select.
    Radio,
    /// Left / Right adjust the value; never activated by Enter / Space.
    Slider,
    /// Handles typing itself; never activated by Enter / Space.
    TextInput,
    /// Enter / Space open or close; Up / Down pick an option while open.
    Combo,
}

/// One focusable widget registered this frame (a link of the focus chain).
#[derive(Clone, Debug)]
pub struct FocusEntry {
    /// Absolute id of the widget.
    pub id: String,
    /// Z of the window holding it (`0` outside windows); the chain is ordered by it.
    pub win: u32,
    pub kind: FocusKind,
    /// Container nesting depth.
    pub depth: u32,
}

/// The ids along a focus chain.
pub open spec fn chain_ids(chain: Seq<&FocusEntry>) -> Seq<Seq<char>> {
    chain.map_values(|e: &FocusEntry| e.id@)
}

/// Index of the first occurrence of `id` in `ids`, or `-1` when absent.
pub open spec fn first_index_of(ids: Seq<Seq<char>>, id: Seq<char>) -> int
    decreases ids.len(),
{
    if ids.len() == 0 {
        -1
    } else if ids[0] == id {
        0
    } else {
        let r = first_index_of(ids.drop_first(), id);
        if r < 0 {
            -1
        } else {
            r + 1
        }
    }
}

/// The id focused after moving `dir` (`+1` next, `-1` previous) from `current`
/// along the chain `ids`: the neighbour of the current id's first occurrence,
/// wrapping around; from no id, or one absent from the chain, the first id when
/// moving forward and the last when moving back; nothing for an empty chain.
pub open spec fn spec_focus_step(ids: Seq<Seq<char>>, current: Option<Seq<char>>, dir: int) -> Option<Seq<char>> {
    let n = ids.len() as int;
    if n == 0 {
        None
    } else {
        let i = match current {
            Some(c) => first_index_of(ids, c),
            None => -1,
        };
        if i >= 0 {
            Some(ids[(i + dir) % n])
        } else if dir >= 0 {
            Some(ids[0])
        } else {
            Some(ids[n - 1])
        }
    }
}

/// Characterises [`first_index_of`] by the first matching position.
pub proof fn lemma_first_index_of(ids: Seq<Seq<char>>, id: Seq<char>, k: int)
    requires
        0 <= k <= ids.len(),
        forall|j: int| 0 <= j < k ==> ids[j] != id,
        k < ids.len() ==> ids[k] == id,
    ensures
        first_index_of(ids, id) == (if k < ids.len() {
            k
        } else {
            -1
        }),
    decreases k,
{
    if ids.len() > 0 && k > 0 {
        let rest = ids.drop_first();
        assert forall|j: int| 0 <= j < k - 1 implies rest[j] != id by {
            assert(rest[j] == ids[j + 1]);
        }
        lemma_first_index_of(rest, id, k - 1);
    }
}

/// Moves the focus along the chain (which is already ordered by window):
/// `dir > 0` forward, `dir < 0` back, wrapping around at either end; from no
/// focus (or a focus not in the chain) it starts at the first entry going forward
/// and the last going back. An empty chain gives no focus.
pub fn focus_step<'a>(chain: &[&'a FocusEntry], current: Option<&str>, dir: i32) -> (r: Option<
    String,
>)
    ensures
        spec_focus_step(
            chain_ids(chain@),
            match current {
                Some(c) => Some(c@),
                None => None,
            },
            dir as int,
        ) == match r {
            Some(s) => Some(s@),
            None => None::<Seq<char>>,
        },
{
    let n = chain.len();
    if n == 0 {
        return None;
    }
    let ghost ids = chain_ids(chain@);
    let mut pos: Option<usize> = None;
    if let Some(id) = current {
        let mut k: usize = 0;
        while k < n
            invariant_except_break
                pos is None,
            invariant
                n == chain@.len(),
                ids == chain_ids(chain@),
                0 <= k <= n,
                forall|j: int| 0 <= j < k ==> ids[j] != id@,
            ensures
                0 <= k <= n,
                forall|j: int| 0 <= j < k ==> ids[j] != id@,
                pos is None ==> k == n,
                pos matches Some(p) ==> p == k && k < n && ids[k as int] == id@,
            decreases n - k,
        {
            assert(ids[k as int] == chain@[k as int].id@);
            if str_eq(chain[k].id.as_str(), id) {
                pos = Some(k);
                break;
            }
            k += 1;
        }
        proof {
            lemma_first_index_of(ids, id@, k as int);
        }
        assert(pos matches Some(p) ==> p == first_index_of(ids, id@));
        assert(pos is None ==> first_index_of(ids, id@) == -1);
    }
    match pos {
        Some(i) => {
            let ni: usize = if dir >= 0 {
                let step = (dir as usize) % n;
                proof {
                    vstd::arithmetic::div_mod::lemma_add_mod_noop_right(i as int, dir as int, n as int);
                }
                if step < n - i {
                    proof {
                        vstd::arithmetic::div_mod::lemma_small_mod((i + step) as nat, n as nat);
                    }
                    i + step
                } else {
                    proof {
                        vstd::arithmetic::div_mod::lemma_fundamental_div_mod_converse(
                            i + step,
                            n as int,
                            1,
                            i + step - n,
                        );
                    }
                    step - (n - i)
                }
            } else {
                let mag = (-(dir as i64)) as usize;
                let m = mag % n;
                proof {
                    vstd::arithmetic::div_mod::lemma_sub_mod_noop_right(i as int, mag as int, n as int);
                    assert(i as int + dir as int == i as int - mag as int);
                }
                if m <= i {
                    proof {
                        vstd::arithmetic::div_mod::lemma_small_mod((i - m) as nat, n as nat);
                    }
                    i - m
                } else {
                    proof {
                        vstd::arithmetic::div_mod::lemma_fundamental_div_mod_converse(
                            i - m,
                            n as int,
                            -1,
                            i - m + n,
                        );
                    }
                    i + (n - m)
                }
            };
            assert(ni as int == (i as int + dir as int) % (n as int));
            Some(chain[ni].id.clone())
        },
        None => {
            let idx = if dir >= 0 {
                0
            } else {
                n - 1
            };
            Some(chain[idx].id.clone())
        },
    }
}

/// Position of the first entry of the chain with id `id`.
pub(crate) fn find_in_chain<'a>(chain: &[&'a FocusEntry], id: &str) -> (r: Option<usize>)
    ensures
        first_index_of(chain_ids(chain@), id@) == match r {
            Some(i) => i as int,
            None => -1,
        },
        r matches Some(i) ==> i < chain@.len(),
{
    let ghost ids = chain_ids(chain@);
    let n = chain.len();
    let mut k: usize = 0;
    while k < n
        invariant
            n == chain@.len(),
            ids == chain_ids(chain@),
            0 <= k <= n,
            forall|j: int| 0 <= j < k ==> ids[j] != id@,
        decreases n - k,
    {
        assert(ids[k as int] == chain@[k as int].id@);
        if str_eq(chain[k].id.as_str(), id) {
            proof {
                lemma_first_index_of(ids, id@, k as int);
            }
            return Some(k);
        }
        k += 1;
    }
    proof {
        lemma_first_index_of(ids, id@, n as int);
    }
    None
}

/// Keys that drive focus navigation in one frame.
#[derive(Clone, Copy, Debug, Default, PartialEq, Eq)]
pub struct FocusKeys {
    /// An input method is composing (this frame or the previous one).
    pub composing: bool,
    /// Shift is held.
    pub shift: bool,
    /// Tab went down.
    pub tab: bool,
    /// Arrow Down went down.
    pub arrow_down: bool,
    /// Arrow Up went down.
    pub arrow_up: bool,
    /// Escape went down.
    pub escape: bool,
}

/// Direction of focus movement: none while composing; Tab forward (back with
/// Shift); Down / Up forward / back unless a text input holds the focus (it uses
/// those keys itself).
pub open spec fn spec_focus_dir(keys: FocusKeys, focus_is_text: bool) -> int {
    if keys.composing {
        0
    } else if keys.tab {
        if keys.shift {
            -1
        } else {
            1
        }
    } else if keys.arrow_down && !focus_is_text {
        1
    } else if keys.arrow_up && !focus_is_text {
        -1
    } else {
        0
    }
}

/// Focus and open-dropdown state after the keys of one frame, on the ordered chain:
/// a focus no longer in the chain is dropped; the keys move it along the chain;
/// Escape closes an open dropdown, or else drops the focus.
pub open spec fn spec_handle_focus_keys(
    chain: Seq<&FocusEntry>,
    focused: Option<Seq<char>>,
    combo_open: bool,
    keys: FocusKeys,
) -> (Option<Seq<char>>, bool) {
    let ids = chain_ids(chain);
    let cur = match focused {
        Some(f) => if first_index_of(ids, f) >= 0 {
            Some(f)
        } else {
            None
        },
        None => None,
    };
    let is_text = match cur {
        Some(f) => chain[first_index_of(ids, f)].kind == FocusKind::TextInput,
        None => false,
    };
    let dir = spec_focus_dir(keys, is_text);
    let moved = if dir != 0 {
        spec_focus_step(ids, cur, dir)
    } else {
        cur
    };
    if keys.escape {
        if combo_open {
            (moved, false)
        } else {
            (None, false)
        }
    } else {
        (moved, combo_open)
    }
}

/// Keyboard navigation at frame end, on the chain ordered by window (see
/// [`sort_chain_by_win`]): returns the new focus and whether a dropdown stays open.
pub fn handle_focus_keys<'a>(
    chain: &[&'a FocusEntry],
    focused: Option<&str>,
    combo_open: bool,
    keys: FocusKeys,
) -> (r: (Option<String>, bool))
    ensures
        spec_handle_focus_keys(
            chain@,
            match focused {
                Some(f) => Some(f@),
                None => None,
            },
            combo_open,
            keys,
        ) == (
            match r.0 {
                Some(s) => Some(s@),
                None => None::<Seq<char>>,
            },
            r.1,
        ),
{
    let ghost ids = chain_ids(chain@);
    // a focus not registered this frame is dropped
    let mut cur: Option<&str> = None;
    let mut is_text = false;
    if let Some(f) = focused {
        match find_in_chain(chain, f) {
            Some(i) => {
                cur = Some(f);
                is_text = chain[i].kind == FocusKind::TextInput;
            },
            None => {},
        }
    }
    let dir: i32 = if keys.composing {
        0
    } else if keys.tab {
        if keys.shift {
            -1
        } else {
            1
        }
    } else if keys.arrow_down && !is_text {
        1
    } else if keys.arrow_up && !is_text {
        -1
    } else {
        0
    };
    let mut next: Option<String> = match cur {
        Some(c) => Some(c.to_owned()),
        None => None,
    };
    if dir != 0 {
        next = focus_step(chain, cur, dir);
    }
    let mut open = combo_open;
    if keys.escape {
        if open {
            open = false;
        } else if next.is_some() {
            next = None;
        }
    }
    (next, open)
}

// ───────────────────────── laws ─────────────────────────

/// Moving forward then back returns to the same widget, when the chain holds
/// each id once and the widget is in it.
pub proof fn law_focus_forward_back(ids: Seq<Seq<char>>, i: int)
    requires
        0 <= i < ids.len(),
        forall|a: int, b: int| 0 <= a < b < ids.len() ==> ids[a] != ids[b],
    ensures
        spec_focus_step(ids, spec_focus_step(ids, Some(ids[i]), 1), -1) == Some(ids[i]),
{
    let n = ids.len() as int;
    lemma_first_index_unique(ids, i);
    let j = (i + 1) % n;
    vstd::arithmetic::div_mod::lemma_mod_bound(i + 1, n);
    lemma_first_index_unique(ids, j);
    if i + 1 < n {
        vstd::arithmetic::div_mod::lemma_small_mod((i + 1) as nat, n as nat);
        vstd::arithmetic::div_mod::lemma_small_mod(i as nat, n as nat);
    } else {
        vstd::arithmetic::div_mod::lemma_mod_self_0(n);
        vstd::arithmetic::div_mod::lemma_fundamental_div_mod_converse(-1, n, -1, n - 1);
    }
}

/// Tab moves the focus to the next entry of the chain and Shift+Tab to the
/// previous one, wrapping around at either end (chain of distinct ids, no input
/// method composing, no Escape), whatever the kind of the focused widget.
pub proof fn law_tab_moves_one_entry(chain: Seq<&FocusEntry>, i: int, combo_open: bool, keys: FocusKeys)
    requires
        0 <= i < chain.len(),
        forall|a: int, b: int| 0 <= a < b < chain.len() ==> chain_ids(chain)[a] != chain_ids(chain)[b],
        keys.tab,
        !keys.composing,
        !keys.escape,
    ensures
        ({
            let ids = chain_ids(chain);
            let n = chain.len() as int;
            let j = if keys.shift {
                if i == 0 { n - 1 } else { i - 1 }
            } else {
                if i + 1 == n { 0 } else { i + 1 }
            };
            spec_handle_focus_keys(chain, Some(ids[i]), combo_open, keys) == (Some(ids[j]), combo_open)
        }),
{
    let ids = chain_ids(chain);
    let n = chain.len() as int;
    lemma_first_index_unique(ids, i);
    if keys.shift {
        if i == 0 {
            vstd::arithmetic::div_mod::lemma_fundamental_div_mod_converse(-1, n, -1, n - 1);
        } else {
            vstd::arithmetic::div_mod::lemma_small_mod((i - 1) as nat, n as nat);
        }
    } else {
        if i + 1 == n {
            vstd::arithmetic::div_mod::lemma_mod_self_0(n);
        } else {
            vstd::arithmetic::div_mod::lemma_small_mod((i + 1) as nat, n as nat);
        }
    }
}

/// Without Tab, Arrow Down moves the focus to the next entry and Arrow Up to the
/// previous one (wrapping; Down wins when both are down), unless the focused
/// widget is a text input (chain of distinct ids, no input method composing, no
/// Escape).
pub proof fn law_arrows_move_one_entry(chain: Seq<&FocusEntry>, i: int, combo_open: bool, keys: FocusKeys)
    requires
        0 <= i < chain.len(),
        forall|a: int, b: int| 0 <= a < b < chain.len() ==> chain_ids(chain)[a] != chain_ids(chain)[b],
        !keys.tab,
        keys.arrow_down || keys.arrow_up,
        !keys.composing,
        !keys.escape,
        chain[i].kind != FocusKind::TextInput,
    ensures
        ({
            let ids = chain_ids(chain);
            let n = chain.len() as int;
            let j = if keys.arrow_down {
                if i + 1 == n { 0 } else { i + 1 }
            } else {
                if i == 0 { n - 1 } else { i - 1 }
            };
            spec_handle_focus_keys(chain, Some(ids[i]), combo_open, keys) == (Some(ids[j]), combo_open)
        }),
{
    let ids = chain_ids(chain);
    let n = chain.len() as int;
    lemma_first_index_unique(ids, i);
    if keys.arrow_down {
        if i + 1 == n {
            vstd::arithmetic::div_mod::lemma_mod_self_0(n);
        } else {
            vstd::arithmetic::div_mod::lemma_small_mod((i + 1) as nat, n as nat);
        }
    } else {
        if i == 0 {
            vstd::arithmetic::div_mod::lemma_fundamental_div_mod_converse(-1, n, -1, n - 1);
        } else {
            vstd::arithmetic::div_mod::lemma_small_mod((i - 1) as nat, n as nat);
        }
    }
}

/// In a chain of distinct ids, the first occurrence of an entry's id is the entry itself.
pub proof fn lemma_first_index_unique(ids: Seq<Seq<char>>, i: int)
    requires
        0 <= i < ids.len(),
        forall|a: int, b: int| 0 <= a < b < ids.len() ==> ids[a] != ids[b],
    ensures
        first_index_of(ids, ids[i]) == i,
{
    lemma_first_index_of(ids, ids[i], i);
}

/// From no focus, moving forward focuses the first entry and moving back the last.
pub proof fn law_focus_starts_at_ends(ids: Seq<Seq<char>>)
    requires
        ids.len() > 0,
    ensures
        spec_focus_step(ids, None, 1) == Some(ids[0]),
        spec_focus_step(ids, None, -1) == Some(ids[ids.len() - 1]),
{
}

/// Moving forward from the last entry wraps to the first (distinct ids).
pub proof fn law_focus_wraps_forward(ids: Seq<Seq<char>>)
    requires
        ids.len() > 0,
        forall|a: int, b: int| 0 <= a < b < ids.len() ==> ids[a] != ids[b],
    ensures
        spec_focus_step(ids, Some(ids[ids.len() - 1]), 1) == Some(ids[0]),
{
    lemma_first_index_unique(ids, ids.len() - 1);
    vstd::arithmetic::div_mod::lemma_mod_self_0(ids.len() as int);
}

/// Escape first closes an open drop-down list and leaves the focus where the
/// other keys put it; with no list open it drops the focus.
pub proof fn law_escape_closes_dropdown_first(chain: Seq<&FocusEntry>, focused: Option<Seq<char>>, keys: FocusKeys)
    requires
        keys.escape,
    ensures
        spec_handle_focus_keys(chain, focused, true, keys) == (
            spec_handle_focus_keys(chain, focused, true, FocusKeys { escape: false, ..keys }).0,
            false,
        ),
        spec_handle_focus_keys(chain, focused, false, keys) == (None::<Seq<char>>, false),
{
}

/// While a text input holds the focus, the arrow keys are its own: without Tab
/// or Escape the focus stays on it. While an input method composes, no key
/// moves the focus at all.
pub proof fn law_arrows_and_composition_keep_focus(chain: Seq<&FocusEntry>, f: Seq<char>, combo_open: bool, keys: FocusKeys)
    requires
        first_index_of(chain_ids(chain), f) >= 0,
        !keys.escape,
        (!keys.tab && chain[first_index_of(chain_ids(chain), f)].kind == FocusKind::TextInput) || keys.composing,
    ensures
        spec_handle_focus_keys(chain, Some(f), combo_open, keys) == (Some(f), combo_open),
{
}

/// A found index points at the id.
proof fn lemma_first_index_found(ids: Seq<Seq<char>>, id: Seq<char>)
    ensures
        first_index_of(ids, id) >= 0 ==> first_index_of(ids, id) < ids.len() && ids[first_index_of(ids, id)] == id,
    decreases ids.len(),
{
    if ids.len() > 0 && ids[0] != id {
        lemma_first_index_found(ids.drop_first(), id);
    }
}

/// After the focus keys, the focus is on an entry of the chain, or on none.
pub proof fn lemma_focus_result_in_chain(chain: Seq<&FocusEntry>, focused: Option<Seq<char>>, combo_open: bool, keys: FocusKeys)
    ensures
        spec_handle_focus_keys(chain, focused, combo_open, keys).0 is Some ==> chain_ids(chain).contains(
            spec_handle_focus_keys(chain, focused, combo_open, keys).0->0,
        ),
{
    let ids = chain_ids(chain);
    let n = ids.len() as int;
    if focused is Some {
        lemma_first_index_found(ids, focused->0);
    }
    let cur = match focused {
        Some(f) => if first_index_of(ids, f) >= 0 {
            Some(f)
        } else {
            None
        },
        None => None,
    };
    if n > 0 {
        let i = match cur {
            Some(c) => first_index_of(ids, c),
            None => -1,
        };
        let dir = spec_focus_dir(keys, match cur {
            Some(f) => chain[first_index_of(ids, f)].kind == FocusKind::TextInput,
            None => false,
        });
        if i >= 0 {
            vstd::arithmetic::div_mod::lemma_mod_bound(i + dir, n);
            assert(ids.contains(ids[(i + dir) % n]));
        }
        assert(ids.contains(ids[0]));
        assert(ids.contains(ids[n - 1]));
    }
    if cur is Some {
        assert(ids.contains(ids[first_index_of(ids, cur->0)]));
    }
}

// ───────────────────────── chain ordering ─────────────────────────

/// Entries whose window z is `w`.
pub open spec fn win_is<'a>(w: u32) -> spec_fn(&'a FocusEntry) -> bool {
    |e: &'a FocusEntry| e.win == w
}

/// Ordered by window z, lowest first.
pub open spec fn sorted_by_win(s: Seq<&FocusEntry>) -> bool {
    forall|i: int, j: int| 0 <= i < j < s.len() ==> s[i].win <= s[j].win
}

/// A sequence all of whose elements satisfy `p` is its own filter.
proof fn lemma_filter_all<A>(s: Seq<A>, p: spec_fn(A) -> bool)
    requires
        forall|i: int| 0 <= i < s.len() ==> p(s[i]),
    ensures
        s.filter(p) == s,
    decreases s.len(),
{
    reveal(Seq::filter);
    if s.len() > 0 {
        lemma_filter_all(s.drop_last(), p);
        assert(s.drop_last().push(s.last()) =~= s);
    }
}

/// A sequence none of whose elements satisfies `p` filters to nothing.
proof fn lemma_filter_none<A>(s: Seq<A>, p: spec_fn(A) -> bool)
    requires
        forall|i: int| 0 <= i < s.len() ==> !p(s[i]),
    ensures
        s.filter(p) == Seq::<A>::empty(),
    decreases s.len(),
{
    reveal(Seq::filter);
    if s.len() > 0 {
        lemma_filter_none(s.drop_last(), p);
    }
    assert(s.filter(p) =~= Seq::<A>::empty());
}

/// Orders the chain by window z, lowest first, keeping the registration order
/// within each window (a stable sort): the result is sorted and, for every z, its
/// entries of that window are exactly the input's, in the same order.
pub fn sort_chain_by_win<'a>(chain: &mut Vec<&'a FocusEntry>)
    ensures
        sorted_by_win(final(chain)@),
        forall|w: u32| #[trigger] final(chain)@.filter(win_is(w)) == old(chain)@.filter(win_is(w)),
{
    let ghost src = chain@;
    let n = chain.len();
    let mut out: Vec<&'a FocusEntry> = Vec::new();
    let mut cur: u32 = 0;
    loop
        invariant_except_break
            chain@ == src,
            n == src.len(),
            sorted_by_win(out@),
            forall|i: int| 0 <= i < out@.len() ==> out@[i].win < cur,
            forall|w: u32| w < cur ==> #[trigger] out@.filter(win_is(w)) == src.filter(win_is(w)),
            forall|w: u32| w >= cur ==> #[trigger] out@.filter(win_is(w)) == Seq::<&FocusEntry>::empty(),
        ensures
            sorted_by_win(out@),
            forall|w: u32| #[trigger] out@.filter(win_is(w)) == src.filter(win_is(w)),
        decreases u32::MAX - cur,
    {
        // append the entries of window `cur`, in chain order
        let ghost out0 = out@;
        let mut k: usize = 0;
        proof {
            assert(src.take(0) =~= Seq::<&FocusEntry>::empty());
            assert(src.take(0).filter(win_is(cur)) =~= Seq::<&FocusEntry>::empty()) by {
                reveal(Seq::filter);
            }
            assert(out@ =~= out0 + src.take(0).filter(win_is(cur)));
        }
        while k < n
            invariant
                chain@ == src,
                n == src.len(),
                0 <= k <= n,
                out@ == out0 + src.take(k as int).filter(win_is(cur)),
            decreases n - k,
        {
            let e = chain[k];
            proof {
                assert(src.take(k + 1) =~= src.take(k as int).push(src[k as int]));
                src.take(k as int).lemma_filter_push(src[k as int], win_is(cur));
            }
            if e.win == cur {
                out.push(e);
            }
            k += 1;
        }
        proof {
            assert(src.take(n as int) =~= src);
            let f = src.filter(win_is(cur));
            assert forall|i: int| 0 <= i < f.len() implies (#[trigger] f[i]).win == cur by {
                src.lemma_filter_pred(win_is(cur), i);
            }
            assert forall|w: u32| #[trigger] out@.filter(win_is(w)) == (if w < cur {
                src.filter(win_is(w))
            } else if w == cur {
                f
            } else {
                Seq::<&FocusEntry>::empty()
            }) by {
                Seq::filter_distributes_over_add(out0, f, win_is(w));
                if w == cur {
                    lemma_filter_all(f, win_is(w));
                    assert(out0.filter(win_is(w)) + f =~= f);
                } else {
                    assert forall|i: int| 0 <= i < f.len() implies !(win_is(w))(f[i]) by {
                        assert(f[i].win == cur);
                    }
                    lemma_filter_none(f, win_is(w));
                    assert(out0.filter(win_is(w)) + Seq::<&FocusEntry>::empty() =~= out0.filter(win_is(w)));
                }
            }
            assert forall|i: int, j: int| 0 <= i < j < out@.len() implies out@[i].win <= out@[j].win by {
                if j >= out0.len() {
                    assert(out@[j] == f[j - out0.len()]);
                    if i >= out0.len() {
                        assert(out@[i] == f[i - out0.len()]);
                    }
                }
            }
        }
        // the smallest window z above `cur`
        let mut found = false;
        let mut next: u32 = 0;
        let mut k: usize = 0;
        while k < n
            invariant
                chain@ == src,
                n == src.len(),
                0 <= k <= n,
                found ==> next > cur,
                found ==> exists|j: int| 0 <= j < k && src[j].win == next,
                forall|j: int| 0 <= j < k && src[j].win > cur ==> found && src[j].win >= next,
            decreases n - k,
        {
            let w = chain[k].win;
            if w > cur && (!found || w < next) {
                next = w;
                found = true;
            }
            k += 1;
        }
        if !found {
            proof {
                assert forall|w: u32| w > cur implies #[trigger] src.filter(win_is(w))
                    == Seq::<&FocusEntry>::empty() by {
                    assert forall|i: int| 0 <= i < src.len() implies !(win_is(w))(src[i]) by {}
                    lemma_filter_none(src, win_is(w));
                }
                assert forall|i: int| 0 <= i < out@.len() implies out@[i].win <= cur by {
                    if i >= out0.len() {
                        let f = src.filter(win_is(cur));
                        assert(out@[i] == f[i - out0.len()]);
                        src.lemma_filter_pred(win_is(cur), i - out0.len());
                    }
                }
            }
            break;
        }
        proof {
            assert forall|w: u32| cur < w < next implies #[trigger] src.filter(win_is(w))
                == Seq::<&FocusEntry>::empty() by {
                assert forall|i: int| 0 <= i < src.len() implies !(win_is(w))(src[i]) by {}
                lemma_filter_none(src, win_is(w));
            }
            assert forall|i: int| 0 <= i < out@.len() implies out@[i].win < next by {
                if i >= out0.len() {
                    let f = src.filter(win_is(cur));
                    assert(out@[i] == f[i - out0.len()]);
                    src.lemma_filter_pred(win_is(cur), i - out0.len());
                }
            }
        }
        cur = next;
    }
    *chain = out;
}

} // verus!
