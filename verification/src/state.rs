//! State views returned to the user by buttons, check boxes and radios (plain
//! copies), what is dropped when a widget goes away, and the eviction policy of
//! the shared text layout cache.
use vstd::prelude::*;
pub use crate::hit::WidgetState;
use crate::chars::str_eq;

verus! {

/// What a button reports for one frame.
#[derive(Clone, Copy, Debug, Default, PartialEq, Eq)]
pub struct ButtonState {
    pub(crate) hovered: bool,
    pub(crate) pressed: bool,
    pub(crate) clicked: bool,
    pub(crate) released: bool,
}

impl View for ButtonState {
    /// `(hovered, pressed, clicked, released)`.
    type V = (bool, bool, bool, bool);

    closed spec fn view(&self) -> (bool, bool, bool, bool) {
        (self.hovered, self.pressed, self.clicked, self.released)
    }
}

impl ButtonState {
    pub(crate) fn new(hovered: bool, pressed: bool, clicked: bool, released: bool) -> (r: Self)
        ensures
            r@ == (hovered, pressed, clicked, released),
    {
        ButtonState { hovered, pressed, clicked, released }
    }

    /// The pointer is on the button (also while pressed).
    pub fn hovered(&self) -> (r: bool)
        ensures
            r == self@.0,
    {
        self.hovered
    }

    /// Pressed and not yet released.
    pub fn pressed(&self) -> (r: bool)
        ensures
            r == self@.1,
    {
        self.pressed
    }

    /// A click completed this frame (press and release on the button, or keyboard activation).
    pub fn clicked(&self) -> (r: bool)
        ensures
            r == self@.2,
    {
        self.clicked
    }

    /// Released this frame, wherever the pointer is.
    pub fn released(&self) -> (r: bool)
        ensures
            r == self@.3,
    {
        self.released
    }
}

/// What a check box or radio reports for one frame.
#[derive(Clone, Copy, Debug, Default, PartialEq, Eq)]
pub struct CheckboxState {
    /// The pointer is on the widget (also while pressed).
    pub(crate) hovered: bool,
    /// Pressed and not yet released.
    pub(crate) pressed: bool,
    /// Currently checked (check box: kept by the caller; radio: the group's selection).
    pub(crate) checked: bool,
    /// The state flipped this frame.
    pub(crate) toggled: bool,
    /// A click completed this frame.
    pub(crate) clicked: bool,
}

impl View for CheckboxState {
    /// `(hovered, pressed, checked, toggled, clicked)`.
    type V = (bool, bool, bool, bool, bool);

    closed spec fn view(&self) -> (bool, bool, bool, bool, bool) {
        (self.hovered, self.pressed, self.checked, self.toggled, self.clicked)
    }
}

impl CheckboxState {
    pub(crate) fn new(hovered: bool, pressed: bool, checked: bool, toggled: bool, clicked: bool) -> (r: Self)
        ensures
            r@ == (hovered, pressed, checked, toggled, clicked),
    {
        CheckboxState { hovered, pressed, checked, toggled, clicked }
    }

    pub fn hovered(&self) -> (r: bool)
        ensures
            r == self@.0,
    {
        self.hovered
    }

    pub fn pressed(&self) -> (r: bool)
        ensures
            r == self@.1,
    {
        self.pressed
    }

    pub fn checked(&self) -> (r: bool)
        ensures
            r == self@.2,
    {
        self.checked
    }

    pub fn toggled(&self) -> (r: bool)
        ensures
            r == self@.3,
    {
        self.toggled
    }

    pub fn clicked(&self) -> (r: bool)
        ensures
            r == self@.4,
    {
        self.clicked
    }
}


// ───────────────────────── text layout cache ─────────────────────────

/// Capacity of the shared text layout cache.
pub const TEXT_BUFFER_CACHE_CAP: usize = 256;

/// Entries last used in frame `frame`.
pub open spec fn used_in(frame: u64) -> spec_fn(u64) -> bool {
    |u: u64| u == frame
}

/// Index of the first entry at or after `i` last used in `frame`, the length when none is.
pub open spec fn first_used_from(used: Seq<u64>, frame: u64, i: int) -> int
    decreases used.len() - i,
{
    if i >= used.len() || i < 0 {
        used.len() as int
    } else if used[i] == frame {
        i
    } else {
        first_used_from(used, frame, i + 1)
    }
}

/// Which entries of the cache stay when a new one is about to go in (`used`:
/// each entry's last-used frame, in the cache's iteration order). Below capacity
/// all stay. At capacity, the entries not used in this frame go, so that static
/// labels used every frame survive text that changes every frame; when that
/// still leaves the cache full, the first remaining entry goes as well.
pub open spec fn spec_cache_keep(used: Seq<u64>, frame: u64, cap: int) -> Seq<bool> {
    let n = used.len();
    if n < cap {
        Seq::new(n, |i: int| true)
    } else {
        let cnt = used.filter(used_in(frame)).len();
        let first = first_used_from(used, frame, 0);
        Seq::new(n, |i: int| used[i] == frame && !(cnt >= cap && i == first))
    }
}

proof fn lemma_first_used_from(used: Seq<u64>, frame: u64, i: int)
    requires
        0 <= i <= used.len(),
    ensures
        i <= first_used_from(used, frame, i) <= used.len(),
        first_used_from(used, frame, i) < used.len() ==> used[first_used_from(used, frame, i)] == frame,
        forall|j: int| i <= j < first_used_from(used, frame, i) ==> used[j] != frame,
    decreases used.len() - i,
{
    if i < used.len() && used[i] != frame {
        lemma_first_used_from(used, frame, i + 1);
    }
}

proof fn lemma_none_used(used: Seq<u64>, frame: u64)
    requires
        forall|j: int| 0 <= j < used.len() ==> used[j] != frame,
    ensures
        used.filter(used_in(frame)).len() == 0,
    decreases used.len(),
{
    reveal(Seq::filter);
    if used.len() > 0 {
        lemma_none_used(used.drop_last(), frame);
    }
}

/// See [`spec_cache_keep`]; also returns how many entries stay. A cache that
/// never held more than its capacity has room for the new entry afterwards.
pub fn text_cache_keep(used: &[u64], frame: u64, cap: usize) -> (r: (Vec<bool>, usize))
    ensures
        r.0@ == spec_cache_keep(used@, frame, cap as int),
        r.1 == r.0@.filter(|b: bool| b).len(),
        used@.len() <= cap && cap >= 1 ==> r.1 + 1 <= cap,
{
    let n = used.len();
    let ghost eq = used_in(frame);
    let ghost tru = |b: bool| b;
    // entries used this frame, and the first of them
    let mut cnt: usize = 0;
    let mut first: usize = n;
    let mut i: usize = 0;
    proof {
        assert(used@.take(0) =~= Seq::<u64>::empty());
        assert(Seq::<u64>::empty().filter(eq) =~= Seq::<u64>::empty()) by {
            reveal(Seq::filter);
        }
        lemma_first_used_from(used@, frame, 0);
    }
    while i < n
        invariant
            0 <= i <= n,
            n == used@.len(),
            eq == used_in(frame),
            cnt == used@.take(i as int).filter(eq).len(),
            cnt <= i,
            first == (if first_used_from(used@, frame, 0) < i { first_used_from(used@, frame, 0) } else { n as int }),
            i <= first_used_from(used@, frame, 0) ==> forall|j: int| 0 <= j < i ==> used@[j] != frame,
        decreases n - i,
    {
        proof {
            assert(used@.take(i + 1) =~= used@.take(i as int).push(used@[i as int]));
            used@.take(i as int).lemma_filter_push(used@[i as int], eq);
            lemma_first_used_from(used@, frame, 0);
        }
        if used[i] == frame {
            cnt += 1;
            if first == n {
                first = i;
            }
        }
        i += 1;
    }
    proof {
        assert(used@.take(n as int) =~= used@);
        lemma_first_used_from(used@, frame, 0);
        if first_used_from(used@, frame, 0) >= n {
            lemma_none_used(used@, frame);
        }
    }
    let big = cnt >= cap;
    let ghost f = |j: int| if (n as int) < (cap as int) { true } else { used@[j] == frame && !(big && j == first) };
    let mut keep: Vec<bool> = Vec::new();
    let mut kept: usize = 0;
    let mut k: usize = 0;
    proof {
        assert(Seq::<bool>::empty().filter(tru) =~= Seq::<bool>::empty()) by {
            reveal(Seq::filter);
        }
    }
    while k < n
        invariant
            0 <= k <= n,
            n == used@.len(),
            eq == used_in(frame),
            tru == (|b: bool| b),
            cnt == used@.filter(eq).len(),
            first == first_used_from(used@, frame, 0) || (first == n && first_used_from(used@, frame, 0) == n),
            cnt > 0 ==> first < n,
            f == (|j: int| if (n as int) < (cap as int) { true } else { used@[j] == frame && !(big && j == first) }),
            keep@ == Seq::new(k as nat, f),
            kept == keep@.filter(tru).len(),
            (n as int) < (cap as int) ==> kept == k,
            (n as int) >= (cap as int) ==> kept == used@.take(k as int).filter(eq).len() - (if big && first < k { 1int } else { 0int }),
        decreases n - k,
    {
        let b = if n < cap {
            true
        } else {
            used[k] == frame && !(big && k == first)
        };
        proof {
            assert(b == f(k as int));
            assert(Seq::new((k + 1) as nat, f) =~= Seq::new(k as nat, f).push(b));
            Seq::new(k as nat, f).lemma_filter_push(b, tru);
            assert(used@.take(k + 1) =~= used@.take(k as int).push(used@[k as int]));
            used@.take(k as int).lemma_filter_push(used@[k as int], eq);
            lemma_first_used_from(used@, frame, 0);
            if big && k == first {
                assert(used@[k as int] == frame);
            }
        }
        keep.push(b);
        if b {
            kept += 1;
        }
        k += 1;
    }
    proof {
        assert(used@.take(n as int) =~= used@);
        used@.filter_lemma(eq);
        assert(Seq::new(n as nat, f) =~= spec_cache_keep(used@, frame, cap as int));
    }
    (keep, kept)
}


// ───────────────────────── forgetting a widget ─────────────────────────

/// When the widget `id` goes away, the keyboard focus it held is dropped.
pub fn forget_focus(focused: &mut Option<String>, id: &str)
    ensures
        *final(focused) == (match *old(focused) {
            Some(f) => if f@ == id@ {
                None
            } else {
                Some(f)
            },
            None => None,
        }),
{
    let drop = match focused {
        Some(f) => str_eq(f.as_str(), id),
        None => false,
    };
    if drop {
        *focused = None;
    }
}

/// When the widget `id` goes away, every radio group that had it selected is
/// left with no selection (an empty id); the other groups keep theirs.
pub fn forget_selection(selected: &mut Vec<String>, id: &str)
    ensures
        final(selected)@.len() == old(selected)@.len(),
        forall|i: int| 0 <= i < old(selected)@.len() ==> (#[trigger] final(selected)@[i])@ == (if old(selected)@[i]@ == id@ {
            Seq::<char>::empty()
        } else {
            old(selected)@[i]@
        }),
{
    let n = selected.len();
    let mut k: usize = 0;
    while k < n
        invariant
            0 <= k <= n,
            n == selected@.len(),
            n == old(selected)@.len(),
            forall|i: int| k <= i < n ==> #[trigger] selected@[i] == old(selected)@[i],
            forall|i: int| 0 <= i < k ==> (#[trigger] selected@[i])@ == (if old(selected)@[i]@ == id@ {
                Seq::<char>::empty()
            } else {
                old(selected)@[i]@
            }),
        decreases n - k,
    {
        if str_eq(selected[k].as_str(), id) {
            selected.set(k, String::new());
        }
        k += 1;
    }
}

} // verus!
