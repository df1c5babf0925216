//! ID namespaces: [`IdRelative`] (a widget's own name) and [`IdAbsolute`] (the
//! full state key, prefixed with the enclosing containers' names).
//!
//! [`IdStack::push`] and [`IdStack::id_for`] take only relative ids, so an
//! already-resolved id can never be prefixed twice; state lookups take absolute ids.
//! At top level (empty stack) an absolute id borrows the label (no allocation);
//! nested ids are joined once as `prefix/label`.
use std::borrow::Cow;
use vstd::prelude::*;
use crate::chars::{chars_of, string_from_range, string_push};

verus! {

broadcast use vstd::string::group_string_axioms;

/// Relative id: the raw name given by the application or widget author,
/// without any namespace prefix.
#[derive(Clone, Copy, Debug, PartialEq, Eq, Hash)]
pub struct IdRelative<'a>(&'a str);

impl<'a> View for IdRelative<'a> {
    type V = Seq<char>;

    closed spec fn view(&self) -> Seq<char> {
        self.0@
    }
}

impl<'a> From<&'a str> for IdRelative<'a> {
    fn from(id: &'a str) -> (r: Self)
        ensures
            r@ == id@,
    {
        IdRelative(id)
    }
}

impl<'a> vstd::std_specs::convert::FromSpecImpl<&'a str> for IdRelative<'a> {
    open spec fn obeys_from_spec() -> bool {
        true
    }

    closed spec fn from_spec(v: &'a str) -> Self {
        IdRelative(v)
    }
}

impl IdRelative<'_> {
    /// The raw name.
    pub fn as_str(&self) -> (r: &str)
        ensures
            r@ == self@,
    {
        self.0
    }
}

/// Absolute id: the full namespaced state key (such as `"win/btn"`).
///
/// Borrowed from the label at top level, owned when joined with a prefix.
#[derive(Debug, Hash)]
pub struct IdAbsolute<'a>(pub Cow<'a, str>);

impl<'a> Clone for IdAbsolute<'a> {
    /// Same key; a borrowed id stays borrowed.
    fn clone(&self) -> (r: Self)
        ensures
            r == *self,
    {
        match &self.0 {
            Cow::Borrowed(s) => IdAbsolute(Cow::Borrowed(s)),
            Cow::Owned(s) => IdAbsolute(Cow::Owned(s.clone())),
        }
    }
}

impl<'a> View for IdAbsolute<'a> {
    type V = Seq<char>;

    open spec fn view(&self) -> Seq<char> {
        self.0@
    }
}

impl<'a> PartialEq for IdAbsolute<'a> {
    fn eq(&self, other: &Self) -> (r: bool) {
        crate::chars::str_eq(self.as_str(), other.as_str())
    }
}

impl<'a> vstd::std_specs::cmp::PartialEqSpecImpl for IdAbsolute<'a> {
    open spec fn obeys_eq_spec() -> bool {
        true
    }

    open spec fn eq_spec(&self, other: &Self) -> bool {
        self@ == other@
    }
}

impl<'a> Eq for IdAbsolute<'a> {
}

impl<'a> std::borrow::Borrow<str> for IdAbsolute<'a> {
    /// The key as a string slice, so that maps keyed by absolute ids can be read
    /// with a plain `&str` (equal ids have equal text and hash as that text).
    fn borrow(&self) -> &str {
        self.as_str()
    }
}

impl<'a> IdAbsolute<'a> {
    /// The key as a string slice.
    pub fn as_str(&self) -> (r: &str)
        ensures
            r@ == self@,
    {
        match &self.0 {
            Cow::Borrowed(s) => s,
            Cow::Owned(s) => s.as_str(),
        }
    }

    /// An owned absolute id (sub-keys such as `grip` / `popup`).
    pub fn owned(s: String) -> (r: IdAbsolute<'static>)
        ensures
            r@ == s@,
            r.0 is Owned,
    {
        IdAbsolute(Cow::Owned(s))
    }

    /// A copy that can be stored across frames (always owned).
    pub fn to_static(&self) -> (r: IdAbsolute<'static>)
        ensures
            r@ == self@,
            r.0 is Owned,
    {
        IdAbsolute(Cow::Owned(self.as_str().to_owned()))
    }
}

impl<'a> From<&'a str> for IdAbsolute<'a> {
    fn from(id: &'a str) -> (r: Self)
        ensures
            r@ == id@,
            r.0 is Borrowed,
    {
        IdAbsolute(Cow::Borrowed(id))
    }
}

impl<'a> vstd::std_specs::convert::FromSpecImpl<&'a str> for IdAbsolute<'a> {
    open spec fn obeys_from_spec() -> bool {
        true
    }

    open spec fn from_spec(v: &'a str) -> Self {
        IdAbsolute(Cow::Borrowed(v))
    }
}

/// The prefix the stack spells out for the segments `p`: each segment is
/// appended, preceded by `'/'` unless the prefix so far is empty.
pub open spec fn join_ids(p: Seq<Seq<char>>) -> Seq<char>
    decreases p.len(),
{
    if p.len() == 0 {
        Seq::empty()
    } else {
        let pre = join_ids(p.drop_last());
        if pre.len() == 0 {
            p.last()
        } else {
            pre + seq!['/'] + p.last()
        }
    }
}

/// The characters in front of segment `i` in the joined prefix (the separator included).
pub open spec fn seg_lead(p: Seq<Seq<char>>, i: int) -> Seq<char> {
    let pre = join_ids(p.take(i));
    if pre.len() == 0 {
        pre
    } else {
        pre + seq!['/']
    }
}

/// The absolute id that the segments `p` give to the label `label`.
pub open spec fn spec_id_for(p: Seq<Seq<char>>, label: Seq<char>) -> Seq<char> {
    if p.len() == 0 {
        label
    } else {
        join_ids(p) + seq!['/'] + label
    }
}

/// Pushing a segment and popping it again restores the stack and its prefix.
pub proof fn law_push_pop_restores(p: Seq<Seq<char>>, x: Seq<char>)
    ensures
        p.push(x).drop_last() == p,
        join_ids(p.push(x).drop_last()) == join_ids(p),
{
    assert(p.push(x).drop_last() =~= p);
}

/// At top level an absolute id is the label itself.
pub proof fn law_top_level_id_is_label(label: Seq<char>)
    ensures
        spec_id_for(Seq::empty(), label) == label,
{
}

/// Under a non-empty prefix, the id of a label is the prefix the stack would
/// spell after pushing that label.
pub proof fn law_nested_id_is_pushed_prefix(p: Seq<Seq<char>>, label: Seq<char>)
    requires
        join_ids(p).len() > 0,
    ensures
        spec_id_for(p, label) == join_ids(p.push(label)),
{
    assert(p.push(label).drop_last() =~= p);
    if p.len() == 0 {
        assert(join_ids(p) =~= Seq::<char>::empty());
    }
}

/// ID namespace stack: one contiguous prefix buffer plus the position (in
/// characters) at which each segment starts, maintained in place on push / pop.
pub struct IdStack {
    /// Contiguous prefix, such as `"outer/inner"`.
    buf: String,
    /// Character offset in `buf` where each segment starts.
    segs: Vec<usize>,
    /// The segments pushed so far.
    parts: Ghost<Seq<Seq<char>>>,
}

impl View for IdStack {
    type V = Seq<Seq<char>>;

    closed spec fn view(&self) -> Seq<Seq<char>> {
        self.parts@
    }
}

impl IdStack {
    /// The buffer spells out the pushed segments and `segs` records where each starts.
    pub closed spec fn wf(&self) -> bool {
        let p = self.parts@;
        &&& self.buf@ == join_ids(p)
        &&& self.segs@.len() == p.len()
        &&& forall|i: int| 0 <= i < p.len() ==> self.segs@[i] == (#[trigger] seg_lead(p, i)).len()
    }

    /// An empty stack.
    pub fn new() -> (r: Self)
        ensures
            r.wf(),
            r@ == Seq::<Seq<char>>::empty(),
    {
        IdStack { buf: String::new(), segs: Vec::new(), parts: Ghost(Seq::empty()) }
    }

    /// Enters a namespace segment (a container begins).
    pub fn push(&mut self, id_relative: IdRelative<'_>)
        requires
            old(self).wf(),
        ensures
            final(self).wf(),
            final(self)@ == old(self)@.push(id_relative@),
            join_ids(final(self)@) == (if join_ids(old(self)@).len() == 0 {
                id_relative@
            } else {
                join_ids(old(self)@) + seq!['/'] + id_relative@
            }),
    {
        let ghost p = self.parts@;
        let ghost q = p.push(id_relative@);
        let ghost old_segs = self.segs@;
        assert(q.drop_last() =~= p);
        let label = id_relative.as_str();
        if !self.buf.as_str().is_empty() {
            string_push(&mut self.buf, '/');
        }
        proof {
            assert(q.take(p.len() as int) =~= p);
            assert(self.buf@ == seg_lead(q, p.len() as int));
        }
        let start = chars_of(self.buf.as_str()).len();
        let lv = chars_of(label);
        let mut k: usize = 0;
        let ghost lead = self.buf@;
        while k < lv.len()
            invariant
                lv@ == id_relative@,
                0 <= k <= lv@.len(),
                self.buf@ == lead + lv@.take(k as int),
                self.segs@ == old_segs,
                self.parts@ == p,
            decreases lv.len() - k,
        {
            string_push(&mut self.buf, lv[k]);
            assert(lv@.take(k + 1) =~= lv@.take(k as int).push(lv@[k as int]));
            assert(self.buf@ =~= lead + lv@.take(k + 1));
            k += 1;
        }
        self.segs.push(start);
        self.parts = Ghost(q);
        proof {
            assert(lv@.take(lv@.len() as int) =~= lv@);
            assert(q.drop_last() =~= p);
            assert(self.buf@ =~= join_ids(q));
            assert forall|i: int| 0 <= i < q.len() implies self.segs@[i] == (#[trigger] seg_lead(q, i)).len() by {
                if i < p.len() {
                    assert(q.take(i) =~= p.take(i));
                    assert(seg_lead(q, i) == seg_lead(p, i));
                    assert(self.segs@[i] == old_segs[i]);
                } else {
                    assert(self.segs@[i] == start);
                }
            }
        }
    }

    /// Leaves the innermost namespace segment (a container ends); nothing on an empty stack.
    pub fn pop(&mut self)
        requires
            old(self).wf(),
        ensures
            final(self).wf(),
            final(self)@ == (if old(self)@.len() == 0 {
                old(self)@
            } else {
                old(self)@.drop_last()
            }),
    {
        let ghost p = self.parts@;
        if let Some(start) = self.segs.pop() {
            let ghost q = p.drop_last();
            let ghost pre = join_ids(q);
            let ghost whole = self.buf@;
            let new_len = start.saturating_sub(1);
            proof {
                assert(p.take(p.len() - 1) =~= q);
                assert(start == seg_lead(p, p.len() - 1).len());
                // the kept characters are exactly the shorter prefix
                if pre.len() == 0 {
                    assert(new_len == 0);
                } else {
                    assert(whole =~= pre + seq!['/'] + p.last());
                    assert(new_len == pre.len());
                }
                assert(whole.take(new_len as int) =~= pre);
            }
            let v = chars_of(self.buf.as_str());
            self.buf = string_from_range(&v, 0, new_len);
            self.parts = Ghost(q);
            proof {
                assert(v@.subrange(0, new_len as int) =~= whole.take(new_len as int));
                assert forall|i: int| 0 <= i < q.len() implies self.segs@[i] == (#[trigger] seg_lead(q, i)).len() by {
                    assert(q.take(i) =~= p.take(i));
                    assert(seg_lead(q, i) == seg_lead(p, i));
                }
            }
        }
    }

    /// The absolute id of `id_relative` under the current stack: the label itself
    /// (borrowed) at top level, `prefix/label` (owned) when nested.
    pub fn id_for<'s, 'l>(&'s mut self, id_relative: IdRelative<'l>) -> (r: IdAbsolute<'l>)
        requires
            old(self).wf(),
        ensures
            *final(self) == *old(self),
            r@ == spec_id_for(old(self)@, id_relative@),
            old(self)@.len() == 0 ==> r.0 is Borrowed,
            old(self)@.len() > 0 ==> r.0 is Owned,
    {
        if self.segs.len() == 0 {
            IdAbsolute(Cow::Borrowed(id_relative.0))
        } else {
            let mut out = self.buf.clone();
            string_push(&mut out, '/');
            let lv = chars_of(id_relative.0);
            let mut k: usize = 0;
            let ghost lead = out@;
            while k < lv.len()
                invariant
                    lv@ == id_relative@,
                    0 <= k <= lv@.len(),
                    out@ == lead + lv@.take(k as int),
                decreases lv.len() - k,
            {
                string_push(&mut out, lv[k]);
                assert(lv@.take(k + 1) =~= lv@.take(k as int).push(lv@[k as int]));
                assert(out@ =~= lead + lv@.take(k + 1));
                k += 1;
            }
            assert(lv@.take(lv@.len() as int) =~= lv@);
            IdAbsolute(Cow::Owned(out))
        }
    }

    /// The current prefix (without a trailing slash).
    pub fn prefix(&self) -> (r: &str)
        requires
            self.wf(),
        ensures
            r@ == join_ids(self@),
    {
        self.buf.as_str()
    }
}

} // verus!
