//! Character-level view of strings: UTF-8 byte widths, conversion between `&str`
//! and `Vec<char>`, and the few `String` primitives the editing code builds on.
use vstd::prelude::*;
use vstd::utf8::*;

verus! {

broadcast use vstd::string::group_string_axioms;

/// Number of bytes in the UTF-8 encoding of a character sequence.
pub open spec fn utf8_len(cs: Seq<char>) -> nat {
    encode_utf8(cs).len()
}

/// Number of bytes in the UTF-8 encoding of one character.
pub open spec fn char_utf8_width(c: char) -> nat {
    encode_scalar(c as u32).len()
}

/// `b` is the byte offset of a character boundary of `cs` (the start of some
/// character, or the end of the text).
pub open spec fn is_byte_boundary(cs: Seq<char>, b: int) -> bool {
    exists|k: int| 0 <= k <= cs.len() && #[trigger] utf8_len(cs.take(k)) == b
}

/// Encoding distributes over concatenation.
pub proof fn lemma_encode_utf8_concat(a: Seq<char>, b: Seq<char>)
    ensures
        encode_utf8(a + b) == encode_utf8(a) + encode_utf8(b),
    decreases a.len(),
{
    if a.len() == 0 {
        assert(a + b =~= b);
        assert(encode_utf8(a) + encode_utf8(b) =~= encode_utf8(b));
    } else {
        assert((a + b).drop_first() =~= a.drop_first() + b);
        assert((a + b)[0] == a[0]);
        lemma_encode_utf8_concat(a.drop_first(), b);
        assert(encode_utf8(a + b) =~= encode_scalar(a[0] as u32) + (encode_utf8(a.drop_first())
            + encode_utf8(b)));
    }
}

/// Every character takes between one and four bytes.
pub proof fn lemma_char_width_bounds(c: char)
    ensures
        1 <= char_utf8_width(c) <= 4,
{
}

/// Appending one character adds its width.
pub proof fn lemma_utf8_len_push(s: Seq<char>, c: char)
    ensures
        utf8_len(s.push(c)) == utf8_len(s) + char_utf8_width(c),
{
    lemma_encode_utf8_concat(s, seq![c]);
    assert(s.push(c) =~= s + seq![c]);
    assert(seq![c].drop_first() =~= Seq::<char>::empty());
    lemma_encode_single(c);
}

/// The encoding of a one-character sequence.
pub proof fn lemma_encode_single(c: char)
    ensures
        encode_utf8(seq![c]) == encode_scalar(c as u32),
{
    let one = seq![c];
    assert(one.drop_first() =~= Seq::<char>::empty());
    assert(encode_utf8(Seq::<char>::empty()) =~= Seq::<u8>::empty());
    assert(encode_utf8(one) == encode_scalar(one[0] as u32) + encode_utf8(one.drop_first()));
    assert(encode_utf8(one) =~= encode_scalar(c as u32));
}

/// Encoded length of a prefix, one character at a time.
pub proof fn lemma_utf8_len_take_step(s: Seq<char>, k: int)
    requires
        0 <= k < s.len(),
    ensures
        utf8_len(s.take(k + 1)) == utf8_len(s.take(k)) + char_utf8_width(s[k]),
{
    assert(s.take(k + 1) =~= s.take(k).push(s[k]));
    lemma_utf8_len_push(s.take(k), s[k]);
}

/// Encoded length of a prefix grows strictly with the prefix.
pub proof fn lemma_utf8_len_take_strict(s: Seq<char>, i: int, j: int)
    requires
        0 <= i < j <= s.len(),
    ensures
        utf8_len(s.take(i)) < utf8_len(s.take(j)),
    decreases j - i,
{
    lemma_utf8_len_take_step(s, j - 1);
    lemma_char_width_bounds(s[j - 1]);
    if i < j - 1 {
        lemma_utf8_len_take_strict(s, i, j - 1);
    }
}

/// Encoded length of a prefix never decreases and is bounded by the whole.
pub proof fn lemma_utf8_len_take_mono(s: Seq<char>, i: int, j: int)
    requires
        0 <= i <= j <= s.len(),
    ensures
        utf8_len(s.take(i)) <= utf8_len(s.take(j)),
        utf8_len(s.take(j)) <= utf8_len(s),
{
    if i < j {
        lemma_utf8_len_take_strict(s, i, j);
    }
    if j < s.len() {
        lemma_utf8_len_take_strict(s, j, s.len() as int);
    }
    assert(s.take(s.len() as int) =~= s);
}

/// A byte boundary determines the character count in front of it.
pub proof fn lemma_byte_boundary_unique(s: Seq<char>, i: int, j: int)
    requires
        0 <= i <= s.len(),
        0 <= j <= s.len(),
        utf8_len(s.take(i)) == utf8_len(s.take(j)),
    ensures
        i == j,
{
    if i < j {
        lemma_utf8_len_take_strict(s, i, j);
    } else if j < i {
        lemma_utf8_len_take_strict(s, j, i);
    }
}




/// UTF-8 width of one character.
pub fn char_width(c: char) -> (w: usize)
    ensures
        w == char_utf8_width(c),
        1 <= w <= 4,
{
    let v = c as u32;
    proof {
        char_is_scalar(c);
    }
    if v <= 0x7F {
        1
    } else if v <= 0x7FF {
        2
    } else if v <= 0xFFFF {
        3
    } else {
        4
    }
}

/// The characters of `s`, in order.
pub fn chars_of(s: &str) -> (v: Vec<char>)
    ensures
        v@ == s@,
{
    let mut v: Vec<char> = Vec::new();
    for c in it: s.chars()
        invariant
            v@ == it.seq().take(it.index()),
    {
        v.push(c);
    }
    v
}

/// Byte length of a string.
pub fn str_byte_len(s: &str) -> (n: usize)
    requires
        utf8_len(s@) <= usize::MAX,
    ensures
        n == utf8_len(s@),
{
    s.len()
}

/// Calls `String::push`, which appends one character: the contract claims the
/// string's characters afterwards are the old ones followed by `c`.
#[verifier::external_body]
pub(crate) fn string_push(s: &mut String, c: char)
    ensures
        final(s)@ == old(s)@.push(c),
{
    s.push(c);
}


/// A string holding exactly the characters of `v[lo..hi]`.
pub fn string_from_range(v: &Vec<char>, lo: usize, hi: usize) -> (s: String)
    requires
        lo <= hi <= v@.len(),
    ensures
        s@ == v@.subrange(lo as int, hi as int),
{
    let mut s = String::new();
    let mut i = lo;
    while i < hi
        invariant
            lo <= i <= hi <= v@.len(),
            s@ == v@.subrange(lo as int, i as int),
        decreases hi - i,
    {
        string_push(&mut s, v[i]);
        assert(v@.subrange(lo as int, i + 1) =~= v@.subrange(lo as int, i as int).push(v@[i as int]));
        i += 1;
    }
    s
}

/// A string holding exactly the characters of `v`.
pub fn string_from_chars(v: &Vec<char>) -> (s: String)
    ensures
        s@ == v@,
{
    let s = string_from_range(v, 0, v.len());
    assert(v@.subrange(0, v@.len() as int) =~= v@);
    s
}

/// Character-wise equality of two strings.
pub fn str_eq(a: &str, b: &str) -> (r: bool)
    ensures
        r == (a@ == b@),
{
    let va = chars_of(a);
    let vb = chars_of(b);
    if va.len() != vb.len() {
        return false;
    }
    let mut i: usize = 0;
    while i < va.len()
        invariant
            va@ == a@,
            vb@ == b@,
            va@.len() == vb@.len(),
            0 <= i <= va@.len(),
            forall|j: int| 0 <= j < i ==> va@[j] == vb@[j],
        decreases va.len() - i,
    {
        if va[i] != vb[i] {
            return false;
        }
        i += 1;
    }
    assert(va@ =~= vb@);
    true
}


/// Unicode `White_Space` characters: tab, line feed, vertical tab, form feed,
/// carriage return, space, next line, no-break space, ogham space mark, the
/// spaces U+2000..U+200A, line and paragraph separators, narrow no-break space,
/// medium mathematical space and ideographic space.
pub open spec fn is_white_space(c: char) -> bool {
    let v = c as u32;
    ||| 0x09 <= v <= 0x0D
    ||| v == 0x20
    ||| v == 0x85
    ||| v == 0xA0
    ||| v == 0x1680
    ||| 0x2000 <= v <= 0x200A
    ||| v == 0x2028
    ||| v == 0x2029
    ||| v == 0x202F
    ||| v == 0x205F
    ||| v == 0x3000
}

fn white_space(c: char) -> (r: bool)
    ensures
        r == is_white_space(c),
{
    let v = c as u32;
    (0x09 <= v && v <= 0x0D) || v == 0x20 || v == 0x85 || v == 0xA0 || v == 0x1680 || (0x2000 <= v
        && v <= 0x200A) || v == 0x2028 || v == 0x2029 || v == 0x202F || v == 0x205F || v == 0x3000
}

/// `s` without its leading and trailing white space: the characters from the
/// first one that is not white space to the last one that is not (empty when
/// every character is white space).
pub open spec fn spec_trim(s: Seq<char>) -> Seq<char> {
    if exists|i: int| 0 <= i < s.len() && !is_white_space(#[trigger] s[i]) {
        let a = choose|a: int| 0 <= a < s.len() && !is_white_space(s[a]) && forall|i: int| 0 <= i < a ==> is_white_space(#[trigger] s[i]);
        let b = choose|b: int| 0 <= b < s.len() && !is_white_space(s[b]) && forall|i: int| b < i < s.len() ==> is_white_space(#[trigger] s[i]);
        s.subrange(a, b + 1)
    } else {
        Seq::empty()
    }
}

/// `s` with leading and trailing white space removed (see [`spec_trim`]).
pub fn trim_white_space(s: &str) -> (r: String)
    ensures
        r@ == spec_trim(s@),
{
    let v = chars_of(s);
    let n = v.len();
    let mut a: usize = 0;
    while a < n && white_space(v[a])
        invariant
            0 <= a <= n,
            n == v@.len(),
            forall|i: int| 0 <= i < a ==> is_white_space(#[trigger] v@[i]),
        decreases n - a,
    {
        a += 1;
    }
    if a == n {
        proof {
            assert(!(exists|i: int| 0 <= i < s@.len() && !is_white_space(#[trigger] s@[i])));
        }
        return String::new();
    }
    let mut b: usize = n - 1;
    while b > a && white_space(v[b])
        invariant
            a <= b < n,
            n == v@.len(),
            !is_white_space(v@[a as int]),
            forall|i: int| b < i < n ==> is_white_space(#[trigger] v@[i]),
        decreases b - a,
    {
        b -= 1;
    }
    proof {
        assert(!is_white_space(v@[b as int]));
        let ea = choose|x: int| 0 <= x < s@.len() && !is_white_space(s@[x]) && forall|i: int| 0 <= i < x ==> is_white_space(#[trigger] s@[i]);
        let eb = choose|x: int| 0 <= x < s@.len() && !is_white_space(s@[x]) && forall|i: int| x < i < s@.len() ==> is_white_space(#[trigger] s@[i]);
        assert(0 <= a as int && (a as int) < s@.len() && !is_white_space(s@[a as int]) && forall|i: int| 0 <= i < a ==> is_white_space(#[trigger] s@[i]));
        assert(0 <= b as int && (b as int) < s@.len() && !is_white_space(s@[b as int]) && forall|i: int| b < i < s@.len() ==> is_white_space(#[trigger] s@[i]));
        if ea < a {
            assert(is_white_space(s@[ea]));
        }
        if a < ea {
            assert(is_white_space(s@[a as int]));
        }
        if eb < b {
            assert(is_white_space(s@[b as int]));
        }
        if b < eb {
            assert(is_white_space(s@[eb]));
        }
        assert(ea == a);
        assert(eb == b);
    }
    string_from_range(&v, a, b + 1)
}

} // verus!
