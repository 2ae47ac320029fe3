//! Conversions between strings and character vectors.

use vstd::prelude::*;

verus! {

broadcast use vstd::string::axiom_spec_iter;

/// Relies on `String::push`: appends one character to the string.
#[verifier::external_body]
fn push_char(s: &mut String, c: char)
    ensures
        final(s)@ == old(s)@.push(c),
{
    s.push(c)
}

/// The characters of `s`, in order.
pub fn chars_of(s: &str) -> (r: Vec<char>)
    ensures
        r@ == s@,
{
    let mut out: Vec<char> = Vec::new();
    for c in it: s.chars()
        invariant
            it.seq() == s@,
            out@ == it.seq().subrange(0, it.index() as int),
    {
        out.push(c);
    }
    out
}

/// A string holding the characters of `cs`, in order.
pub fn string_of(cs: &[char]) -> (r: String)
    ensures
        r@ == cs@,
{
    let mut out = String::new();
    let mut i: usize = 0;
    while i < cs.len()
        invariant
            i <= cs@.len(),
            out@ == cs@.subrange(0, i as int),
        decreases cs@.len() - i,
    {
        push_char(&mut out, cs[i]);
        i = i + 1;
    }
    out
}

/// The position of the first `c` in `s`, if any.
pub open spec fn find_first(s: Seq<char>, c: char) -> Option<int>
    decreases s.len(),
{
    if s.len() == 0 {
        None
    } else if s[0] == c {
        Some(0)
    } else {
        match find_first(s.drop_first(), c) {
            Some(i) => Some(i + 1),
            None => None,
        }
    }
}

/// The position of the last `c` in `s`, if any.
pub open spec fn find_last(s: Seq<char>, c: char) -> Option<int>
    decreases s.len(),
{
    if s.len() == 0 {
        None
    } else if s.last() == c {
        Some(s.len() - 1)
    } else {
        find_last(s.drop_last(), c)
    }
}

pub proof fn lemma_find_first(s: Seq<char>, c: char, i: int)
    requires
        0 <= i <= s.len(),
        forall|j: int| 0 <= j < i ==> s[j] != c,
        i < s.len() ==> s[i] == c,
    ensures
        find_first(s, c) == (if i < s.len() { Some(i) } else { None::<int> }),
    decreases i,
{
    if i > 0 {
        lemma_find_first(s.drop_first(), c, i - 1);
    }
}

pub proof fn lemma_find_last(s: Seq<char>, c: char, i: int)
    requires
        -1 <= i < s.len(),
        forall|j: int| i < j < s.len() ==> s[j] != c,
        i >= 0 ==> s[i] == c,
    ensures
        find_last(s, c) == (if i >= 0 { Some(i) } else { None::<int> }),
    decreases s.len(),
{
    if s.len() > 0 && i < s.len() - 1 {
        lemma_find_last(s.drop_last(), c, i);
    }
}

pub proof fn lemma_find_first_bounds(s: Seq<char>, c: char)
    ensures
        find_first(s, c) matches Some(i) ==> 0 <= i < s.len() && s[i] == c && forall|j: int|
            0 <= j < i ==> s[j] != c,
    decreases s.len(),
{
    if s.len() > 0 && s[0] != c {
        let t = s.drop_first();
        lemma_find_first_bounds(t, c);
        if find_first(t, c) is Some {
            let i = find_first(t, c)->0;
            assert forall|j: int| 0 <= j < i + 1 implies s[j] != c by {
                if j > 0 {
                    assert(s[j] == t[j - 1]);
                }
            }
        }
    }
}

pub proof fn lemma_find_last_bounds(s: Seq<char>, c: char)
    ensures
        find_last(s, c) matches Some(i) ==> 0 <= i < s.len() && s[i] == c && forall|j: int|
            i < j < s.len() ==> s[j] != c,
        find_last(s, c) is None ==> !s.contains(c),
    decreases s.len(),
{
    if s.len() > 0 && s.last() != c {
        lemma_find_last_bounds(s.drop_last(), c);
        assert(s == s.drop_last().push(s.last()));
    }
}

pub proof fn lemma_find_last_concat(a: Seq<char>, b: Seq<char>, c: char)
    ensures
        find_last(a + b, c) == match find_last(b, c) {
            Some(i) => Some(a.len() + i),
            None => find_last(a, c),
        },
    decreases b.len(),
{
    if b.len() == 0 {
        assert(a + b == a);
    } else {
        assert((a + b).drop_last() == a + b.drop_last());
        assert((a + b).last() == b.last());
        lemma_find_last_concat(a, b.drop_last(), c);
    }
}

pub proof fn lemma_find_first_concat(a: Seq<char>, b: Seq<char>, c: char)
    ensures
        find_first(a + b, c) == match find_first(a, c) {
            Some(i) => Some(i),
            None => match find_first(b, c) {
                Some(j) => Some(a.len() + j),
                None => None::<int>,
            },
        },
    decreases a.len(),
{
    if a.len() == 0 {
        assert(a + b == b);
    } else {
        assert((a + b).drop_first() == a.drop_first() + b);
        assert((a + b)[0] == a[0]);
        lemma_find_first_concat(a.drop_first(), b, c);
    }
}

pub proof fn lemma_find_none(s: Seq<char>, c: char)
    ensures
        !s.contains(c) ==> find_first(s, c) is None && find_last(s, c) is None,
        s.contains(c) ==> find_first(s, c) is Some && find_last(s, c) is Some,
{
    lemma_find_first_bounds(s, c);
    lemma_find_last_bounds(s, c);
    if !s.contains(c) {
        lemma_find_first(s, c, s.len() as int);
    } else {
        let k = choose|k: int| 0 <= k < s.len() && s[k] == c;
        if find_first(s, c) is None {
            assert forall|j: int| 0 <= j < s.len() implies s[j] != c by {
                lemma_find_first_none(s, c, j);
            }
        }
    }
}

proof fn lemma_find_first_none(s: Seq<char>, c: char, j: int)
    requires
        find_first(s, c) is None,
        0 <= j < s.len(),
    ensures
        s[j] != c,
    decreases s.len(),
{
    if j > 0 {
        lemma_find_first_none(s.drop_first(), c, j - 1);
    }
}

/// Where `c` first occurs in `s`.
pub fn position_first(s: &[char], c: char) -> (r: Option<usize>)
    ensures
        match r {
            Some(i) => find_first(s@, c) == Some(i as int),
            None => find_first(s@, c) is None,
        },
        r matches Some(i) ==> i < s@.len() && s@[i as int] == c,
{
    let mut i: usize = 0;
    while i < s.len()
        invariant
            i <= s@.len(),
            forall|j: int| 0 <= j < i ==> s@[j] != c,
        decreases s@.len() - i,
    {
        if s[i] == c {
            proof { lemma_find_first(s@, c, i as int); }
            return Some(i);
        }
        i = i + 1;
    }
    proof { lemma_find_first(s@, c, i as int); }
    None
}

/// Where `c` last occurs in `s`.
pub fn position_last(s: &[char], c: char) -> (r: Option<usize>)
    ensures
        match r {
            Some(i) => find_last(s@, c) == Some(i as int),
            None => find_last(s@, c) is None,
        },
        r matches Some(i) ==> i < s@.len() && s@[i as int] == c,
{
    let mut i: usize = s.len();
    while i > 0
        invariant
            i <= s@.len(),
            forall|j: int| i <= j < s@.len() ==> s@[j] != c,
        decreases i,
    {
        if s[i - 1] == c {
            proof { lemma_find_last(s@, c, i - 1); }
            return Some(i - 1);
        }
        i = i - 1;
    }
    proof { lemma_find_last(s@, c, -1); }
    None
}

/// The characters `s[lo..hi]` as a new vector.
pub fn slice_of(s: &[char], lo: usize, hi: usize) -> (r: Vec<char>)
    requires
        lo <= hi <= s@.len(),
    ensures
        r@ == s@.subrange(lo as int, hi as int),
{
    let mut out: Vec<char> = Vec::new();
    let mut i: usize = lo;
    while i < hi
        invariant
            lo <= i <= hi <= s@.len(),
            out@ == s@.subrange(lo as int, i as int),
        decreases hi - i,
    {
        out.push(s[i]);
        i = i + 1;
    }
    out
}

/// Whether `s` and `t` hold the same characters.
pub fn same_chars(s: &[char], t: &[char]) -> (r: bool)
    ensures
        r == (s@ == t@),
{
    if s.len() != t.len() {
        return false;
    }
    let mut i: usize = 0;
    while i < s.len()
        invariant
            i <= s@.len() == t@.len(),
            s@.subrange(0, i as int) == t@.subrange(0, i as int),
        decreases s@.len() - i,
    {
        if s[i] != t[i] {
            assert(s@[i as int] != t@[i as int]);
            return false;
        }
        assert(s@.subrange(0, i + 1) == s@.subrange(0, i as int).push(s@[i as int]));
        assert(t@.subrange(0, i + 1) == t@.subrange(0, i as int).push(t@[i as int]));
        i = i + 1;
    }
    assert(s@ == s@.subrange(0, i as int));
    assert(t@ == t@.subrange(0, i as int));
    true
}

/// Appends the characters of `b` to `out`.
pub fn append_chars(out: &mut Vec<char>, b: &[char])
    ensures
        final(out)@ == old(out)@ + b@,
{
    let ghost start = out@;
    let mut i: usize = 0;
    while i < b.len()
        invariant
            i <= b@.len(),
            out@ == start + b@.subrange(0, i as int),
        decreases b@.len() - i,
    {
        out.push(b[i]);
        i = i + 1;
    }
    assert(b@.subrange(0, i as int) == b@);
}

/// The number of bytes `c` takes in UTF-8.
pub open spec fn char_width(c: char) -> nat {
    if (c as u32) <= 0x7F {
        1
    } else if (c as u32) <= 0x7FF {
        2
    } else if (c as u32) <= 0xFFFF {
        3
    } else {
        4
    }
}

/// The number of bytes `s` takes in UTF-8.
pub open spec fn byte_len(s: Seq<char>) -> nat {
    vstd::utf8::encode_utf8(s).len()
}

proof fn lemma_scalar_width(c: char)
    ensures
        vstd::utf8::encode_scalar(c as u32).len() == char_width(c),
{
    vstd::utf8::char_is_scalar(c);
}

pub proof fn lemma_byte_len_concat(a: Seq<char>, b: Seq<char>)
    ensures
        byte_len(a + b) == byte_len(a) + byte_len(b),
    decreases a.len(),
{
    if a.len() == 0 {
        assert(a + b == b);
    } else {
        assert((a + b).drop_first() == a.drop_first() + b);
        assert((a + b)[0] == a[0]);
        lemma_byte_len_concat(a.drop_first(), b);
    }
}

pub proof fn lemma_byte_len_push(a: Seq<char>, c: char)
    ensures
        byte_len(a.push(c)) == byte_len(a) + char_width(c),
{
    assert(a.push(c) == a + seq![c]);
    lemma_byte_len_concat(a, seq![c]);
    assert(seq![c].drop_first() == Seq::<char>::empty());
    assert(vstd::utf8::encode_utf8(Seq::<char>::empty()) == Seq::<u8>::empty());
    assert(vstd::utf8::encode_utf8(seq![c]) == vstd::utf8::encode_scalar(c as u32)
        + vstd::utf8::encode_utf8(seq![c].drop_first()));
    lemma_scalar_width(c);
}

/// Where every character takes one byte, the byte length is the length.
pub proof fn lemma_byte_len_narrow(s: Seq<char>)
    requires
        forall|i: int| 0 <= i < s.len() ==> char_width(#[trigger] s[i]) == 1,
    ensures
        byte_len(s) == s.len(),
    decreases s.len(),
{
    if s.len() > 0 {
        assert forall|i: int| 0 <= i < s.drop_first().len() implies char_width(
            #[trigger] s.drop_first()[i],
        ) == 1 by {
            assert(s.drop_first()[i] == s[i + 1]);
        }
        lemma_byte_len_narrow(s.drop_first());
        lemma_scalar_width(s[0]);
    }
}

fn width(c: char) -> (r: usize)
    ensures
        r == char_width(c),
{
    let v = c as u32;
    if v <= 0x7F {
        1
    } else if v <= 0x7FF {
        2
    } else if v <= 0xFFFF {
        3
    } else {
        4
    }
}

/// Whether `s[from..]` takes exactly `target` bytes in UTF-8.
pub fn byte_len_is(s: &[char], from: usize, target: usize) -> (r: bool)
    requires
        from <= s@.len(),
    ensures
        r == (byte_len(s@.subrange(from as int, s@.len() as int)) == target),
{
    let ghost all = s@.subrange(from as int, s@.len() as int);
    let mut acc: usize = 0;
    let mut i: usize = from;
    while i < s.len()
        invariant
            from <= i <= s@.len(),
            all == s@.subrange(from as int, s@.len() as int),
            acc == byte_len(s@.subrange(from as int, i as int)),
            acc <= target,
        decreases s@.len() - i,
    {
        let w = width(s[i]);
        proof {
            assert(s@.subrange(from as int, i + 1) == s@.subrange(from as int, i as int).push(s@[i as int]));
            lemma_byte_len_push(s@.subrange(from as int, i as int), s@[i as int]);
        }
        if w > target - acc {
            proof {
                assert(all == s@.subrange(from as int, i + 1) + s@.subrange(i + 1, s@.len() as int));
                lemma_byte_len_concat(s@.subrange(from as int, i + 1), s@.subrange(i + 1, s@.len() as int));
            }
            return false;
        }
        acc = acc + w;
        i = i + 1;
    }
    acc == target
}

/// Whether `c` occurs in `s`.
pub fn contains_char(s: &[char], c: char) -> (r: bool)
    ensures
        r == s@.contains(c),
{
    let mut i: usize = 0;
    while i < s.len()
        invariant
            i <= s@.len(),
            forall|j: int| 0 <= j < i ==> s@[j] != c,
        decreases s@.len() - i,
    {
        if s[i] == c {
            return true;
        }
        i = i + 1;
    }
    false
}

} // verus!
