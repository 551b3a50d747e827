//! Byte-offset view of strings: the editor measures text in UTF-8 bytes, as
//! `str::len` does, and cuts text only where a character starts.
use vstd::prelude::*;
use vstd::utf8::{encode_utf8, encode_scalar, char_is_scalar};

verus! {

/// Number of bytes in the UTF-8 encoding of one character.
pub open spec fn char_width(c: char) -> int {
    if (c as u32) <= 0x7F {
        1
    } else if (c as u32) <= 0x7FF {
        2
    } else if (c as u32) <= 0xFFFF {
        3
    } else {
        4
    }
}

/// Number of bytes in the UTF-8 encoding of a character sequence.
pub open spec fn blen(s: Seq<char>) -> int
    decreases s.len(),
{
    if s.len() == 0 {
        0
    } else {
        char_width(s[0]) + blen(s.drop_first())
    }
}

/// `k` is a byte offset where a character of `s` starts (or the end of `s`).
pub open spec fn is_boundary(s: Seq<char>, k: int) -> bool {
    exists|i: int| 0 <= i <= s.len() && #[trigger] blen(s.take(i)) == k
}

/// The character index at byte offset `k` (meaningful when `is_boundary(s, k)`).
pub open spec fn char_at_byte(s: Seq<char>, k: int) -> int {
    choose|i: int| 0 <= i <= s.len() && #[trigger] blen(s.take(i)) == k
}

pub proof fn lemma_blen_nonneg(s: Seq<char>)
    ensures blen(s) >= s.len(),
    decreases s.len(),
{
    if s.len() > 0 {
        lemma_blen_nonneg(s.drop_first());
    }
}

pub proof fn lemma_blen_concat(a: Seq<char>, b: Seq<char>)
    ensures blen(a + b) == blen(a) + blen(b),
    decreases a.len(),
{
    if a.len() > 0 {
        assert((a + b).drop_first() =~= a.drop_first() + b);
        lemma_blen_concat(a.drop_first(), b);
    } else {
        assert(a + b =~= b);
    }
}

pub proof fn lemma_blen_single(c: char)
    ensures blen(seq![c]) == char_width(c),
{
    assert(seq![c].drop_first() =~= Seq::<char>::empty());
    assert(seq![c][0] == c);
    assert(blen(Seq::<char>::empty()) == 0);
}

/// The byte length of a prefix grows with every character taken.
pub proof fn lemma_blen_take_step(s: Seq<char>, i: int)
    requires 0 <= i < s.len(),
    ensures blen(s.take(i + 1)) == blen(s.take(i)) + char_width(s[i]),
{
    assert(s.take(i + 1) =~= s.take(i) + seq![s[i]]);
    lemma_blen_concat(s.take(i), seq![s[i]]);
    lemma_blen_single(s[i]);
}

pub proof fn lemma_blen_take_mono(s: Seq<char>, i: int, j: int)
    requires 0 <= i <= j <= s.len(),
    ensures blen(s.take(i)) + (j - i) <= blen(s.take(j)),
    decreases j - i,
{
    if i < j {
        lemma_blen_take_mono(s, i, j - 1);
        lemma_blen_take_step(s, j - 1);
    }
}

/// Character offsets and byte offsets correspond one to one.
pub proof fn lemma_char_at_byte(s: Seq<char>, i: int)
    requires 0 <= i <= s.len(),
    ensures
        is_boundary(s, blen(s.take(i))),
        char_at_byte(s, blen(s.take(i))) == i,
{
    let k = blen(s.take(i));
    assert(blen(s.take(i)) == k);
    let j = char_at_byte(s, k);
    if j < i {
        lemma_blen_take_mono(s, j, i);
    } else if i < j {
        lemma_blen_take_mono(s, i, j);
    }
}

pub proof fn lemma_blen_take_full(s: Seq<char>)
    ensures blen(s.take(s.len() as int)) == blen(s), is_boundary(s, blen(s)), char_at_byte(s, blen(s)) == s.len(),
{
    assert(s.take(s.len() as int) =~= s);
    lemma_char_at_byte(s, s.len() as int);
}

pub proof fn lemma_blen_take_zero(s: Seq<char>)
    ensures is_boundary(s, 0), char_at_byte(s, 0) == 0,
{
    assert(s.take(0) =~= Seq::<char>::empty());
    lemma_char_at_byte(s, 0);
}

proof fn lemma_encode_len(s: Seq<char>)
    ensures encode_utf8(s).len() == blen(s),
    decreases s.len(),
{
    if s.len() > 0 {
        char_is_scalar(s[0]);
        lemma_encode_len(s.drop_first());
        assert(encode_scalar(s[0] as u32).len() == char_width(s[0]));
    }
}

/// Byte length of a string.
pub fn byte_len(s: &str) -> (n: usize)
    ensures n == blen(s@),
{
    proof { lemma_encode_len(s@); }
    let bytes = s.as_bytes();
    bytes.len()
}

/// Byte width of one character.
pub fn width_of(c: char) -> (w: usize)
    ensures w == char_width(c),
{
    let u = c as u32;
    if u <= 0x7F {
        1
    } else if u <= 0x7FF {
        2
    } else if u <= 0xFFFF {
        3
    } else {
        4
    }
}

/// The character index at which byte offset `k` falls, if a character starts
/// there (or `k` is the byte length of `s`).
pub fn char_index_of_byte(s: &str, k: usize) -> (r: Option<usize>)
    ensures
        r is Some <==> is_boundary(s@, k as int),
        r is Some ==> r->0 == char_at_byte(s@, k as int) && r->0 <= s@.len()
            && blen(s@.take(r->0 as int)) == k,
{
    let total = byte_len(s);
    let n = s.unicode_len();
    let mut i: usize = 0;
    let mut b: usize = 0;
    proof {
        assert(s@.take(0) =~= Seq::<char>::empty());
        lemma_blen_take_full(s@);
    }
    while i < n
        invariant
            n == s@.len(),
            total == blen(s@),
            i <= n,
            b == blen(s@.take(i as int)),
            forall|j: int| 0 <= j < i ==> #[trigger] blen(s@.take(j)) < k,
        decreases n - i,
    {
        if b == k {
            proof { lemma_char_at_byte(s@, i as int); }
            return Some(i);
        }
        if b > k {
            proof {
                assert forall|j: int| 0 <= j <= n implies #[trigger] blen(s@.take(j)) != k by {
                    if j > i {
                        lemma_blen_take_mono(s@, i as int, j);
                    }
                }
            }
            return None;
        }
        let c = s.get_char(i);
        proof {
            lemma_blen_take_step(s@, i as int);
            lemma_blen_take_mono(s@, i as int + 1, n as int);
            lemma_blen_take_full(s@);
        }
        let w = width_of(c);
        b = b + w;
        i = i + 1;
    }
    if b == k {
        proof { lemma_char_at_byte(s@, i as int); }
        return Some(i);
    }
    proof {
        assert forall|j: int| 0 <= j <= n implies #[trigger] blen(s@.take(j)) != k by {
            if j < n {
            }
        }
    }
    None
}

/// `s` with `t` inserted at character index `ci`.
pub fn insert_chars(s: &str, ci: usize, t: &str) -> (r: String)
    requires ci <= s@.len(),
    ensures r@ == s@.take(ci as int) + t@ + s@.skip(ci as int),
{
    let n = s.unicode_len();
    let mut r = s.substring_char(0, ci).to_owned();
    r.append(t);
    r.append(s.substring_char(ci, n));
    proof {
        assert(s@.subrange(0, ci as int) =~= s@.take(ci as int));
        assert(s@.subrange(ci as int, n as int) =~= s@.skip(ci as int));
    }
    r
}

/// The characters of `s` from index `a` up to index `b`.
pub fn sub_chars(s: &str, a: usize, b: usize) -> (r: String)
    requires a <= b <= s@.len(),
    ensures r@ == s@.subrange(a as int, b as int),
{
    s.substring_char(a, b).to_owned()
}

/// `s` without the characters from index `a` up to index `b`.
pub fn remove_chars(s: &str, a: usize, b: usize) -> (r: String)
    requires a <= b <= s@.len(),
    ensures r@ == s@.take(a as int) + s@.skip(b as int),
{
    let n = s.unicode_len();
    let mut r = s.substring_char(0, a).to_owned();
    r.append(s.substring_char(b, n));
    proof {
        assert(s@.subrange(0, a as int) =~= s@.take(a as int));
        assert(s@.subrange(b as int, n as int) =~= s@.skip(b as int));
    }
    r
}

/// A fresh copy of `s`.
pub fn to_string(s: &str) -> (r: String)
    ensures r@ == s@,
{
    s.to_owned()
}

/// `a` followed by `b`.
pub fn concat(a: &str, b: &str) -> (r: String)
    ensures r@ == a@ + b@,
{
    let mut r = a.to_owned();
    r.append(b);
    r
}

} // verus!
