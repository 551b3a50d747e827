//! Converting documents to text formats, and the text helpers they share.
use vstd::prelude::*;

pub mod markdown;
pub mod parser;
pub mod html;
pub mod from_html;

verus! {

/// Marker for HTML text.
pub struct Html;

/// Marker for JSON text.
pub struct Json;

/// Marker for Markdown text.
pub struct Markdown;

/// Text in the format named by `T`.
pub struct Text<T> {
    text: String,
    phantom: core::marker::PhantomData<T>,
}

impl<T> View for Text<T> {
    type V = Seq<char>;

    closed spec fn view(&self) -> Seq<char> {
        self.text@
    }
}

impl<T> Text<T> {
    /// Wraps the text.
    pub fn new(text: &str) -> (r: Self)
        ensures r@ == text@,
    {
        Text { text: text.to_owned(), phantom: core::marker::PhantomData }
    }

    /// Wraps an owned string.
    pub fn from_string(text: String) -> (r: Self)
        ensures r@ == text@,
    {
        Text { text, phantom: core::marker::PhantomData }
    }

    /// The text.
    pub fn as_str(&self) -> (r: &str)
        ensures r@ == self@,
    {
        self.text.as_str()
    }

    /// The text, unwrapped.
    pub fn into_inner(self) -> (r: String)
        ensures r@ == self@,
    {
        self.text
    }
}

/// The HTML escape of one character.
pub open spec fn escape_char(c: char) -> Seq<char> {
    if c == '&' {
        "&amp;"@
    } else if c == '<' {
        "&lt;"@
    } else if c == '>' {
        "&gt;"@
    } else if c == '"' {
        "&quot;"@
    } else if c == '\'' {
        "&#39;"@
    } else {
        seq![c]
    }
}

/// `s` with the five HTML special characters replaced by entities.
pub open spec fn escaped(s: Seq<char>) -> Seq<char>
    decreases s.len(),
{
    if s.len() == 0 {
        Seq::empty()
    } else {
        escaped(s.drop_last()) + escape_char(s.last())
    }
}

/// Escapes the HTML special characters `&`, `<`, `>`, `"` and `'`.
pub fn html_escape(s: &str) -> (r: String)
    ensures r@ == escaped(s@),
{
    let n = s.unicode_len();
    let mut r = String::new();
    let mut i: usize = 0;
    proof { assert(s@.take(0) =~= Seq::<char>::empty()); }
    while i < n
        invariant
            n == s@.len(),
            i <= n,
            r@ == escaped(s@.take(i as int)),
        decreases n - i,
    {
        let c = s.get_char(i);
        proof { assert(s@.take(i + 1).drop_last() =~= s@.take(i as int)); }
        if c == '&' {
            r.append("&amp;");
        } else if c == '<' {
            r.append("&lt;");
        } else if c == '>' {
            r.append("&gt;");
        } else if c == '"' {
            r.append("&quot;");
        } else if c == '\'' {
            r.append("&#39;");
        } else {
            r.append(s.substring_char(i, i + 1));
            proof { assert(s@.subrange(i as int, i + 1) =~= seq![c]); }
        }
        i = i + 1;
    }
    proof { assert(s@.take(n as int) =~= s@); }
    r
}

/// The decimal digits of `n`, most significant first.
pub open spec fn decimal(n: nat) -> Seq<char>
    decreases n,
{
    if n < 10 {
        seq![digit_char(n)]
    } else {
        decimal(n / 10) + seq![digit_char(n % 10)]
    }
}

/// The digit character for `d` (meaningful below ten).
pub open spec fn digit_char(d: nat) -> char {
    if d == 0 { '0' } else if d == 1 { '1' } else if d == 2 { '2' } else if d == 3 { '3' }
    else if d == 4 { '4' } else if d == 5 { '5' } else if d == 6 { '6' } else if d == 7 { '7' }
    else if d == 8 { '8' } else { '9' }
}

/// The digit character for `d` as a one-character string.
fn digit_str(d: usize) -> (r: &'static str)
    requires d < 10,
    ensures r@ == seq![digit_char(d as nat)],
{
    proof {
        reveal_strlit("0"); reveal_strlit("1"); reveal_strlit("2"); reveal_strlit("3"); reveal_strlit("4");
        reveal_strlit("5"); reveal_strlit("6"); reveal_strlit("7"); reveal_strlit("8"); reveal_strlit("9");
    }
    if d == 0 { "0" } else if d == 1 { "1" } else if d == 2 { "2" } else if d == 3 { "3" }
    else if d == 4 { "4" } else if d == 5 { "5" } else if d == 6 { "6" } else if d == 7 { "7" }
    else if d == 8 { "8" } else { "9" }
}

/// Appends the decimal digits of `n`.
pub fn push_decimal(r: &mut String, n: usize)
    ensures final(r)@ == old(r)@ + decimal(n as nat),
    decreases n,
{
    if n < 10 {
        r.append(digit_str(n));
    } else {
        push_decimal(r, n / 10);
        r.append(digit_str(n % 10));
    }
}

/// `k` copies of the text.
pub open spec fn repeated(t: Seq<char>, k: nat) -> Seq<char>
    decreases k,
{
    if k == 0 { Seq::empty() } else { repeated(t, (k - 1) as nat) + t }
}

/// Appends `k` copies of the text.
pub fn push_repeated(r: &mut String, t: &str, k: usize)
    ensures final(r)@ == old(r)@ + repeated(t@, k as nat),
{
    let mut i: usize = 0;
    while i < k
        invariant
            i <= k,
            r@ == old(r)@ + repeated(t@, i as nat),
        decreases k - i,
    {
        r.append(t);
        proof { assert(old(r)@ + repeated(t@, i as nat) + t@ =~= old(r)@ + repeated(t@, (i + 1) as nat)); }
        i = i + 1;
    }
}

/// Whether `c` is white space as Unicode defines it (what
/// `char::is_whitespace` tests).
pub open spec fn is_ws(c: char) -> bool {
    ||| c == ' ' || c == '\t' || c == '\n' || c == '\r' || c == '\u{0B}' || c == '\u{0C}'
    ||| c == '\u{85}' || c == '\u{A0}' || c == '\u{1680}'
    ||| ('\u{2000}' <= c && c <= '\u{200A}')
    ||| c == '\u{2028}' || c == '\u{2029}' || c == '\u{202F}' || c == '\u{205F}' || c == '\u{3000}'
}

/// Tests a character for white space.
pub fn is_whitespace_char(c: char) -> (r: bool)
    ensures r == is_ws(c),
{
    c == ' ' || c == '\t' || c == '\n' || c == '\r' || c == '\u{0B}' || c == '\u{0C}'
        || c == '\u{85}' || c == '\u{A0}' || c == '\u{1680}'
        || ('\u{2000}' <= c && c <= '\u{200A}')
        || c == '\u{2028}' || c == '\u{2029}' || c == '\u{202F}' || c == '\u{205F}' || c == '\u{3000}'
}

/// `s` without its trailing white space.
pub open spec fn trimmed_end(s: Seq<char>) -> Seq<char>
    decreases s.len(),
{
    if s.len() > 0 && is_ws(s.last()) { trimmed_end(s.drop_last()) } else { s }
}

/// The text without its trailing white space.
pub fn trim_end(s: &str) -> (r: String)
    ensures r@ == trimmed_end(s@),
{
    let n = s.unicode_len();
    let mut k: usize = n;
    proof { assert(s@.take(n as int) =~= s@); }
    while k > 0 && is_whitespace_char(s.get_char(k - 1))
        invariant
            k <= n,
            n == s@.len(),
            trimmed_end(s@) == trimmed_end(s@.take(k as int)),
        decreases k,
    {
        proof { assert(s@.take(k as int).drop_last() =~= s@.take(k - 1)); }
        k = k - 1;
    }
    proof { assert(s@.subrange(0, k as int) =~= s@.take(k as int)); }
    s.substring_char(0, k).to_owned()
}

/// The index of the first line feed at or after `j`, or the length.
pub open spec fn next_nl(s: Seq<char>, j: int) -> int
    decreases s.len() - j,
{
    if j < 0 || j >= s.len() { s.len() as int } else if s[j] == '\n' { j } else { next_nl(s, j + 1) }
}

/// A line without a carriage return at its end.
pub open spec fn strip_cr(l: Seq<char>) -> Seq<char> {
    if l.len() > 0 && l.last() == '\r' { l.drop_last() } else { l }
}

/// Each line of `s` (as `str::lines` splits it) with `prefix` before it and
/// a line feed after it.
pub open spec fn prefixed_lines(s: Seq<char>, prefix: Seq<char>) -> Seq<char>
    decreases s.len(),
{
    if s.len() == 0 {
        Seq::empty()
    } else {
        let i = next_nl(s, 0);
        if i < s.len() {
            proof { lemma_next_nl_range(s, 0); }
            prefix + strip_cr(s.take(i)) + seq!['\n'] + prefixed_lines(s.skip(i + 1), prefix)
        } else {
            prefix + strip_cr(s) + seq!['\n']
        }
    }
}

pub proof fn lemma_next_nl_range(s: Seq<char>, j: int)
    requires 0 <= j <= s.len(),
    ensures j <= next_nl(s, j) <= s.len(),
    decreases s.len() - j,
{
    if j < s.len() && s[j] != '\n' {
        lemma_next_nl_range(s, j + 1);
    }
}

/// The line without a carriage return at its end.
pub(crate) fn strip_cr_str(l: &str) -> (r: &str)
    ensures r@ == strip_cr(l@),
{
    let n = l.unicode_len();
    if n > 0 && l.get_char(n - 1) == '\r' {
        proof { assert(l@.subrange(0, n - 1) =~= l@.drop_last()); }
        l.substring_char(0, n - 1)
    } else {
        l
    }
}

/// Appends each line of `s` with `prefix` before it and a line feed after it.
pub fn push_prefixed_lines(r: &mut String, s: &str, prefix: &str)
    ensures final(r)@ == old(r)@ + prefixed_lines(s@, prefix@),
    decreases s@.len(),
{
    let n = s.unicode_len();
    if n == 0 {
        proof { assert(old(r)@ + Seq::<char>::empty() =~= old(r)@); }
        return;
    }
    let mut i: usize = 0;
    while i < n && s.get_char(i) != '\n'
        invariant
            i <= n,
            n == s@.len(),
            next_nl(s@, 0) == next_nl(s@, i as int),
        decreases n - i,
    {
        i = i + 1;
    }
    proof { lemma_next_nl_range(s@, 0); }
    let line = s.substring_char(0, i);
    proof { assert(s@.subrange(0, i as int) =~= s@.take(i as int)); }
    r.append(prefix);
    r.append(strip_cr_str(line));
    r.append("\n");
    proof { reveal_strlit("\n"); }
    if i < n {
        let rest = s.substring_char(i + 1, n);
        proof { assert(s@.subrange(i + 1, n as int) =~= s@.skip(i + 1)); }
        push_prefixed_lines(r, rest, prefix);
        proof {
            assert(old(r)@ + prefixed_lines(s@, prefix@) =~= old(r)@ + prefix@ + strip_cr(s@.take(i as int)) + seq!['\n']
                + prefixed_lines(s@.skip(i + 1), prefix@));
        }
    } else {
        proof {
            assert(s@.take(i as int) =~= s@);
            assert(old(r)@ + prefixed_lines(s@, prefix@) =~= old(r)@ + prefix@ + strip_cr(s@) + seq!['\n']);
        }
    }
}

} // verus!
