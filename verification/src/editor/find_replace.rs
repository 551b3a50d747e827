//! Finding and replacing text throughout a document.
use vstd::prelude::*;
use crate::document::{Document, lemma_nodes_update};
use crate::error::EditError;
use crate::inline::{InlineNode, InlineV, TextNode, inlines_seq_v, inline_v, copy_inline, lemma_inlines_seq_v_index, lemma_inlines_push};
use crate::node::{Node, NodeV, node_v, nodes_seq_v, copy_node, lemma_nodes_seq_v_index};
use crate::text::{blen, is_boundary, char_at_byte, byte_len, char_index_of_byte, remove_chars, insert_chars, lemma_blen_nonneg, lemma_blen_concat, lemma_blen_take_mono};
use crate::editor::command::{Command, with_nodes};
use crate::editor::clipboard::saves_v;

verus! {

/// The lowercase form of a string, as `str::to_lowercase` gives it.
pub uninterp spec fn lowercase_of(s: Seq<char>) -> Seq<char>;

/// `str::to_lowercase`: the string with each character mapped to its
/// lowercase form by the Unicode tables of the standard library. The
/// contract names the result and says nothing more of it.
#[verifier::external_body]
pub(crate) fn to_lowercase(s: &str) -> (r: String)
    ensures r@ == lowercase_of(s@),
{
    s.to_lowercase()
}

/// `f` occurs in `t` starting at character `i`.
pub open spec fn occurs_at(t: Seq<char>, f: Seq<char>, i: int) -> bool {
    0 <= i && i + f.len() <= t.len() && t.subrange(i, i + f.len()) == f
}

/// `f` occurs somewhere in `t`.
pub open spec fn contains(t: Seq<char>, f: Seq<char>) -> bool {
    exists|i: int| #[trigger] occurs_at(t, f, i)
}

/// `t` with the occurrences of `f`, found from the left without overlap,
/// each replaced by `r`; and how many were replaced. An empty `f` replaces
/// nothing.
pub open spec fn replace_all(t: Seq<char>, f: Seq<char>, r: Seq<char>) -> (Seq<char>, nat)
    decreases t.len(),
{
    if f.len() == 0 || t.len() < f.len() {
        (t, 0)
    } else if t.take(f.len() as int) == f {
        let rest = replace_all(t.skip(f.len() as int), f, r);
        (r + rest.0, rest.1 + 1)
    } else {
        let rest = replace_all(t.skip(1), f, r);
        (seq![t[0]] + rest.0, rest.1)
    }
}

/// The first character index at or after `k` where `f` occurs in `t`.
pub open spec fn first_match_from(t: Seq<char>, f: Seq<char>, k: int) -> Option<int>
    decreases t.len() + 1 - k,
{
    if k < 0 || k + f.len() > t.len() {
        None
    } else if t.subrange(k, k + f.len()) == f {
        Some(k)
    } else {
        first_match_from(t, f, k + 1)
    }
}

pub proof fn lemma_first_match_from(t: Seq<char>, f: Seq<char>, k: int)
    ensures
        first_match_from(t, f, k) matches Some(i) ==> k <= i && i + f.len() <= t.len(),
    decreases t.len() + 1 - k,
{
    if !(k < 0 || k + f.len() > t.len()) && t.subrange(k, k + f.len()) != f {
        lemma_first_match_from(t, f, k + 1);
    }
}

/// `t` with each stretch of `n` characters whose lowercase form is `lf`,
/// found from the left without overlap, replaced by `r`; and how many were
/// replaced. Nothing is replaced when `n` is zero.
pub open spec fn ci_replace_all(t: Seq<char>, lf: Seq<char>, n: nat, r: Seq<char>) -> (Seq<char>, nat)
    decreases t.len(),
{
    if n == 0 || t.len() < n {
        (t, 0)
    } else if lowercase_of(t.take(n as int)) == lf {
        let rest = ci_replace_all(t.skip(n as int), lf, n, r);
        (r + rest.0, rest.1 + 1)
    } else {
        let rest = ci_replace_all(t.skip(1), lf, n, r);
        (seq![t[0]] + rest.0, rest.1)
    }
}

/// What replacing gives for one text: all occurrences when the search is
/// case sensitive, else every stretch of the text as long as the pattern
/// whose lowercase form is the pattern's lowercase form.
pub open spec fn replace_text(t: Seq<char>, f: Seq<char>, r: Seq<char>, cs: bool) -> Option<(Seq<char>, nat)> {
    if cs {
        Some(replace_all(t, f, r))
    } else {
        Some(ci_replace_all(t, lowercase_of(f), f.len(), r))
    }
}

/// The text holds the pattern, compared as typed or, case-insensitively,
/// as a stretch whose lowercase form is the pattern's.
pub open spec fn text_hit(t: Seq<char>, f: Seq<char>, cs: bool) -> bool {
    if cs { contains(t, f) } else { ci_replace_all(t, lowercase_of(f), f.len(), Seq::empty()).1 > 0 }
}

/// Some text run among the children holds the pattern.
pub open spec fn children_hit(ch: Seq<InlineV>, f: Seq<char>, cs: bool) -> bool {
    exists|j: int| 0 <= j < ch.len() && #[trigger] ch[j] is Text && text_hit(ch[j]->text, f, cs)
}

/// Replacing in the first `k` children: each text run keeps its formatting
/// and has its text replaced; other nodes stay.
pub open spec fn replace_children(ch: Seq<InlineV>, f: Seq<char>, r: Seq<char>, cs: bool, k: int) -> Option<(Seq<InlineV>, nat)>
    decreases k,
{
    if k <= 0 {
        Some((Seq::empty(), 0))
    } else {
        match replace_children(ch, f, r, cs, k - 1) {
            None => None,
            Some((done, n)) => match ch[k - 1] {
                InlineV::Text { text, formatting } => match replace_text(text, f, r, cs) {
                    None => None,
                    Some((t2, m)) => Some((done.push(InlineV::Text { text: t2, formatting }), n + m)),
                },
                other => Some((done.push(other), n)),
            },
        }
    }
}

/// What find-and-replace does to one node: `None` when the node is left
/// alone (it is not a paragraph or code block holding the pattern), else
/// the replaced node and the count (`Some(None)` is kept for a text that
/// cannot be replaced in, which `lemma_find_replace_total` rules out).
pub open spec fn replace_node(n: NodeV, f: Seq<char>, r: Seq<char>, cs: bool) -> Option<Option<(NodeV, nat)>> {
    match n {
        NodeV::Paragraph { children } => if children_hit(children, f, cs) {
            match replace_children(children, f, r, cs, children.len() as int) {
                None => Some(None),
                Some((ch2, m)) => Some(Some((NodeV::Paragraph { children: ch2 }, m))),
            }
        } else {
            None
        },
        NodeV::CodeBlock { language, code } => if text_hit(code, f, cs) {
            match replace_text(code, f, r, cs) {
                None => Some(None),
                Some((c2, m)) => Some(Some((NodeV::CodeBlock { language, code: c2 }, m))),
            }
        } else {
            None
        },
        _ => None,
    }
}

/// Find-and-replace over the first `k` nodes: the nodes, the count, and
/// each changed node as it was, with its index.
pub open spec fn replace_nodes(nodes: Seq<NodeV>, f: Seq<char>, r: Seq<char>, cs: bool, k: int)
    -> Option<(Seq<NodeV>, nat, Seq<(usize, NodeV)>)>
    decreases k,
{
    if k <= 0 {
        Some((nodes, 0, Seq::empty()))
    } else {
        match replace_nodes(nodes, f, r, cs, k - 1) {
            None => None,
            Some((ns, n, saved)) => match replace_node(nodes[k - 1], f, r, cs) {
                None => Some((ns, n, saved)),
                Some(None) => None,
                Some(Some((m, c))) => Some((ns.update(k - 1, m), n + c, saved.push(((k - 1) as usize, nodes[k - 1])))),
            },
        }
    }
}

/// The whole find-and-replace on a document's nodes; an empty pattern
/// changes nothing.
pub open spec fn find_replace_result(nodes: Seq<NodeV>, f: Seq<char>, r: Seq<char>, cs: bool)
    -> Option<(Seq<NodeV>, nat, Seq<(usize, NodeV)>)>
{
    if f.len() == 0 {
        Some((nodes, 0, Seq::empty()))
    } else {
        replace_nodes(nodes, f, r, cs, nodes.len() as int)
    }
}

proof fn lemma_replace_children_total(ch: Seq<InlineV>, f: Seq<char>, r: Seq<char>, cs: bool, k: int)
    ensures replace_children(ch, f, r, cs, k) is Some,
    decreases k,
{
    if k > 0 {
        lemma_replace_children_total(ch, f, r, cs, k - 1);
    }
}

proof fn lemma_replace_nodes_total(nodes: Seq<NodeV>, f: Seq<char>, r: Seq<char>, cs: bool, k: int)
    ensures replace_nodes(nodes, f, r, cs, k) is Some,
    decreases k,
{
    if k > 0 {
        lemma_replace_nodes_total(nodes, f, r, cs, k - 1);
        match nodes[k - 1] {
            NodeV::Paragraph { children } => {
                lemma_replace_children_total(children, f, r, cs, children.len() as int);
            },
            _ => {},
        }
    }
}

/// Find-and-replace always has a result: every text can be searched and
/// replaced in.
pub proof fn lemma_find_replace_total(nodes: Seq<NodeV>, f: Seq<char>, r: Seq<char>, cs: bool)
    ensures find_replace_result(nodes, f, r, cs) is Some,
{
    lemma_replace_nodes_total(nodes, f, r, cs, nodes.len() as int);
}

/// A count kept in a `usize`, stopping at its largest value.
pub open spec fn saturated(n: nat) -> usize {
    if n <= usize::MAX { n as usize } else { usize::MAX }
}

pub proof fn lemma_replace_all_count(t: Seq<char>, f: Seq<char>, r: Seq<char>)
    ensures
        replace_all(t, f, r).1 <= t.len(),
        replace_all(t, f, r).1 > 0 <==> f.len() > 0 && contains(t, f),
    decreases t.len(),
{
    if f.len() == 0 || t.len() < f.len() {
        if contains(t, f) && f.len() > 0 {
            let i = choose|i: int| #[trigger] occurs_at(t, f, i);
            assert(false);
        }
    } else if t.take(f.len() as int) == f {
        lemma_replace_all_count(t.skip(f.len() as int), f, r);
        assert(t.subrange(0, f.len() as int) =~= t.take(f.len() as int));
        assert(occurs_at(t, f, 0));
    } else {
        let s = t.skip(1);
        lemma_replace_all_count(s, f, r);
        if contains(t, f) {
            let i = choose|i: int| #[trigger] occurs_at(t, f, i);
            if i == 0 {
                assert(t.subrange(0, f.len() as int) =~= t.take(f.len() as int));
            } else {
                assert(s.subrange(i - 1, i - 1 + f.len()) =~= t.subrange(i, i + f.len()));
                assert(occurs_at(s, f, i - 1));
            }
        }
        if contains(s, f) {
            let i = choose|i: int| #[trigger] occurs_at(s, f, i);
            assert(s.subrange(i, i + f.len()) =~= t.subrange(i + 1, i + 1 + f.len()));
            assert(occurs_at(t, f, i + 1));
        }
    }
}

/// Whether `f` occurs in `t` at character `i` (which must leave room for it).
fn matches_at(t: &str, f: &str, i: usize) -> (b: bool)
    requires i + f@.len() <= t@.len(),
    ensures b == (t@.subrange(i as int, i + f@.len()) == f@),
{
    let _tn = t.unicode_len();
    let n = f.unicode_len();
    let mut k: usize = 0;
    while k < n
        invariant
            n == f@.len(),
            _tn == t@.len(),
            i + n <= t@.len(),
            k <= n,
            forall|j: int| 0 <= j < k ==> t@[i + j] == f@[j],
        decreases n - k,
    {
        if t.get_char(i + k) != f.get_char(k) {
            proof {
                assert(t@.subrange(i as int, i + n)[k as int] != f@[k as int]);
            }
            return false;
        }
        k = k + 1;
    }
    proof { assert(t@.subrange(i as int, i + n) =~= f@); }
    true
}

/// The first character index at or after `k` where `f` occurs in `t`.
fn find_from(t: &str, f: &str, k: usize) -> (r: Option<usize>)
    requires k <= t@.len(),
    ensures
        r matches Some(i) ==> first_match_from(t@, f@, k as int) == Some(i as int),
        r is None ==> first_match_from(t@, f@, k as int) is None,
{
    let n = t.unicode_len();
    let m = f.unicode_len();
    let mut i: usize = k;
    while m <= n - i
        invariant
            n == t@.len(),
            m == f@.len(),
            k <= i <= n,
            first_match_from(t@, f@, k as int) == first_match_from(t@, f@, i as int),
        decreases n + 1 - i,
    {
        if matches_at(t, f, i) {
            return Some(i);
        }
        proof {
            if m == 0 {
                assert(t@.subrange(i as int, i as int) =~= f@);
            }
        }
        i = i + 1;
    }
    None
}

/// Replaces every occurrence of a non-empty `f` in `t` by `r`.
fn replace_all_exec(t: &str, f: &str, r: &str) -> (out: (String, usize))
    requires f@.len() > 0,
    ensures out.0@ == replace_all(t@, f@, r@).0, out.1 == replace_all(t@, f@, r@).1,
{
    let n = t.unicode_len();
    let m = f.unicode_len();
    let mut out = String::new();
    let mut cnt: usize = 0;
    let mut i: usize = 0;
    proof {
        assert(t@.skip(0) =~= t@);
        lemma_replace_all_count(t@, f@, r@);
    }
    while m <= n - i
        invariant
            n == t@.len(),
            m == f@.len(),
            m > 0,
            i <= n,
            replace_all(t@, f@, r@).0 == out@ + replace_all(t@.skip(i as int), f@, r@).0,
            replace_all(t@, f@, r@).1 == cnt + replace_all(t@.skip(i as int), f@, r@).1,
            replace_all(t@, f@, r@).1 <= n,
        decreases n - i,
    {
        let ghost s = t@.skip(i as int);
        proof {
            lemma_replace_all_count(s, f@, r@);
            assert(s.take(m as int) =~= t@.subrange(i as int, i + m));
        }
        if matches_at(t, f, i) {
            proof {
                assert(s.skip(m as int) =~= t@.skip(i + m));
                assert(out@ + (r@ + replace_all(s.skip(m as int), f@, r@).0)
                    =~= (out@ + r@) + replace_all(t@.skip(i + m), f@, r@).0);
                lemma_replace_all_count(t@.skip(i + m), f@, r@);
            }
            out.append(r);
            cnt = cnt + 1;
            i = i + m;
        } else {
            let c = t.substring_char(i, i + 1);
            proof {
                assert(s.skip(1) =~= t@.skip(i + 1));
                assert(c@ =~= seq![s[0]]);
                assert(out@ + (seq![s[0]] + replace_all(s.skip(1), f@, r@).0)
                    =~= (out@ + c@) + replace_all(t@.skip(i + 1), f@, r@).0);
            }
            out.append(c);
            i = i + 1;
        }
    }
    let rest = t.substring_char(i, n);
    proof {
        assert(rest@ =~= t@.skip(i as int));
    }
    out.append(rest);
    (out, cnt)
}

pub proof fn lemma_first_match(t: Seq<char>, f: Seq<char>, k: int)
    requires k >= 0,
    ensures
        first_match_from(t, f, k) matches Some(i) ==> occurs_at(t, f, i),
        first_match_from(t, f, k) is None ==> forall|i: int| k <= i ==> !#[trigger] occurs_at(t, f, i),
    decreases t.len() + 1 - k,
{
    if !(k < 0 || k + f.len() > t.len()) && t.subrange(k, k + f.len()) != f {
        lemma_first_match(t, f, k + 1);
    }
}

/// Whether `f` occurs in `t`.
pub(crate) fn contains_exec(t: &str, f: &str) -> (b: bool)
    ensures b == contains(t@, f@),
{
    proof { lemma_first_match(t@, f@, 0); }
    find_from(t, f, 0).is_some()
}

/// The case-insensitive replacement of every stretch of `t` as long as `f`
/// whose lowercase form is that of `f`.
fn ci_replace(t: &str, f: &str, r: &str) -> (out: (String, usize))
    requires f@.len() > 0,
    ensures
        out.0@ == ci_replace_all(t@, lowercase_of(f@), f@.len(), r@).0,
        out.1 == saturated(ci_replace_all(t@, lowercase_of(f@), f@.len(), r@).1),
{
    let lf = to_lowercase(f);
    let n = f.unicode_len();
    let len = t.unicode_len();
    let ghost lfv = lowercase_of(f@);
    let ghost whole = ci_replace_all(t@, lfv, n as nat, r@);
    let mut res = String::new();
    let mut i: usize = 0;
    let mut cnt: usize = 0;
    let ghost mut gn: nat = 0;
    proof { assert(t@.skip(0) =~= t@); }
    while i < len
        invariant
            lf@ == lfv,
            n == f@.len(),
            n > 0,
            len == t@.len(),
            i <= len,
            whole == ci_replace_all(t@, lfv, n as nat, r@),
            whole.0 == res@ + ci_replace_all(t@.skip(i as int), lfv, n as nat, r@).0,
            whole.1 == gn + ci_replace_all(t@.skip(i as int), lfv, n as nat, r@).1,
            cnt == saturated(gn),
        decreases len - i,
    {
        let ghost rest = t@.skip(i as int);
        if n > len - i {
            let tail = t.substring_char(i, len);
            proof { assert(tail@ =~= rest); }
            res.append(tail);
            proof {
                assert(t@.skip(len as int) =~= Seq::<char>::empty());
                assert(ci_replace_all(t@.skip(len as int), lfv, n as nat, r@) == (Seq::<char>::empty(), 0nat));
                assert(res@ + Seq::<char>::empty() =~= res@);
            }
            i = len;
        } else {
            let w = t.substring_char(i, i + n);
            let wl = to_lowercase(w);
            proof {
                assert(w@ =~= rest.take(n as int));
                assert(rest.skip(n as int) =~= t@.skip(i + n));
                assert(rest.skip(1) =~= t@.skip(i + 1));
            }
            let hit = wl.as_str().unicode_len() == lf.as_str().unicode_len() && matches_at(wl.as_str(), lf.as_str(), 0);
            proof {
                if wl@.len() == lf@.len() {
                    assert(wl@.subrange(0, lf@.len() as int) =~= wl@);
                }
                assert(hit == (wl@ == lf@));
            }
            let ghost res0 = res@;
            if hit {
                res.append(r);
                proof {
                    assert(res0 + (r@ + ci_replace_all(t@.skip(i + n), lfv, n as nat, r@).0)
                        =~= res@ + ci_replace_all(t@.skip(i + n), lfv, n as nat, r@).0);
                    gn = gn + 1;
                }
                cnt = cnt.saturating_add(1);
                i = i + n;
            } else {
                let one = t.substring_char(i, i + 1);
                res.append(one);
                proof {
                    assert(one@ =~= seq![rest[0]]);
                    assert(res0 + (seq![rest[0]] + ci_replace_all(t@.skip(i + 1), lfv, n as nat, r@).0)
                        =~= res@ + ci_replace_all(t@.skip(i + 1), lfv, n as nat, r@).0);
                }
                i = i + 1;
            }
        }
    }
    (res, cnt)
}

/// Replacing in one text; `None` where slicing would fail.
fn replace_text_exec(t: &str, f: &str, r: &str, cs: bool) -> (out: Option<(String, usize)>)
    requires f@.len() > 0,
    ensures
        match replace_text(t@, f@, r@, cs) {
            None => out is None,
            Some((s, n)) => out matches Some((o, c)) && o@ == s && c == saturated(n),
        },
{
    if cs {
        proof { lemma_replace_all_count(t@, f@, r@); }
        let _n = t.unicode_len();
        Some(replace_all_exec(t, f, r))
    } else {
        Some(ci_replace(t, f, r))
    }
}

/// Whether the text holds the pattern.
fn text_hit_exec(t: &str, f: &str, cs: bool) -> (b: bool)
    ensures b == text_hit(t@, f@, cs),
{
    if cs {
        contains_exec(t, f)
    } else if f.unicode_len() == 0 {
        false
    } else {
        let e = String::new();
        let (_, c) = ci_replace(t, f, e.as_str());
        proof { assert(e@ =~= Seq::<char>::empty()); }
        c > 0
    }
}

fn children_hit_exec(ch: &Vec<InlineNode>, f: &str, cs: bool) -> (b: bool)
    ensures b == children_hit(inlines_seq_v(ch@), f@, cs),
{
    proof { lemma_inlines_seq_v_index(ch@); }
    let ghost c = inlines_seq_v(ch@);
    let mut i: usize = 0;
    while i < ch.len()
        invariant
            c == inlines_seq_v(ch@),
            c.len() == ch.len(),
            forall|j: int| 0 <= j < c.len() ==> #[trigger] c[j] == inline_v(&ch@[j]),
            i <= ch.len(),
            forall|j: int| 0 <= j < i ==> !(#[trigger] c[j] is Text && text_hit(c[j]->text, f@, cs)),
        decreases ch.len() - i,
    {
        match &ch[i] {
            InlineNode::Text(t) => {
                if text_hit_exec(t.text.as_str(), f, cs) {
                    proof { assert(c[i as int] is Text && text_hit(c[i as int]->text, f@, cs)); }
                    return true;
                }
            },
            _ => {},
        }
        i = i + 1;
    }
    false
}

pub proof fn lemma_saturated_add(a: nat, b: nat)
    ensures saturated(a).saturating_add(saturated(b)) == saturated(a + b),
{
}

fn replace_in_children(ch: &Vec<InlineNode>, f: &str, r: &str, cs: bool) -> (out: Option<(Vec<InlineNode>, usize)>)
    requires f@.len() > 0,
    ensures
        match replace_children(inlines_seq_v(ch@), f@, r@, cs, ch.len() as int) {
            None => out is None,
            Some((s, n)) => out matches Some((o, c)) && inlines_seq_v(o@) == s && c == saturated(n),
        },
{
    proof { lemma_inlines_seq_v_index(ch@); }
    let ghost c = inlines_seq_v(ch@);
    let mut out: Vec<InlineNode> = Vec::new();
    let mut cnt: usize = 0;
    let ghost mut gn: nat = 0;
    let mut i: usize = 0;
    while i < ch.len()
        invariant
            f@.len() > 0,
            c == inlines_seq_v(ch@),
            c.len() == ch.len(),
            forall|j: int| 0 <= j < c.len() ==> #[trigger] c[j] == inline_v(&ch@[j]),
            i <= ch.len(),
            replace_children(c, f@, r@, cs, i as int) == Some((inlines_seq_v(out@), gn)),
            cnt == saturated(gn),
        decreases ch.len() - i,
    {
        match &ch[i] {
            InlineNode::Text(t) => {
                match replace_text_exec(t.text.as_str(), f, r, cs) {
                    None => {
                        proof {
                            let k = (i + 1) as int;
                            assert(replace_children(c, f@, r@, cs, k) is None);
                            lemma_replace_children_none(c, f@, r@, cs, k, ch.len() as int);
                        }
                        return None;
                    },
                    Some((t2, m)) => {
                        let ghost gm: nat = match replace_text(t.text@, f@, r@, cs) { Some(p) => p.1, None => 0 };
                        let node = InlineNode::Text(TextNode { text: t2, formatting: t.formatting });
                        proof {
                            lemma_inlines_push(out@, node);
                            lemma_saturated_add(gn, gm);
                        }
                        out.push(node);
                        cnt = cnt.saturating_add(m);
                        proof { gn = gn + gm; }
                    },
                }
            },
            _ => {
                let node = copy_inline(&ch[i]);
                proof { lemma_inlines_push(out@, node); }
                out.push(node);
            },
        }
        i = i + 1;
    }
    Some((out, cnt))
}

/// Once replacing fails on a prefix of the children, it fails on every
/// longer prefix.
pub proof fn lemma_replace_children_none(ch: Seq<InlineV>, f: Seq<char>, r: Seq<char>, cs: bool, k: int, m: int)
    requires replace_children(ch, f, r, cs, k) is None, k <= m,
    ensures replace_children(ch, f, r, cs, m) is None,
    decreases m - k,
{
    if k < m {
        lemma_replace_children_none(ch, f, r, cs, k, m - 1);
    }
}

fn replace_in_node(n: &Node, f: &str, r: &str, cs: bool) -> (out: Option<Option<(Node, usize)>>)
    requires f@.len() > 0,
    ensures
        match replace_node(n@, f@, r@, cs) {
            None => out is None,
            Some(None) => out matches Some(None),
            Some(Some((m, c))) => out matches Some(Some((o, k))) && o@ == m && k == saturated(c),
        },
{
    match n {
        Node::Paragraph { children } => {
            proof { lemma_inlines_seq_v_index(children@); }
            if !children_hit_exec(children, f, cs) {
                return None;
            }
            match replace_in_children(children, f, r, cs) {
                None => Some(None),
                Some((ch, c)) => Some(Some((Node::Paragraph { children: ch }, c))),
            }
        },
        Node::CodeBlock { language, code } => {
            if !text_hit_exec(code.as_str(), f, cs) {
                return None;
            }
            match replace_text_exec(code.as_str(), f, r, cs) {
                None => Some(None),
                Some((c2, c)) => Some(Some((Node::CodeBlock { language: language.clone(), code: c2 }, c))),
            }
        },
        _ => None,
    }
}

/// Once find-and-replace fails on a prefix of the nodes, it fails on every
/// longer prefix.
pub proof fn lemma_replace_nodes_none(ns: Seq<NodeV>, f: Seq<char>, r: Seq<char>, cs: bool, k: int, m: int)
    requires replace_nodes(ns, f, r, cs, k) is None, k <= m,
    ensures replace_nodes(ns, f, r, cs, m) is None,
    decreases m - k,
{
    if k < m {
        lemma_replace_nodes_none(ns, f, r, cs, k, m - 1);
    }
}

pub proof fn lemma_replace_nodes_len(ns: Seq<NodeV>, f: Seq<char>, r: Seq<char>, cs: bool, k: int)
    requires k <= ns.len(),
    ensures replace_nodes(ns, f, r, cs, k) matches Some((o, _, _)) ==> o.len() == ns.len(),
    decreases k,
{
    if k > 0 {
        lemma_replace_nodes_len(ns, f, r, cs, k - 1);
    }
}

fn replace_in_nodes(nodes: &Vec<Node>, f: &str, r: &str, cs: bool) -> (out: Option<(Vec<Node>, usize, Vec<(usize, Node)>)>)
    requires f@.len() > 0,
    ensures
        match replace_nodes(nodes_seq_v(nodes@), f@, r@, cs, nodes.len() as int) {
            None => out is None,
            Some((ns, n, saved)) => out matches Some((o, c, sv)) && nodes_seq_v(o@) == ns && c == saturated(n)
                && saves_v(sv@) == saved,
        },
{
    proof { lemma_nodes_seq_v_index(nodes@); }
    let ghost nv = nodes_seq_v(nodes@);
    let mut out = crate::node::copy_nodes(nodes);
    let mut saved: Vec<(usize, Node)> = Vec::new();
    let mut cnt: usize = 0;
    let ghost mut gn: nat = 0;
    let mut i: usize = 0;
    proof { assert(saves_v(saved@) =~= Seq::<(usize, NodeV)>::empty()); }
    while i < nodes.len()
        invariant
            f@.len() > 0,
            nv == nodes_seq_v(nodes@),
            nv.len() == nodes.len(),
            out.len() == nodes.len(),
            forall|j: int| 0 <= j < nv.len() ==> #[trigger] nv[j] == node_v(&nodes@[j]),
            i <= nodes.len(),
            replace_nodes(nv, f@, r@, cs, i as int) == Some((nodes_seq_v(out@), gn, saves_v(saved@))),
            cnt == saturated(gn),
        decreases nodes.len() - i,
    {
        proof {
            lemma_replace_nodes_len(nv, f@, r@, cs, i as int);
            lemma_nodes_seq_v_index(out@);
        }
        match replace_in_node(&nodes[i], f, r, cs) {
            None => {},
            Some(None) => {
                proof {
                    assert(replace_nodes(nv, f@, r@, cs, i + 1) is None);
                    lemma_replace_nodes_none(nv, f@, r@, cs, i + 1, nodes.len() as int);
                }
                return None;
            },
            Some(Some((m, c))) => {
                let ghost gc: nat = match replace_node(nv[i as int], f@, r@, cs) { Some(Some(p)) => p.1, _ => 0 };
                let orig = copy_node(&nodes[i]);
                let ghost sv0 = saved@;
                saved.push((i, orig));
                let ghost o0 = out@;
                out.set(i, m);
                proof {
                    lemma_nodes_update(o0, i as int, m);
                    assert(saved@ =~= sv0.push((i, orig)));
                    assert(saves_v(saved@) =~= saves_v(sv0).push((i, orig@)));
                    lemma_saturated_add(gn, gc);
                }
                cnt = cnt.saturating_add(c);
                proof { gn = gn + gc; }
            },
        }
        i = i + 1;
    }
    Some((out, cnt, saved))
}

/// The nodes after undo writes the saved nodes back in order, and whether
/// every saved index was still in the document (writing stops at the first
/// one that is not).
pub open spec fn restore_in_place(nodes: Seq<NodeV>, saved: Seq<(usize, NodeV)>, k: int) -> (Seq<NodeV>, bool)
    decreases k,
{
    if k <= 0 {
        (nodes, true)
    } else {
        let prev = restore_in_place(nodes, saved, k - 1);
        if !prev.1 {
            prev
        } else if (saved[k - 1].0 as int) < prev.0.len() {
            (prev.0.update(saved[k - 1].0 as int, saved[k - 1].1), true)
        } else {
            (prev.0, false)
        }
    }
}

/// Command for finding and replacing text throughout a document
pub struct FindReplaceCommand {
    find: String,
    replace: String,
    case_sensitive: bool,
    original_nodes: Vec<(usize, Node)>,
    replacements: usize,
}

impl FindReplaceCommand {
    /// The text searched for.
    pub closed spec fn find(&self) -> Seq<char> {
        self.find@
    }

    /// The text put in its place.
    pub closed spec fn replacement(&self) -> Seq<char> {
        self.replace@
    }

    /// Whether the search tells case apart.
    pub closed spec fn is_case_sensitive(&self) -> bool {
        self.case_sensitive
    }

    /// The changed nodes as they were, with their indices, for undo.
    pub closed spec fn saved(&self) -> Seq<(usize, NodeV)> {
        saves_v(self.original_nodes@)
    }

    /// The number of replacements the last execution made.
    pub closed spec fn count(&self) -> usize {
        self.replacements
    }

    /// Create a new FindReplaceCommand
    pub fn new(find: &str, replace: &str, case_sensitive: bool) -> (r: Self)
        ensures
            r.find() == find@,
            r.replacement() == replace@,
            r.is_case_sensitive() == case_sensitive,
            r.saved() == Seq::<(usize, NodeV)>::empty(),
            r.count() == 0,
    {
        let r = FindReplaceCommand {
            find: crate::text::to_string(find),
            replace: crate::text::to_string(replace),
            case_sensitive,
            original_nodes: Vec::new(),
            replacements: 0,
        };
        proof { assert(saves_v(r.original_nodes@) =~= Seq::<(usize, NodeV)>::empty()); }
        r
    }

    /// Get the number of replacements made
    pub fn replacements(&self) -> (r: usize)
        ensures r == self.count(),
    {
        self.replacements
    }

    /// Whether running the command on the document stays clear of text
    /// slicing that would fail.
    pub fn can_run(&self, document: &Document) -> (b: bool)
        ensures b == find_replace_result(document@.nodes, self.find(), self.replacement(), self.is_case_sensitive()) is Some,
    {
        proof { lemma_nodes_seq_v_index(document.nodes@); }
        if self.find.as_str().unicode_len() == 0 {
            return true;
        }
        replace_in_nodes(&document.nodes, self.find.as_str(), self.replace.as_str(), self.case_sensitive).is_some()
    }
}

impl Command for FindReplaceCommand {
    /// No text slicing fails.
    open spec fn can_execute(&self, document: &Document) -> bool {
        find_replace_result(document@.nodes, self.find(), self.replacement(), self.is_case_sensitive()) is Some
    }

    open spec fn can_undo(&self, document: &Document) -> bool {
        true
    }

    /// Replaces the pattern in every paragraph text run and code block that
    /// holds it (see `find_replace_result`), saving each changed node.
    fn execute(&mut self, document: &mut Document) -> (r: Result<(), EditError>)
        ensures
            final(self).find() == old(self).find(),
            final(self).replacement() == old(self).replacement(),
            final(self).is_case_sensitive() == old(self).is_case_sensitive(),
            old(self).find().len() == 0 ==> r is Ok && final(document)@ == old(document)@
                && final(self).saved() == old(self).saved() && final(self).count() == old(self).count(),
            old(self).find().len() > 0 ==> match find_replace_result(old(document)@.nodes, old(self).find(),
                old(self).replacement(), old(self).is_case_sensitive()) {
                Some((ns, n, saved)) => r is Ok && final(document)@ == with_nodes(old(document)@, ns)
                    && final(self).saved() == old(self).saved() + saved && final(self).count() == saturated(n),
                None => false,
            },
    {
        proof { lemma_nodes_seq_v_index(document.nodes@); }
        if self.find.as_str().unicode_len() == 0 {
            return Ok(());
        }
        match replace_in_nodes(&document.nodes, self.find.as_str(), self.replace.as_str(), self.case_sensitive) {
            Some((nodes, cnt, mut saved)) => {
                let ghost before = self.original_nodes@;
                let ghost added = saved@;
                self.original_nodes.append(&mut saved);
                proof {
                    assert(saves_v(self.original_nodes@) =~= saves_v(before) + saves_v(added));
                }
                document.nodes = nodes;
                self.replacements = cnt;
                Ok(())
            },
            None => Ok(()),
        }
    }

    /// Writes the saved nodes back in order; an index past the end stops
    /// it with an error. The saved nodes are cleared either way, and the
    /// count on success.
    fn undo(&mut self, document: &mut Document) -> (r: Result<(), EditError>)
        ensures
            final(self).find() == old(self).find(),
            final(self).replacement() == old(self).replacement(),
            final(self).is_case_sensitive() == old(self).is_case_sensitive(),
            final(self).saved() == Seq::<(usize, NodeV)>::empty(),
            ({
                let (ns, ok) = restore_in_place(old(document)@.nodes, old(self).saved(), old(self).saved().len() as int);
                &&& final(document)@ == with_nodes(old(document)@, ns)
                &&& ok ==> r is Ok && final(self).count() == 0
                &&& !ok ==> r == Err::<(), EditError>(EditError::IndexOutOfBounds) && final(self).count() == old(self).count()
            }),
    {
        let mut saved: Vec<(usize, Node)> = Vec::new();
        std::mem::swap(&mut saved, &mut self.original_nodes);
        proof { assert(saves_v(self.original_nodes@) =~= Seq::<(usize, NodeV)>::empty()); }
        let ghost sv = saves_v(saved@);
        let ghost d = document@;
        let mut k: usize = 0;
        let mut ok = true;
        while k < saved.len() && ok
            invariant
                k <= saved.len(),
                sv == saves_v(saved@),
                sv.len() == saved.len(),
                ok == restore_in_place(d.nodes, sv, k as int).1,
                !ok ==> restore_in_place(d.nodes, sv, sv.len() as int) == restore_in_place(d.nodes, sv, k as int),
                document@ == with_nodes(d, restore_in_place(d.nodes, sv, k as int).0),
            decreases saved.len() - k,
        {
            let idx = saved[k].0;
            proof {
                lemma_nodes_seq_v_index(document.nodes@);
                assert(sv[k as int] == (idx, saved@[k as int].1@));
            }
            if idx >= document.nodes.len() {
                ok = false;
                proof { lemma_restore_stops(d.nodes, sv, k as int + 1, sv.len() as int); }
            } else {
                let n = copy_node(&saved[k].1);
                let ghost prev = document.nodes@;
                document.nodes.set(idx, n);
                proof { lemma_nodes_update(prev, idx as int, n); }
            }
            k = k + 1;
        }
        if ok {
            self.replacements = 0;
            Ok(())
        } else {
            Err(EditError::IndexOutOfBounds)
        }
    }
}

/// Once undo stops at an index past the end, later entries change nothing.
pub proof fn lemma_restore_stops(nodes: Seq<NodeV>, saved: Seq<(usize, NodeV)>, k: int, m: int)
    requires k <= m, k >= 1, !restore_in_place(nodes, saved, k).1,
    ensures restore_in_place(nodes, saved, m) == restore_in_place(nodes, saved, k),
    decreases m - k,
{
    if k < m {
        lemma_restore_stops(nodes, saved, k, m - 1);
    }
}

} // verus!
