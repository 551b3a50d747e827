//! Commands that edit the text inside a node: insert, format, delete, merge.
use vstd::prelude::*;
use crate::document::{Document, DocumentV, inlines_len, start_of, lemma_start_of_step, lemma_nodes_update};
use crate::error::EditError;
use crate::inline::{
    InlineNode, InlineV, TextFormatting, TextNode, inlines_seq_v, inline_v, copy_inlines, copy_inline,
    lemma_inlines_seq_v_index, lemma_inlines_push, lemma_inlines_update, lemma_inlines_insert, plain_text_v,
};
use crate::node::{Node, NodeV, lemma_nodes_seq_v_index};
use crate::text::{blen, is_boundary, char_at_byte, byte_len, char_index_of_byte, insert_chars, sub_chars, lemma_blen_take_mono};
use crate::editor::command::{Command, with_nodes};
use crate::doc_selection::{piece_bounds};

verus! {

// ---------------------------------------------------------------------------
// Locating the child that receives inserted text
// ---------------------------------------------------------------------------

/// Whether child `j` receives text inserted at `off`: a text run spanning
/// `off` (ends included), or another node starting exactly at `off`.
pub open spec fn receives(s: Seq<InlineV>, j: int, off: int) -> bool {
    if s[j] is Text {
        start_of(s, j) <= off <= start_of(s, j) + blen(s[j]->text)
    } else {
        off == start_of(s, j)
    }
}

/// The first child from `j` on that receives `off`; `s.len()` when none.
pub open spec fn receiver_from(s: Seq<InlineV>, off: int, j: int) -> int
    decreases s.len() - j,
{
    if j < 0 || j >= s.len() {
        s.len() as int
    } else if receives(s, j, off) {
        j
    } else {
        receiver_from(s, off, j + 1)
    }
}

proof fn lemma_receiver_range(s: Seq<InlineV>, off: int, j: int)
    requires 0 <= j <= s.len(),
    ensures
        j <= receiver_from(s, off, j) <= s.len(),
        receiver_from(s, off, j) < s.len() ==> receives(s, receiver_from(s, off, j), off),
    decreases s.len() - j,
{
    if j < s.len() && !receives(s, j, off) {
        lemma_receiver_range(s, off, j + 1);
    }
}

/// Children after the insert command puts `t` at `off`; `None` when `off`
/// lies past the end.
pub open spec fn insert_cmd_result(s: Seq<InlineV>, off: int, t: Seq<char>) -> Option<Seq<InlineV>> {
    let j = receiver_from(s, off, 0);
    if j < s.len() {
        if s[j] is Text {
            let text = s[j]->text;
            let ci = char_at_byte(text, off - start_of(s, j));
            Some(s.update(j, InlineV::Text { text: text.take(ci) + t + text.skip(ci), formatting: s[j]->formatting }))
        } else {
            Some(s.insert(j, plain_text_v(t)))
        }
    } else if off == inlines_len(s) {
        Some(s.push(plain_text_v(t)))
    } else {
        None
    }
}

/// The insert command only cuts text where a character starts.
pub open spec fn insert_cmd_ok(s: Seq<InlineV>, off: int) -> bool {
    let j = receiver_from(s, off, 0);
    j < s.len() && s[j] is Text ==> is_boundary(s[j]->text, off - start_of(s, j))
}

fn find_receiver(children: &Vec<InlineNode>, off: usize) -> (r: (usize, u128))
    ensures
        r.0 == receiver_from(inlines_seq_v(children@), off as int, 0),
        r.0 < children.len() ==> r.1 == start_of(inlines_seq_v(children@), r.0 as int),
        r.0 >= children.len() ==> r.1 == inlines_len(inlines_seq_v(children@)),
{
    let ghost s = inlines_seq_v(children@);
    proof {
        lemma_inlines_seq_v_index(children@);
        assert(s.take(0) =~= Seq::<InlineV>::empty());
    }
    let mut i: usize = 0;
    let mut cur: u128 = 0;
    while i < children.len()
        invariant
            s == inlines_seq_v(children@),
            s.len() == children.len(),
            i <= children.len(),
            cur == start_of(s, i as int),
            cur <= 0x1_0000_0000_0000_0000u128 * (i as u128),
            receiver_from(s, off as int, 0) == receiver_from(s, off as int, i as int),
            forall|j: int| 0 <= j < s.len() ==> #[trigger] s[j] == inline_v(&children@[j]),
        decreases children.len() - i,
    {
        proof { lemma_start_of_step(s, i as int); }
        match &children[i] {
            InlineNode::Text(t) => {
                let w = byte_len(t.text.as_str());
                if (off as u128) >= cur && (off as u128) <= cur + (w as u128) {
                    return (i, cur);
                }
                cur = cur + (w as u128);
            },
            _ => {
                if (off as u128) == cur {
                    return (i, cur);
                }
                cur = cur + 1;
            },
        }
        i = i + 1;
    }
    proof { assert(s.take(i as int) =~= s); }
    (i, cur)
}

/// The new children for the insert command.
fn children_with_insert(children: &Vec<InlineNode>, off: usize, t: &str) -> (r: Option<Vec<InlineNode>>)
    requires insert_cmd_ok(inlines_seq_v(children@), off as int),
    ensures
        match insert_cmd_result(inlines_seq_v(children@), off as int, t@) {
            Some(x) => r is Some && inlines_seq_v(r->0@) == x,
            None => r is None,
        },
{
    let ghost s = inlines_seq_v(children@);
    proof {
        lemma_inlines_seq_v_index(children@);
        lemma_receiver_range(s, off as int, 0);
    }
    let (j, start) = find_receiver(children, off);
    let mut r = copy_inlines(children);
    if j < children.len() {
        match &children[j] {
            InlineNode::Text(tn) => {
                let k = ((off as u128) - start) as usize;
                match char_index_of_byte(tn.text.as_str(), k) {
                    Some(ci) => {
                        let nt = insert_chars(tn.text.as_str(), ci, t);
                        let node = InlineNode::Text(TextNode { text: nt, formatting: tn.formatting });
                        proof {
                            lemma_inlines_update(r@, j as int, node);
                            lemma_inlines_seq_v_index(seq![node]);
                        }
                        r.set(j, node);
                    },
                    None => {},
                }
            },
            _ => {
                let node = InlineNode::text(t);
                proof {
                    lemma_inlines_insert(r@, j as int, node);
                    lemma_inlines_seq_v_index(seq![node]);
                }
                r.insert(j, node);
            },
        }
        return Some(r);
    }
    if (off as u128) == start {
        let node = InlineNode::text(t);
        proof { lemma_inlines_push(r@, node); }
        r.push(node);
        Some(r)
    } else {
        None
    }
}

/// Command to insert text at a byte position in a paragraph, heading or
/// code block
pub struct InsertTextCommand {
    node_index: usize,
    position: usize,
    text: String,
    affected_nodes: Option<Vec<InlineNode>>,
}

/// Whether a node's inline children are edited by the text commands.
pub open spec fn has_inlines(n: NodeV) -> bool {
    n is Paragraph || n is Heading
}

/// The inline children of a paragraph or heading model.
pub open spec fn inlines_of(n: NodeV) -> Seq<InlineV> {
    match n {
        NodeV::Paragraph { children } => children,
        NodeV::Heading { children, .. } => children,
        _ => Seq::empty(),
    }
}

/// A paragraph or heading model with its children replaced.
pub open spec fn with_inlines(n: NodeV, ch: Seq<InlineV>) -> NodeV {
    match n {
        NodeV::Heading { level, .. } => NodeV::Heading { level, children: ch },
        _ => NodeV::Paragraph { children: ch },
    }
}

/// The document model with the node at `i` replaced.
pub open spec fn with_node_at(d: DocumentV, i: int, n: NodeV) -> DocumentV {
    with_nodes(d, d.nodes.update(i, n))
}

/// Replaces the inline children of the paragraph or heading at `i`.
pub(crate) fn set_inlines(document: &mut Document, i: usize, new_children: Vec<InlineNode>)
    requires
        i < old(document).nodes.len(),
        has_inlines(old(document)@.nodes[i as int]),
    ensures
        final(document)@ == with_node_at(old(document)@, i as int,
            with_inlines(old(document)@.nodes[i as int], inlines_seq_v(new_children@))),
{
    proof { lemma_nodes_seq_v_index(document.nodes@); }
    let ghost old_nodes = document.nodes@;
    match &mut document.nodes[i] {
        Node::Paragraph { children } => { *children = new_children; },
        Node::Heading { children, .. } => { *children = new_children; },
        _ => {},
    }
    proof {
        lemma_nodes_update(old_nodes, i as int, document.nodes@[i as int]);
        assert(document.nodes@ =~= old_nodes.update(i as int, document.nodes@[i as int]));
    }
}

/// Replaces the code of the code block at `i`.
pub(crate) fn set_code(document: &mut Document, i: usize, code: String)
    requires
        i < old(document).nodes.len(),
        old(document)@.nodes[i as int] is CodeBlock,
    ensures
        final(document)@ == with_node_at(old(document)@, i as int,
            NodeV::CodeBlock { language: old(document)@.nodes[i as int]->CodeBlock_language, code: code@ }),
{
    proof { lemma_nodes_seq_v_index(document.nodes@); }
    let ghost old_nodes = document.nodes@;
    match &mut document.nodes[i] {
        Node::CodeBlock { code: c, .. } => { *c = code; },
        _ => {},
    }
    proof {
        lemma_nodes_update(old_nodes, i as int, document.nodes@[i as int]);
        assert(document.nodes@ =~= old_nodes.update(i as int, document.nodes@[i as int]));
    }
}

impl InsertTextCommand {
    pub closed spec fn node(&self) -> usize { self.node_index }
    pub closed spec fn position(&self) -> usize { self.position }
    pub closed spec fn text(&self) -> Seq<char> { self.text@ }
    pub closed spec fn saved(&self) -> Option<Seq<InlineV>> {
        match self.affected_nodes {
            Some(v) => Some(inlines_seq_v(v@)),
            None => None,
        }
    }

    /// Creates a command that inserts `text` at byte `position` of the node at `node_index`
    pub fn new(node_index: usize, position: usize, text: String) -> (r: Self)
        ensures r.node() == node_index, r.position() == position, r.text() == text@, r.saved() is None,
    {
        InsertTextCommand { node_index, position, text, affected_nodes: None }
    }
}

impl Command for InsertTextCommand {
    /// The text is inserted where a character starts.
    open spec fn can_execute(&self, document: &Document) -> bool {
        self.node() < document.nodes.len() ==> {
            let n = document@.nodes[self.node() as int];
            &&& has_inlines(n) ==> insert_cmd_ok(inlines_of(n), self.position() as int)
            &&& n is CodeBlock && self.position() <= blen(n->CodeBlock_code)
                ==> is_boundary(n->CodeBlock_code, self.position() as int)
        }
    }

    /// Restoring a code block needs the saved text.
    open spec fn can_undo(&self, document: &Document) -> bool {
        self.text().len() > 0 && self.saved() is Some && self.node() < document.nodes.len()
            && document@.nodes[self.node() as int] is CodeBlock ==> self.saved()->0.len() > 0
    }

    /// Inserts the text, saving the node's previous content for undo. An
    /// empty text changes nothing.
    fn execute(&mut self, document: &mut Document) -> (r: Result<(), EditError>)
        ensures
            final(self).node() == old(self).node(),
            final(self).position() == old(self).position(),
            final(self).text() == old(self).text(),
            old(self).text().len() == 0 ==> r is Ok && final(document)@ == old(document)@ && final(self).saved() == old(self).saved(),
            old(self).text().len() > 0 && old(self).node() >= old(document).nodes.len() ==> (r matches Err(EditError::IndexOutOfBounds))
                && final(document)@ == old(document)@ && final(self).saved() == old(self).saved(),
            old(self).text().len() > 0 && old(self).node() < old(document).nodes.len() ==> {
                let i = old(self).node() as int;
                let n = old(document)@.nodes[i];
                let p = old(self).position() as int;
                if has_inlines(n) {
                    &&& final(self).saved() == Some(inlines_of(n))
                    &&& match insert_cmd_result(inlines_of(n), p, old(self).text()) {
                        Some(ch) => r is Ok && final(document)@ == with_node_at(old(document)@, i, with_inlines(n, ch)),
                        None => (r matches Err(EditError::InvalidRange)) && final(document)@ == old(document)@,
                    }
                } else if n is CodeBlock {
                    let code = n->CodeBlock_code;
                    if p <= blen(code) {
                        let ci = char_at_byte(code, p);
                        &&& r is Ok
                        &&& final(self).saved() == Some(seq![plain_text_v(code)])
                        &&& final(document)@ == with_node_at(old(document)@, i, NodeV::CodeBlock {
                            language: n->CodeBlock_language,
                            code: code.take(ci) + old(self).text() + code.skip(ci),
                        })
                    } else {
                        (r matches Err(EditError::InvalidRange)) && final(document)@ == old(document)@
                            && final(self).saved() == old(self).saved()
                    }
                } else {
                    (r matches Err(EditError::UnsupportedOperation)) && final(document)@ == old(document)@
                        && final(self).saved() == old(self).saved()
                }
            },
    {
        if self.text.as_str().unicode_len() == 0 {
            return Ok(());
        }
        proof { lemma_nodes_seq_v_index(document.nodes@); }
        if self.node_index >= document.nodes.len() {
            return Err(EditError::IndexOutOfBounds);
        }
        let i = self.node_index;
        let outcome: Option<Option<Vec<InlineNode>>> = match &document.nodes[i] {
            Node::Paragraph { children } | Node::Heading { children, .. } => {
                proof { lemma_inlines_seq_v_index(children@); }
                self.affected_nodes = Some(copy_inlines(children));
                Some(children_with_insert(children, self.position, self.text.as_str()))
            },
            _ => None,
        };
        match outcome {
            Some(Some(ch)) => {
                set_inlines(document, i, ch);
                return Ok(());
            },
            Some(None) => { return Err(EditError::InvalidRange); },
            None => {},
        }
        let new_code: Option<(String, String)> = match &document.nodes[i] {
            Node::CodeBlock { code, .. } => {
                let c = code.as_str();
                if self.position <= byte_len(c) {
                    let ci = char_index_of_byte(c, self.position);
                    match ci {
                        Some(ci) => Some((code.clone(), insert_chars(c, ci, self.text.as_str()))),
                        None => None,
                    }
                } else {
                    None
                }
            },
            _ => { return Err(EditError::UnsupportedOperation); },
        };
        match new_code {
            Some((orig, nc)) => {
                let saved = crate::inline::single_inline(InlineNode::text(orig.as_str()));
                self.affected_nodes = Some(saved);
                set_code(document, i, nc);
                Ok(())
            },
            None => Err(EditError::InvalidRange),
        }
    }

    /// Restores the saved content of the node. An empty insertion changed
    /// nothing, and its undo changes nothing.
    fn undo(&mut self, document: &mut Document) -> (r: Result<(), EditError>)
        ensures
            *final(self) == *old(self),
            old(self).text().len() == 0 ==> r is Ok && final(document)@ == old(document)@,
            old(self).text().len() > 0 ==> match old(self).saved() {
                None => (r matches Err(EditError::OperationFailed)) && final(document)@ == old(document)@,
                Some(saved) => if old(self).node() >= old(document).nodes.len() {
                    (r matches Err(EditError::IndexOutOfBounds)) && final(document)@ == old(document)@
                } else {
                    let i = old(self).node() as int;
                    let n = old(document)@.nodes[i];
                    if has_inlines(n) {
                        r is Ok && final(document)@ == with_node_at(old(document)@, i, with_inlines(n, saved))
                    } else if n is CodeBlock {
                        if saved[0] is Text {
                            r is Ok && final(document)@ == with_node_at(old(document)@, i, NodeV::CodeBlock {
                                language: n->CodeBlock_language,
                                code: saved[0]->text,
                            })
                        } else {
                            (r matches Err(EditError::OperationFailed)) && final(document)@ == old(document)@
                        }
                    } else {
                        (r matches Err(EditError::UnsupportedOperation)) && final(document)@ == old(document)@
                    }
                },
            },
    {
        if self.text.as_str().unicode_len() == 0 {
            return Ok(());
        }
        let saved = match &self.affected_nodes {
            Some(v) => v,
            None => { return Err(EditError::OperationFailed); },
        };
        proof {
            lemma_nodes_seq_v_index(document.nodes@);
            lemma_inlines_seq_v_index(saved@);
        }
        if self.node_index >= document.nodes.len() {
            return Err(EditError::IndexOutOfBounds);
        }
        let i = self.node_index;
        let kind: u8 = match &document.nodes[i] {
            Node::Paragraph { .. } | Node::Heading { .. } => 0,
            Node::CodeBlock { .. } => 1,
            _ => 2,
        };
        if kind == 0 {
            set_inlines(document, i, copy_inlines(saved));
            Ok(())
        } else if kind == 1 {
            match &saved[0] {
                InlineNode::Text(tn) => {
                    set_code(document, i, tn.text.clone());
                    Ok(())
                },
                _ => Err(EditError::OperationFailed),
            }
        } else {
            Err(EditError::UnsupportedOperation)
        }
    }
}


// ---------------------------------------------------------------------------
// Formatting a byte range
// ---------------------------------------------------------------------------

/// The union of two formattings.
pub open spec fn merge_fmt(a: TextFormatting, b: TextFormatting) -> TextFormatting {
    TextFormatting {
        bold: a.bold || b.bold,
        italic: a.italic || b.italic,
        strikethrough: a.strikethrough || b.strikethrough,
        code: a.code || b.code,
    }
}

/// Whether text child `j` overlaps the byte range `[st, en)`.
pub open spec fn overlaps(s: Seq<InlineV>, j: int, st: int, en: int) -> bool {
    &&& s[j] is Text
    &&& st < start_of(s, j) + blen(s[j]->text)
    &&& en > start_of(s, j)
}

/// The pieces of a text run starting at byte `start` when `[st, en)` is
/// formatted with `f`: the part before, the formatted part, the part after.
pub open spec fn format_run(text: Seq<char>, fmt: TextFormatting, start: int, st: int, en: int, f: TextFormatting) -> Seq<InlineV> {
    let a = if st > start { st - start } else { 0 };
    let b = if en - start < blen(text) { en - start } else { blen(text) };
    let ca = char_at_byte(text, a);
    let cb = char_at_byte(text, b);
    let before = if a > 0 { seq![InlineV::Text { text: text.take(ca), formatting: fmt }] } else { Seq::empty() };
    let mid = seq![InlineV::Text { text: text.subrange(ca, cb), formatting: merge_fmt(fmt, f) }];
    let after = if b < blen(text) { seq![InlineV::Text { text: text.skip(cb), formatting: fmt }] } else { Seq::empty() };
    before + mid + after
}

/// What child `j` becomes when `[st, en)` is formatted with `f`: a text run
/// overlapping the range is cut in pieces; other children stay as they are.
pub open spec fn format_child(s: Seq<InlineV>, j: int, st: int, en: int, f: TextFormatting) -> Seq<InlineV> {
    if overlaps(s, j, st, en) {
        format_run(s[j]->text, s[j]->formatting, start_of(s, j), st, en, f)
    } else {
        seq![s[j]]
    }
}

/// The formatted versions of the first `k` children, concatenated.
pub open spec fn format_all(s: Seq<InlineV>, st: int, en: int, f: TextFormatting, k: int) -> Seq<InlineV>
    decreases k,
{
    if k <= 0 {
        Seq::empty()
    } else {
        format_all(s, st, en, f, k - 1) + format_child(s, k - 1, st, en, f)
    }
}

/// The formatted range starts and ends where characters start.
pub open spec fn format_ok(s: Seq<InlineV>, st: int, en: int) -> bool {
    forall|j: int| 0 <= j < s.len() && #[trigger] overlaps(s, j, st, en) ==> {
        &&& is_boundary(s[j]->text, piece_bounds(s, j, st, en).0)
        &&& is_boundary(s[j]->text, piece_bounds(s, j, st, en).1)
    }
}

fn merge_formatting(a: TextFormatting, b: TextFormatting) -> (r: TextFormatting)
    ensures r == merge_fmt(a, b),
{
    TextFormatting {
        bold: a.bold || b.bold,
        italic: a.italic || b.italic,
        strikethrough: a.strikethrough || b.strikethrough,
        code: a.code || b.code,
    }
}

fn push_inline(v: &mut Vec<InlineNode>, x: InlineNode)
    ensures final(v)@ == old(v)@.push(x), inlines_seq_v(final(v)@) == inlines_seq_v(old(v)@).push(x@),
{
    proof { lemma_inlines_push(v@, x); }
    v.push(x);
}

/// The pieces of one overlapping text run.
fn format_run_exec(tn: &TextNode, start: u128, st: usize, en: usize, f: TextFormatting) -> (r: Vec<InlineNode>)
    requires
        (st as int) < start + blen(tn.text@),
        (en as int) > start,
        st < en,
        start <= 0x1_0000_0000_0000_0000u128 * 0x1_0000_0000_0000_0000u128,
        is_boundary(tn.text@, if st > start { st - start } else { 0 }),
        is_boundary(tn.text@, if en - start < blen(tn.text@) { en - start } else { blen(tn.text@) }),
    ensures inlines_seq_v(r@) == format_run(tn.text@, tn.formatting, start as int, st as int, en as int, f),
{
    let text = tn.text.as_str();
    let len = byte_len(text);
    let a: u128 = if (st as u128) > start { (st as u128) - start } else { 0 };
    let b: u128 = if (en as u128) - start < (len as u128) { (en as u128) - start } else { len as u128 };
    let ca = match char_index_of_byte(text, a as usize) { Some(x) => x, None => 0 };
    let cb = match char_index_of_byte(text, b as usize) { Some(x) => x, None => 0 };
    proof {
        if ca > cb { lemma_blen_take_mono(text@, cb as int, ca as int); }
    }
    let n = text.unicode_len();
    let mut out: Vec<InlineNode> = Vec::new();
    if a > 0 {
        push_inline(&mut out, InlineNode::Text(TextNode { text: sub_chars(text, 0, ca), formatting: tn.formatting }));
        proof { assert(text@.subrange(0, ca as int) =~= text@.take(ca as int)); }
    }
    let ghost o1 = inlines_seq_v(out@);
    push_inline(&mut out, InlineNode::Text(TextNode {
        text: sub_chars(text, ca, cb),
        formatting: merge_formatting(tn.formatting, f),
    }));
    let ghost o2 = inlines_seq_v(out@);
    if b < (len as u128) {
        push_inline(&mut out, InlineNode::Text(TextNode { text: sub_chars(text, cb, n), formatting: tn.formatting }));
        proof { assert(text@.subrange(cb as int, n as int) =~= text@.skip(cb as int)); }
    }
    proof {
        assert(inlines_seq_v(out@) =~= format_run(tn.text@, tn.formatting, start as int, st as int, en as int, f));
    }
    out
}

fn append_inlines(out: &mut Vec<InlineNode>, more: Vec<InlineNode>)
    ensures inlines_seq_v(final(out)@) == inlines_seq_v(old(out)@) + inlines_seq_v(more@),
{
    let ghost o = inlines_seq_v(out@);
    proof { lemma_inlines_seq_v_index(more@); }
    let mut i: usize = 0;
    while i < more.len()
        invariant
            i <= more.len(),
            inlines_seq_v(more@).len() == more.len(),
            forall|j: int| 0 <= j < more.len() ==> #[trigger] inlines_seq_v(more@)[j] == inline_v(&more@[j]),
            inlines_seq_v(out@) == o + inlines_seq_v(more@).take(i as int),
        decreases more.len() - i,
    {
        let c = copy_inline(&more[i]);
        push_inline(out, c);
        proof { assert(inlines_seq_v(more@).take(i + 1) =~= inlines_seq_v(more@).take(i as int).push(more@[i as int]@)); }
        i = i + 1;
    }
    proof { assert(inlines_seq_v(more@).take(i as int) =~= inlines_seq_v(more@)); }
}

fn formatted_children(children: &Vec<InlineNode>, st: usize, en: usize, f: TextFormatting) -> (r: Vec<InlineNode>)
    requires st < en, format_ok(inlines_seq_v(children@), st as int, en as int),
    ensures inlines_seq_v(r@) == format_all(inlines_seq_v(children@), st as int, en as int, f, children.len() as int),
{
    let ghost s = inlines_seq_v(children@);
    proof {
        lemma_inlines_seq_v_index(children@);
        assert(s.take(0) =~= Seq::<InlineV>::empty());
    }
    let mut out: Vec<InlineNode> = Vec::new();
    let mut i: usize = 0;
    let mut cur: u128 = 0;
    while i < children.len()
        invariant
            s == inlines_seq_v(children@),
            s.len() == children.len(),
            st < en,
            format_ok(s, st as int, en as int),
            i <= children.len(),
            cur == start_of(s, i as int),
            cur <= 0x1_0000_0000_0000_0000u128 * (i as u128),
            inlines_seq_v(out@) == format_all(s, st as int, en as int, f, i as int),
            forall|j: int| 0 <= j < s.len() ==> #[trigger] s[j] == inline_v(&children@[j]),
        decreases children.len() - i,
    {
        proof { lemma_start_of_step(s, i as int); }
        let ghost before_out = inlines_seq_v(out@);
        match &children[i] {
            InlineNode::Text(tn) => {
                let text = tn.text.as_str();
                let len = byte_len(text);
                let next = cur + (len as u128);
                if (st as u128) < next && (en as u128) > cur {
                    proof { assert(overlaps(s, i as int, st as int, en as int)); }
                    let pieces = format_run_exec(tn, cur, st, en, f);
                    append_inlines(&mut out, pieces);
                    proof {
                        assert(inlines_seq_v(out@) =~= before_out + format_child(s, i as int, st as int, en as int, f));
                    }
                } else {
                    push_inline(&mut out, copy_inline(&children[i]));
                    proof { assert(inlines_seq_v(out@) =~= before_out + format_child(s, i as int, st as int, en as int, f)); }
                }
                cur = next;
            },
            _ => {
                push_inline(&mut out, copy_inline(&children[i]));
                proof { assert(inlines_seq_v(out@) =~= before_out + format_child(s, i as int, st as int, en as int, f)); }
                cur = cur + 1;
            },
        }
        i = i + 1;
    }
    out
}

/// Command to apply formatting to a byte range of a paragraph or heading
pub struct FormatTextCommand {
    node_index: usize,
    start: usize,
    end: usize,
    formatting: TextFormatting,
    original_nodes: Option<Vec<InlineNode>>,
}

impl FormatTextCommand {
    pub closed spec fn node(&self) -> usize { self.node_index }
    pub closed spec fn start(&self) -> usize { self.start }
    pub closed spec fn end(&self) -> usize { self.end }
    pub closed spec fn formatting(&self) -> TextFormatting { self.formatting }
    pub closed spec fn saved(&self) -> Option<Seq<InlineV>> {
        match self.original_nodes {
            Some(v) => Some(inlines_seq_v(v@)),
            None => None,
        }
    }

    /// Creates a command that adds `formatting` to bytes `start..end` of the node at `node_index`
    pub fn new(node_index: usize, start: usize, end: usize, formatting: TextFormatting) -> (r: Self)
        ensures
            r.node() == node_index, r.start() == start, r.end() == end, r.formatting() == formatting,
            r.saved() is None,
    {
        FormatTextCommand { node_index, start, end, formatting, original_nodes: None }
    }
}

impl Command for FormatTextCommand {
    /// The formatted range only cuts text where a character starts.
    open spec fn can_execute(&self, document: &Document) -> bool {
        self.node() < document.nodes.len() && self.start() < self.end() && has_inlines(document@.nodes[self.node() as int])
            ==> format_ok(inlines_of(document@.nodes[self.node() as int]), self.start() as int, self.end() as int)
    }

    open spec fn can_undo(&self, document: &Document) -> bool { true }

    /// Formats the range, cutting text runs at its ends; the previous
    /// children are saved for undo.
    fn execute(&mut self, document: &mut Document) -> (r: Result<(), EditError>)
        ensures
            final(self).node() == old(self).node(),
            final(self).start() == old(self).start(),
            final(self).end() == old(self).end(),
            final(self).formatting() == old(self).formatting(),
            old(self).node() >= old(document).nodes.len() ==> (r matches Err(EditError::IndexOutOfBounds))
                && final(document)@ == old(document)@ && final(self).saved() == old(self).saved(),
            old(self).node() < old(document).nodes.len() && old(self).start() >= old(self).end()
                ==> (r matches Err(EditError::InvalidRange)) && final(document)@ == old(document)@
                && final(self).saved() == old(self).saved(),
            old(self).node() < old(document).nodes.len() && old(self).start() < old(self).end() ==> {
                let i = old(self).node() as int;
                let n = old(document)@.nodes[i];
                if has_inlines(n) {
                    let ch = inlines_of(n);
                    &&& r is Ok
                    &&& final(self).saved() == Some(ch)
                    &&& final(document)@ == with_node_at(old(document)@, i, with_inlines(n,
                        format_all(ch, old(self).start() as int, old(self).end() as int, old(self).formatting(), ch.len() as int)))
                } else {
                    (r matches Err(EditError::UnsupportedOperation)) && final(document)@ == old(document)@
                        && final(self).saved() == old(self).saved()
                }
            },
    {
        proof { lemma_nodes_seq_v_index(document.nodes@); }
        if self.node_index >= document.nodes.len() {
            return Err(EditError::IndexOutOfBounds);
        }
        if self.start >= self.end {
            return Err(EditError::InvalidRange);
        }
        let i = self.node_index;
        let new_children = match &document.nodes[i] {
            Node::Paragraph { children } | Node::Heading { children, .. } => {
                proof { lemma_inlines_seq_v_index(children@); }
                self.original_nodes = Some(copy_inlines(children));
                formatted_children(children, self.start, self.end, self.formatting)
            },
            _ => { return Err(EditError::UnsupportedOperation); },
        };
        set_inlines(document, i, new_children);
        Ok(())
    }

    /// Restores the saved children.
    fn undo(&mut self, document: &mut Document) -> (r: Result<(), EditError>)
        ensures
            *final(self) == *old(self),
            old(self).node() >= old(document).nodes.len() ==> (r matches Err(EditError::IndexOutOfBounds))
                && final(document)@ == old(document)@,
            old(self).node() < old(document).nodes.len() ==> {
                let i = old(self).node() as int;
                let n = old(document)@.nodes[i];
                if has_inlines(n) {
                    match old(self).saved() {
                        Some(saved) => r is Ok && final(document)@ == with_node_at(old(document)@, i, with_inlines(n, saved)),
                        None => (r matches Err(EditError::OperationFailed)) && final(document)@ == old(document)@,
                    }
                } else {
                    (r matches Err(EditError::UnsupportedOperation)) && final(document)@ == old(document)@
                }
            },
    {
        proof { lemma_nodes_seq_v_index(document.nodes@); }
        if self.node_index >= document.nodes.len() {
            return Err(EditError::IndexOutOfBounds);
        }
        let i = self.node_index;
        let ok = match &document.nodes[i] {
            Node::Paragraph { .. } | Node::Heading { .. } => true,
            _ => false,
        };
        if !ok {
            return Err(EditError::UnsupportedOperation);
        }
        match &self.original_nodes {
            Some(saved) => {
                set_inlines(document, i, copy_inlines(saved));
                Ok(())
            },
            None => Err(EditError::OperationFailed),
        }
    }
}

} // verus!
