//! Commands that delete a byte range of text and merge adjacent nodes.
use vstd::prelude::*;
use crate::document::{
    Document, DocumentV, start_of, lemma_start_of_step, lemma_nodes_update, lemma_nodes_remove,
    lemma_nodes_insert, copy_inline_range,
};
use crate::error::EditError;
use crate::inline::{
    InlineNode, InlineV, TextNode, inlines_seq_v, inline_v, copy_inline, copy_inlines, lemma_inlines_seq_v_index,
    lemma_inlines_push, lemma_inlines_insert, lemma_inlines_update, plain_text_v,
};
use crate::node::{Node, NodeV, lemma_nodes_seq_v_index, copy_node};
use crate::text::{
    blen, is_boundary, char_at_byte, byte_len, char_index_of_byte, insert_chars, sub_chars, remove_chars,
    concat, lemma_blen_take_mono,
};
use crate::editor::command::{Command, with_nodes};
use crate::editor::text_commands::{set_inlines, set_code, with_node_at};
use crate::doc_selection::{
    piece_bounds, piece_taken, selected_text, pieces_ok, node_selection_ok, paragraph_selected_text,
};

verus! {

// ---------------------------------------------------------------------------
// Deleting a byte range
// ---------------------------------------------------------------------------

/// What is left of child `j` once the bytes `[s, e)` are deleted: a text run
/// that overlaps the range loses that part and disappears when nothing is
/// left of it; every other child stays as it is.
pub open spec fn kept_piece(ch: Seq<InlineV>, j: int, s: int, e: int) -> Seq<InlineV> {
    if piece_taken(ch, j, s, e) {
        let text = ch[j]->text;
        let a = char_at_byte(text, piece_bounds(ch, j, s, e).0);
        let b = char_at_byte(text, piece_bounds(ch, j, s, e).1);
        let rest = text.take(a) + text.skip(b);
        if rest.len() == 0 {
            Seq::empty()
        } else {
            seq![InlineV::Text { text: rest, formatting: ch[j]->formatting }]
        }
    } else {
        seq![ch[j]]
    }
}

/// The first `k` children after deleting the bytes `[s, e)`.
pub open spec fn kept_run(ch: Seq<InlineV>, s: int, e: int, k: int) -> Seq<InlineV>
    decreases k,
{
    if k <= 0 {
        Seq::empty()
    } else {
        kept_run(ch, s, e, k - 1) + kept_piece(ch, k - 1, s, e)
    }
}

/// The outcome of deleting bytes `[s, e)` from the node at `i`: the new
/// document and the deleted characters, or the error.
pub open spec fn delete_text_result(d: DocumentV, i: int, s: int, e: int) -> Result<(DocumentV, Seq<char>), EditError> {
    if i < 0 || i >= d.nodes.len() {
        Err(EditError::IndexOutOfBounds)
    } else if s >= e {
        Err(EditError::InvalidRange)
    } else {
        match d.nodes[i] {
            NodeV::Paragraph { children } => Ok((
                with_node_at(d, i, NodeV::Paragraph { children: kept_run(children, s, e, children.len() as int) }),
                selected_text(children, s, e, children.len() as int),
            )),
            NodeV::CodeBlock { language, code } => if s < blen(code) && e <= blen(code) {
                let a = char_at_byte(code, s);
                let b = char_at_byte(code, e);
                Ok((
                    with_node_at(d, i, NodeV::CodeBlock { language, code: code.take(a) + code.skip(b) }),
                    code.subrange(a, b),
                ))
            } else {
                Err(EditError::InvalidRange)
            },
            _ => Err(EditError::UnsupportedOperation),
        }
    }
}

/// The children of a paragraph once the bytes `[s, e)` are deleted.
fn delete_in_children(children: &Vec<InlineNode>, s: usize, e: usize) -> (r: Vec<InlineNode>)
    requires pieces_ok(inlines_seq_v(children@), s as int, e as int),
    ensures inlines_seq_v(r@) == kept_run(inlines_seq_v(children@), s as int, e as int, children.len() as int),
{
    let ghost ch = inlines_seq_v(children@);
    proof {
        lemma_inlines_seq_v_index(children@);
        assert(ch.take(0) =~= Seq::<InlineV>::empty());
    }
    let mut result: Vec<InlineNode> = Vec::new();
    let mut i: usize = 0;
    let mut cur: u128 = 0;
    while i < children.len()
        invariant
            ch == inlines_seq_v(children@),
            ch.len() == children.len(),
            pieces_ok(ch, s as int, e as int),
            i <= children.len(),
            cur == start_of(ch, i as int),
            cur <= 0x1_0000_0000_0000_0000u128 * (i as u128),
            inlines_seq_v(result@) == kept_run(ch, s as int, e as int, i as int),
            forall|j: int| 0 <= j < ch.len() ==> #[trigger] ch[j] == inline_v(&children@[j]),
        decreases children.len() - i,
    {
        proof { lemma_start_of_step(ch, i as int); }
        let ghost before = result@;
        let mut taken = false;
        match &children[i] {
            InlineNode::Text(t) => {
                let text = t.text.as_str();
                let len = byte_len(text);
                let next = cur + (len as u128);
                if (s as u128) < next && (e as u128) > cur {
                    let a: u128 = if (s as u128) > cur { (s as u128) - cur } else { 0 };
                    let b: u128 = if (e as u128) - cur < (len as u128) { (e as u128) - cur } else { len as u128 };
                    if a < b {
                        proof { assert(piece_taken(ch, i as int, s as int, e as int)); }
                        let ca = char_index_of_byte(text, a as usize);
                        let cb = char_index_of_byte(text, b as usize);
                        match (ca, cb) {
                            (Some(ca), Some(cb)) => {
                                proof {
                                    if ca > cb {
                                        lemma_blen_take_mono(text@, cb as int, ca as int);
                                    }
                                }
                                let rest = remove_chars(text, ca, cb);
                                taken = true;
                                if rest.as_str().unicode_len() > 0 {
                                    let node = InlineNode::Text(TextNode { text: rest, formatting: t.formatting });
                                    proof { lemma_inlines_push(result@, node); }
                                    result.push(node);
                                    proof {
                                        assert(kept_piece(ch, i as int, s as int, e as int) =~= seq![node@]);
                                        assert(kept_run(ch, s as int, e as int, i as int) + seq![node@]
                                            =~= kept_run(ch, s as int, e as int, i as int).push(node@));
                                    }
                                } else {
                                    proof {
                                        assert(kept_piece(ch, i as int, s as int, e as int) =~= Seq::<InlineV>::empty());
                                        assert(kept_run(ch, s as int, e as int, i as int) + Seq::<InlineV>::empty()
                                            =~= kept_run(ch, s as int, e as int, i as int));
                                    }
                                }
                            },
                            _ => {},
                        }
                    }
                }
                cur = next;
            },
            _ => {
                cur = cur + 1;
            },
        }
        if !taken {
            proof { assert(!piece_taken(ch, i as int, s as int, e as int)); }
            let c = copy_inline(&children[i]);
            proof { lemma_inlines_push(result@, c); }
            result.push(c);
            proof {
                assert(kept_run(ch, s as int, e as int, i as int) + seq![c@]
                    =~= kept_run(ch, s as int, e as int, i as int).push(c@));
            }
        }
        i = i + 1;
    }
    result
}

/// Command to delete a byte range of text from a paragraph or code block
pub struct DeleteTextCommand {
    node_index: usize,
    start: usize,
    end: usize,
    deleted_text: Option<String>,
    saved_children: Option<Vec<InlineNode>>,
}

impl DeleteTextCommand {
    /// The index of the node the text is deleted from.
    pub closed spec fn node(&self) -> usize {
        self.node_index
    }

    /// The first byte of the range.
    pub closed spec fn start(&self) -> usize {
        self.start
    }

    /// The byte just past the range.
    pub closed spec fn end(&self) -> usize {
        self.end
    }

    /// The text removed by the last execution, if any.
    pub closed spec fn deleted(&self) -> Option<Seq<char>> {
        match self.deleted_text {
            Some(t) => Some(t@),
            None => None,
        }
    }

    /// The children of the paragraph the last execution deleted from, as
    /// they were, for undo.
    pub closed spec fn saved_children(&self) -> Option<Seq<InlineV>> {
        match self.saved_children {
            Some(ch) => Some(inlines_seq_v(ch@)),
            None => None,
        }
    }

    /// Creates a command that deletes bytes `start..end` of the node at `node_index`
    pub fn new(node_index: usize, start: usize, end: usize) -> (r: Self)
        ensures r.node() == node_index, r.start() == start, r.end() == end, r.deleted() is None,
            r.saved_children() is None,
    {
        DeleteTextCommand { node_index, start, end, deleted_text: None, saved_children: None }
    }
}

impl Command for DeleteTextCommand {
    /// The range is cut only where characters start.
    open spec fn can_execute(&self, document: &Document) -> bool {
        self.node() < document.nodes.len() && self.start() < self.end()
            ==> node_selection_ok(document@.nodes[self.node() as int], self.start() as int, self.end() as int)
    }

    /// The text goes back into a code block only where a character starts.
    open spec fn can_undo(&self, document: &Document) -> bool {
        self.deleted() is Some && self.node() < document.nodes.len() ==> match document@.nodes[self.node() as int] {
            NodeV::CodeBlock { code, .. } => self.start() <= blen(code) ==> is_boundary(code, self.start() as int),
            _ => true,
        }
    }

    /// Deletes the range, keeping the deleted text for undo. In a paragraph
    /// only text runs lose characters; a run left empty is removed.
    fn execute(&mut self, document: &mut Document) -> (r: Result<(), EditError>)
        ensures
            final(self).node() == old(self).node(),
            final(self).start() == old(self).start(),
            final(self).end() == old(self).end(),
            match delete_text_result(old(document)@, old(self).node() as int, old(self).start() as int, old(self).end() as int) {
                Ok((d, t)) => r is Ok && final(document)@ == d && final(self).deleted() == Some(t)
                    && final(self).saved_children() == match old(document)@.nodes[old(self).node() as int] {
                        NodeV::Paragraph { children } => Some(children),
                        _ => None,
                    },
                Err(err) => r == Err::<(), EditError>(err) && final(document)@ == old(document)@
                    && final(self).deleted() == old(self).deleted() && final(self).saved_children() == old(self).saved_children(),
            },
    {
        proof { lemma_nodes_seq_v_index(document.nodes@); }
        if self.node_index >= document.nodes.len() {
            return Err(EditError::IndexOutOfBounds);
        }
        if self.start >= self.end {
            return Err(EditError::InvalidRange);
        }
        let i = self.node_index;
        let s = self.start;
        let e = self.end;
        let outcome: Option<(Vec<InlineNode>, String, Vec<InlineNode>)> = match &document.nodes[i] {
            Node::Paragraph { children } => {
                proof { lemma_inlines_seq_v_index(children@); }
                let t = paragraph_selected_text(children, s, e);
                Some((delete_in_children(children, s, e), t, copy_inlines(children)))
            },
            _ => None,
        };
        match outcome {
            Some((ch, t, saved)) => {
                self.deleted_text = Some(t);
                self.saved_children = Some(saved);
                set_inlines(document, i, ch);
                return Ok(());
            },
            None => {},
        }
        let code_outcome: Option<(String, String)> = match &document.nodes[i] {
            Node::CodeBlock { code, .. } => {
                let c = code.as_str();
                let len = byte_len(c);
                if s < len && e <= len {
                    match (char_index_of_byte(c, s), char_index_of_byte(c, e)) {
                        (Some(a), Some(b)) => {
                            proof {
                                if a > b {
                                    lemma_blen_take_mono(c@, b as int, a as int);
                                }
                            }
                            Some((sub_chars(c, a, b), remove_chars(c, a, b)))
                        },
                        _ => None,
                    }
                } else {
                    None
                }
            },
            _ => { return Err(EditError::UnsupportedOperation); },
        };
        match code_outcome {
            Some((t, nc)) => {
                self.deleted_text = Some(t);
                self.saved_children = None;
                set_code(document, i, nc);
                Ok(())
            },
            None => Err(EditError::InvalidRange),
        }
    }

    /// Puts a paragraph's saved children back; puts the deleted text back
    /// into a code block at the start offset.
    fn undo(&mut self, document: &mut Document) -> (r: Result<(), EditError>)
        ensures
            *final(self) == *old(self),
            match old(self).deleted() {
                None => (r matches Err(EditError::OperationFailed)) && final(document)@ == old(document)@,
                Some(t) => if old(self).node() >= old(document).nodes.len() {
                    (r matches Err(EditError::IndexOutOfBounds)) && final(document)@ == old(document)@
                } else {
                    let i = old(self).node() as int;
                    let st = old(self).start() as int;
                    match old(document)@.nodes[i] {
                        NodeV::Paragraph { .. } => match old(self).saved_children() {
                            Some(ch) => r is Ok && final(document)@ == with_node_at(old(document)@, i, NodeV::Paragraph { children: ch }),
                            None => (r matches Err(EditError::OperationFailed)) && final(document)@ == old(document)@,
                        },
                        NodeV::CodeBlock { language, code } => if st <= blen(code) {
                            let ci = char_at_byte(code, st);
                            r is Ok && final(document)@ == with_node_at(old(document)@, i,
                                NodeV::CodeBlock { language, code: code.take(ci) + t + code.skip(ci) })
                        } else {
                            (r matches Err(EditError::InvalidRange)) && final(document)@ == old(document)@
                        },
                        _ => (r matches Err(EditError::UnsupportedOperation)) && final(document)@ == old(document)@,
                    }
                },
            },
    {
        let t = match &self.deleted_text {
            Some(t) => t,
            None => { return Err(EditError::OperationFailed); },
        };
        proof { lemma_nodes_seq_v_index(document.nodes@); }
        if self.node_index >= document.nodes.len() {
            return Err(EditError::IndexOutOfBounds);
        }
        let i = self.node_index;
        let st = self.start;
        let is_para = match &document.nodes[i] {
            Node::Paragraph { .. } => true,
            _ => false,
        };
        if is_para {
            match &self.saved_children {
                Some(ch) => {
                    let restored = copy_inlines(ch);
                    set_inlines(document, i, restored);
                    return Ok(());
                },
                None => { return Err(EditError::OperationFailed); },
            }
        }
        let code_outcome: Option<String> = match &document.nodes[i] {
            Node::CodeBlock { code, .. } => {
                let c = code.as_str();
                if st <= byte_len(c) {
                    match char_index_of_byte(c, st) {
                        Some(ci) => Some(insert_chars(c, ci, t.as_str())),
                        None => None,
                    }
                } else {
                    None
                }
            },
            _ => { return Err(EditError::UnsupportedOperation); },
        };
        match code_outcome {
            Some(nc) => {
                set_code(document, i, nc);
                Ok(())
            },
            None => Err(EditError::InvalidRange),
        }
    }
}

// ---------------------------------------------------------------------------
// Merging adjacent nodes
// ---------------------------------------------------------------------------

/// The document after merging the node at `second` into the one at
/// `first`: paragraphs concatenate their children, code blocks of the same
/// language join their code with a newline.
pub open spec fn merge_result(d: DocumentV, first: int, second: int) -> Result<DocumentV, EditError> {
    if first < 0 || second < 0 || first >= d.nodes.len() || second >= d.nodes.len() {
        Err(EditError::IndexOutOfBounds)
    } else if second != first + 1 {
        Err(EditError::InvalidRange)
    } else {
        match (d.nodes[first], d.nodes[second]) {
            (NodeV::Paragraph { children: a }, NodeV::Paragraph { children: b }) =>
                Ok(with_nodes(d, d.nodes.update(first, NodeV::Paragraph { children: a + b }).remove(second))),
            (NodeV::CodeBlock { language: la, code: a }, NodeV::CodeBlock { language: lb, code: b }) =>
                if la == lb {
                    Ok(with_nodes(d, d.nodes.update(first, NodeV::CodeBlock { language: la, code: a + seq!['\n'] + b }).remove(second)))
                } else {
                    Err(EditError::UnsupportedOperation)
                },
            _ => Err(EditError::UnsupportedOperation),
        }
    }
}

/// The node at `first` once undo has cut the merged part off again; `None`
/// when the pair cannot be split.
pub open spec fn unmerged(n: NodeV, saved: NodeV) -> Option<NodeV> {
    match (n, saved) {
        (NodeV::Paragraph { children }, NodeV::Paragraph { children: b }) =>
            Some(NodeV::Paragraph { children: children.take(children.len() - b.len()) }),
        (NodeV::CodeBlock { language, code }, NodeV::CodeBlock { code: b, .. }) =>
            Some(NodeV::CodeBlock { language, code: code.take(char_at_byte(code, blen(code) - blen(b) - 1)) }),
        _ => None,
    }
}

/// Command to merge a node into the node just before it
pub struct MergeNodesCommand {
    first_index: usize,
    second_index: usize,
    original_second_node: Option<Node>,
}

impl MergeNodesCommand {
    /// The index of the node that receives the content.
    pub closed spec fn first(&self) -> usize {
        self.first_index
    }

    /// The index of the node merged into the first.
    pub closed spec fn second(&self) -> usize {
        self.second_index
    }

    /// The second node as it was before the last execution, if any.
    pub closed spec fn saved(&self) -> Option<NodeV> {
        match self.original_second_node {
            Some(n) => Some(n@),
            None => None,
        }
    }

    /// Creates a command that merges the node at `second_index` into the one at `first_index`
    pub fn new(first_index: usize, second_index: usize) -> (r: Self)
        ensures r.first() == first_index, r.second() == second_index, r.saved() is None,
    {
        MergeNodesCommand { first_index, second_index, original_second_node: None }
    }
}

/// Replaces the node at `i`.
pub(crate) fn put_node(document: &mut Document, i: usize, n: Node)
    requires i < old(document).nodes.len(),
    ensures
        final(document)@ == with_node_at(old(document)@, i as int, n@),
        final(document).nodes.len() == old(document).nodes.len(),
{
    proof { lemma_nodes_update(document.nodes@, i as int, n); }
    document.nodes.set(i, n);
}

impl Command for MergeNodesCommand {
    open spec fn can_execute(&self, document: &Document) -> bool {
        true
    }

    /// Undo puts the saved node back at a valid index and finds enough
    /// merged content to cut off, ending where a character starts.
    open spec fn can_undo(&self, document: &Document) -> bool {
        self.saved() is Some && self.first() < document.nodes.len() ==> {
            &&& self.second() <= document.nodes.len()
            &&& {
                let n = document@.nodes.insert(self.second() as int, self.saved()->0)[self.first() as int];
                match (n, self.saved()->0) {
                    (NodeV::Paragraph { children }, NodeV::Paragraph { children: b }) => children.len() >= b.len(),
                    (NodeV::CodeBlock { code, .. }, NodeV::CodeBlock { code: b, .. }) =>
                        blen(code) >= blen(b) + 1 && is_boundary(code, blen(code) - blen(b) - 1),
                    _ => true,
                }
            }
        }
    }

    /// Merges the second node into the first and removes it, keeping it for
    /// undo. The second node is kept even when the kinds do not match.
    fn execute(&mut self, document: &mut Document) -> (r: Result<(), EditError>)
        ensures
            final(self).first() == old(self).first(),
            final(self).second() == old(self).second(),
            old(self).first() < old(document).nodes.len() && old(self).second() < old(document).nodes.len()
                && old(self).second() == old(self).first() + 1
                ==> final(self).saved() == Some(old(document)@.nodes[old(self).second() as int]),
            !(old(self).first() < old(document).nodes.len() && old(self).second() < old(document).nodes.len()
                && old(self).second() == old(self).first() + 1)
                ==> final(self).saved() == old(self).saved(),
            match merge_result(old(document)@, old(self).first() as int, old(self).second() as int) {
                Ok(d) => r is Ok && final(document)@ == d,
                Err(err) => r == Err::<(), EditError>(err) && final(document)@ == old(document)@,
            },
    {
        proof { lemma_nodes_seq_v_index(document.nodes@); }
        let len = document.nodes.len();
        if self.first_index >= len || self.second_index >= len {
            return Err(EditError::IndexOutOfBounds);
        }
        if self.second_index != self.first_index + 1 {
            return Err(EditError::InvalidRange);
        }
        let f = self.first_index;
        let sidx = self.second_index;
        self.original_second_node = Some(copy_node(&document.nodes[sidx]));
        let merged: Option<Node> = match (&document.nodes[f], &document.nodes[sidx]) {
            (Node::Paragraph { children: a }, Node::Paragraph { children: b }) => {
                let mut c = copy_inlines(a);
                let mut k: usize = 0;
                proof {
                    lemma_inlines_seq_v_index(b@);
                    assert(inlines_seq_v(b@).take(0) =~= Seq::<InlineV>::empty());
                    assert(inlines_seq_v(a@) + Seq::<InlineV>::empty() =~= inlines_seq_v(a@));
                }
                while k < b.len()
                    invariant
                        k <= b.len(),
                        inlines_seq_v(c@) == inlines_seq_v(a@) + inlines_seq_v(b@).take(k as int),
                        inlines_seq_v(b@).len() == b.len(),
                        forall|j: int| 0 <= j < b.len() ==> #[trigger] inlines_seq_v(b@)[j] == inline_v(&b@[j]),
                    decreases b.len() - k,
                {
                    let x = copy_inline(&b[k]);
                    proof {
                        lemma_inlines_push(c@, x);
                        assert(inlines_seq_v(a@) + inlines_seq_v(b@).take(k + 1)
                            =~= (inlines_seq_v(a@) + inlines_seq_v(b@).take(k as int)).push(x@));
                    }
                    c.push(x);
                    k = k + 1;
                }
                proof { assert(inlines_seq_v(b@).take(k as int) =~= inlines_seq_v(b@)); }
                let m = Node::Paragraph { children: c };
                assert(m@ == NodeV::Paragraph { children: inlines_seq_v(a@) + inlines_seq_v(b@) });
                Some(m)
            },
            (Node::CodeBlock { language: la, code: a }, Node::CodeBlock { language: lb, code: b }) => {
                if *la != *lb {
                    return Err(EditError::UnsupportedOperation);
                }
                let nl = "\n";
                proof { reveal_strlit("\n"); }
                let joined = concat(concat(a.as_str(), nl).as_str(), b.as_str());
                proof { assert(joined@ =~= a@ + seq!['\n'] + b@); }
                let m = Node::CodeBlock { language: la.clone(), code: joined };
                assert(m@ == NodeV::CodeBlock { language: la@, code: a@ + seq!['\n'] + b@ });
                Some(m)
            },
            _ => None,
        };
        match merged {
            Some(m) => {
                put_node(document, f, m);
                proof { lemma_nodes_remove(document.nodes@, sidx as int); }
                document.nodes.remove(sidx);
                Ok(())
            },
            None => Err(EditError::UnsupportedOperation),
        }
    }

    /// Puts the saved node back at its index and cuts its content off the
    /// end of the first node. When the two kinds do not match, the node
    /// stays inserted and the error is reported.
    fn undo(&mut self, document: &mut Document) -> (r: Result<(), EditError>)
        ensures
            *final(self) == *old(self),
            match old(self).saved() {
                None => (r matches Err(EditError::OperationFailed)) && final(document)@ == old(document)@,
                Some(n) => if old(self).first() >= old(document).nodes.len() {
                    (r matches Err(EditError::IndexOutOfBounds)) && final(document)@ == old(document)@
                } else {
                    let d2 = with_nodes(old(document)@, old(document)@.nodes.insert(old(self).second() as int, n));
                    match unmerged(d2.nodes[old(self).first() as int], n) {
                        Some(m) => r is Ok && final(document)@ == with_node_at(d2, old(self).first() as int, m),
                        None => (r matches Err(EditError::UnsupportedOperation)) && final(document)@ == d2,
                    }
                },
            },
    {
        let saved = match &self.original_second_node {
            Some(n) => n,
            None => { return Err(EditError::OperationFailed); },
        };
        if self.first_index >= document.nodes.len() {
            return Err(EditError::IndexOutOfBounds);
        }
        let f = self.first_index;
        let c = copy_node(saved);
        proof { lemma_nodes_insert(document.nodes@, self.second_index as int, c); }
        document.nodes.insert(self.second_index, c);
        proof { lemma_nodes_seq_v_index(document.nodes@); }
        let cut: Option<Node> = match (&document.nodes[f], saved) {
            (Node::Paragraph { children }, Node::Paragraph { children: b }) => {
                proof { lemma_inlines_seq_v_index(children@); lemma_inlines_seq_v_index(b@); }
                let keep = copy_inline_range(children, 0, children.len() - b.len());
                proof {
                    assert(inlines_seq_v(children@).subrange(0, (children.len() - b.len()) as int)
                        =~= inlines_seq_v(children@).take(inlines_seq_v(children@).len() - inlines_seq_v(b@).len()));
                }
                Some(Node::Paragraph { children: keep })
            },
            (Node::CodeBlock { language, code }, Node::CodeBlock { code: b, .. }) => {
                let cs = code.as_str();
                let first_len = byte_len(cs) - byte_len(b.as_str()) - 1;
                match char_index_of_byte(cs, first_len) {
                    Some(ci) => Some(Node::CodeBlock { language: language.clone(), code: sub_chars(cs, 0, ci) }),
                    None => None,
                }
            },
            _ => None,
        };
        match cut {
            Some(m) => {
                put_node(document, f, m);
                Ok(())
            },
            None => Err(EditError::UnsupportedOperation),
        }
    }
}

} // verus!
