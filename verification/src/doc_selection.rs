//! Selection helpers on `Document`.
use vstd::prelude::*;
use crate::inline::{InlineNode, InlineV, inlines_seq_v, lemma_inlines_seq_v_index};
use crate::node::{Node, NodeV, lemma_nodes_seq_v_index};
use crate::selection::{Position, Selection, SelectionV, pos_v, selection_v};
use crate::document::{Document, DocumentV, inlines_len, start_of, lemma_start_of_step};
use crate::text::{blen, is_boundary, char_at_byte, byte_len, char_index_of_byte, sub_chars};

verus! {

/// How far a selection of the whole node reaches: the length of a
/// paragraph's inline content, the byte length of a code block, else zero.
pub open spec fn node_extent(n: NodeV) -> int {
    match n {
        NodeV::Paragraph { children } => inlines_len(children),
        NodeV::CodeBlock { code, .. } => blen(code),
        _ => 0,
    }
}

/// Length of a run of inline nodes, computed at run time.
fn inlines_length(children: &Vec<InlineNode>) -> (r: u128)
    ensures r == inlines_len(inlines_seq_v(children@)),
{
    let ghost s = inlines_seq_v(children@);
    proof {
        lemma_inlines_seq_v_index(children@);
        assert(s.take(0) =~= Seq::<InlineV>::empty());
    }
    let mut i: usize = 0;
    let mut total: u128 = 0;
    while i < children.len()
        invariant
            s == inlines_seq_v(children@),
            s.len() == children.len(),
            i <= children.len(),
            total == start_of(s, i as int),
            total <= 0x1_0000_0000_0000_0000u128 * (i as u128),
            forall|j: int| 0 <= j < s.len() ==> #[trigger] s[j] == crate::inline::inline_v(&children@[j]),
        decreases children.len() - i,
    {
        let w: usize = match &children[i] {
            InlineNode::Text(t) => byte_len(t.text.as_str()),
            _ => 1,
        };
        proof { lemma_start_of_step(s, i as int); }
        total = total + (w as u128);
        i = i + 1;
    }
    proof { assert(s.take(i as int) =~= s); }
    total
}

/// The extent of a node, computed at run time.
fn node_extent_of(n: &Node) -> (r: u128)
    ensures r == node_extent(n@),
{
    match n {
        Node::Paragraph { children } => inlines_length(children),
        Node::CodeBlock { code, .. } => byte_len(code.as_str()) as u128,
        _ => 0,
    }
}

/// The part of the text node at `j` that lies in the byte range `[s, e)`,
/// as byte offsets into its text.
pub open spec fn piece_bounds(ch: Seq<InlineV>, j: int, s: int, e: int) -> (int, int) {
    let start = start_of(ch, j);
    let len = blen(ch[j]->text);
    (if s > start { s - start } else { 0 }, if e - start < len { e - start } else { len })
}

/// Whether the text node at `j` contributes to the selection `[s, e)`.
pub open spec fn piece_taken(ch: Seq<InlineV>, j: int, s: int, e: int) -> bool {
    &&& ch[j] is Text
    &&& s < start_of(ch, j) + blen(ch[j]->text)
    &&& e > start_of(ch, j)
    &&& piece_bounds(ch, j, s, e).0 < piece_bounds(ch, j, s, e).1
}

/// The characters the node at `j` contributes to the selection.
pub open spec fn piece(ch: Seq<InlineV>, j: int, s: int, e: int) -> Seq<char> {
    if piece_taken(ch, j, s, e) {
        let text = ch[j]->text;
        text.subrange(char_at_byte(text, piece_bounds(ch, j, s, e).0), char_at_byte(text, piece_bounds(ch, j, s, e).1))
    } else {
        Seq::empty()
    }
}

/// The selected characters of the first `k` inline nodes.
pub open spec fn selected_text(ch: Seq<InlineV>, s: int, e: int, k: int) -> Seq<char>
    decreases k,
{
    if k <= 0 {
        Seq::empty()
    } else {
        selected_text(ch, s, e, k - 1) + piece(ch, k - 1, s, e)
    }
}

/// Every piece of a selection starts and ends where characters start.
pub open spec fn pieces_ok(ch: Seq<InlineV>, s: int, e: int) -> bool {
    forall|j: int| 0 <= j < ch.len() && #[trigger] piece_taken(ch, j, s, e) ==> {
        &&& is_boundary(ch[j]->text, piece_bounds(ch, j, s, e).0)
        &&& is_boundary(ch[j]->text, piece_bounds(ch, j, s, e).1)
    }
}

/// What `get_selected_text` returns for a selection within one node.
pub open spec fn node_selected_text(n: NodeV, s: int, e: int) -> Option<Seq<char>> {
    match n {
        NodeV::Paragraph { children } => Some(selected_text(children, s, e, children.len() as int)),
        NodeV::CodeBlock { code, .. } => if s < blen(code) && e <= blen(code) {
            Some(code.subrange(char_at_byte(code, s), char_at_byte(code, e)))
        } else {
            None
        },
        _ => None,
    }
}

/// A selection inside one node can be read without cutting a character.
pub open spec fn node_selection_ok(n: NodeV, s: int, e: int) -> bool {
    match n {
        NodeV::Paragraph { children } => pieces_ok(children, s, e),
        NodeV::CodeBlock { code, .. } => (s < blen(code) && e <= blen(code)) ==> {
            &&& s <= e
            &&& is_boundary(code, s)
            &&& is_boundary(code, e)
        },
        _ => true,
    }
}

pub(crate) fn paragraph_selected_text(children: &Vec<InlineNode>, s: usize, e: usize) -> (r: String)
    requires pieces_ok(inlines_seq_v(children@), s as int, e as int),
    ensures r@ == selected_text(inlines_seq_v(children@), s as int, e as int, children.len() as int),
{
    let ghost ch = inlines_seq_v(children@);
    proof {
        lemma_inlines_seq_v_index(children@);
        assert(ch.take(0) =~= Seq::<InlineV>::empty());
    }
    let mut result = String::new();
    let mut i: usize = 0;
    let mut cur: u128 = 0;
    while i < children.len()
        invariant
            ch == inlines_seq_v(children@),
            ch.len() == children.len(),
            pieces_ok(ch, s as int, e as int),
            i <= children.len(),
            cur == start_of(ch, i as int),
            cur <= 0x1_0000_0000_0000_0000u128 * (i as u128),
            result@ == selected_text(ch, s as int, e as int, i as int),
            forall|j: int| 0 <= j < ch.len() ==> #[trigger] ch[j] == crate::inline::inline_v(&children@[j]),
        decreases children.len() - i,
    {
        proof { lemma_start_of_step(ch, i as int); }
        match &children[i] {
            InlineNode::Text(t) => {
                let text = t.text.as_str();
                let len = byte_len(text);
                let next = cur + (len as u128);
                if (s as u128) < next && (e as u128) > cur {
                    let a: u128 = if (s as u128) > cur { (s as u128) - cur } else { 0 };
                    let b: u128 = if (e as u128) - cur < (len as u128) { (e as u128) - cur } else { len as u128 };
                    if a < b {
                        let ca = char_index_of_byte(text, a as usize);
                        let cb = char_index_of_byte(text, b as usize);
                        proof { assert(piece_taken(ch, i as int, s as int, e as int)); }
                        match (ca, cb) {
                            (Some(ca), Some(cb)) => {
                                proof {
                                    if ca > cb {
                                        crate::text::lemma_blen_take_mono(text@, cb as int, ca as int);
                                    }
                                }
                                let p = sub_chars(text, ca, cb);
                                result.append(p.as_str());
                            },
                            _ => {},
                        }
                    }
                }
                cur = next;
            },
            _ => {
                cur = cur + 1;
            },
        }
        i = i + 1;
    }
    result
}

impl Document {
    /// Selects everything: from offset 0 of the first node to the extent of
    /// the last node. Returns false, and changes nothing, on an empty document.
    pub fn select_all(&mut self) -> (r: bool)
        requires
            old(self).nodes.len() > 0 ==> node_extent(old(self)@.nodes.last()) <= usize::MAX,
        ensures
            r == (old(self).nodes.len() > 0),
            r ==> final(self)@ == (DocumentV {
                selection: Some(selection_v(
                    pos_v(0, 0),
                    pos_v((old(self).nodes.len() - 1) as usize, node_extent(old(self)@.nodes.last()) as usize),
                )),
                ..old(self)@
            }),
            !r ==> final(self)@ == old(self)@,
    {
        if self.nodes.len() == 0 {
            return false;
        }
        let last = self.nodes.len() - 1;
        proof { lemma_nodes_seq_v_index(self.nodes@); }
        let end_offset = node_extent_of(&self.nodes[last]) as usize;
        let start = Position::at_node(0, 0);
        let end = Position::at_node(last, end_offset);
        self.selection = Some(Selection::new(start, end));
        true
    }

    /// Selects the whole node at `node_index`. Returns false, and changes
    /// nothing, when the index is out of range.
    pub fn select_node(&mut self, node_index: usize) -> (r: bool)
        requires
            node_index < old(self).nodes.len() ==> node_extent(old(self)@.nodes[node_index as int]) <= usize::MAX,
        ensures
            r == (node_index < old(self).nodes.len()),
            r ==> final(self)@ == (DocumentV {
                selection: Some(selection_v(
                    pos_v(node_index, 0),
                    pos_v(node_index, node_extent(old(self)@.nodes[node_index as int]) as usize),
                )),
                ..old(self)@
            }),
            !r ==> final(self)@ == old(self)@,
    {
        if node_index >= self.nodes.len() {
            return false;
        }
        proof { lemma_nodes_seq_v_index(self.nodes@); }
        let end_offset = node_extent_of(&self.nodes[node_index]) as usize;
        let start = Position::at_node(node_index, 0);
        let end = Position::at_node(node_index, end_offset);
        self.selection = Some(Selection::new(start, end));
        true
    }

    /// Selects the nodes from `start_index` through `end_index`. Returns false,
    /// and changes nothing, when an index is out of range or the range is
    /// reversed.
    pub fn select_node_range(&mut self, start_index: usize, end_index: usize) -> (r: bool)
        requires
            start_index <= end_index < old(self).nodes.len() ==> node_extent(old(self)@.nodes[end_index as int]) <= usize::MAX,
        ensures
            r == (start_index < old(self).nodes.len() && end_index < old(self).nodes.len() && start_index <= end_index),
            r ==> final(self)@ == (DocumentV {
                selection: Some(selection_v(
                    pos_v(start_index, 0),
                    pos_v(end_index, node_extent(old(self)@.nodes[end_index as int]) as usize),
                )),
                ..old(self)@
            }),
            !r ==> final(self)@ == old(self)@,
    {
        if start_index >= self.nodes.len() || end_index >= self.nodes.len() || start_index > end_index {
            return false;
        }
        proof { lemma_nodes_seq_v_index(self.nodes@); }
        let end_offset = node_extent_of(&self.nodes[end_index]) as usize;
        let start = Position::at_node(start_index, 0);
        let end = Position::at_node(end_index, end_offset);
        self.selection = Some(Selection::new(start, end));
        true
    }

    /// Selects bytes `start_offset..end_offset` within one paragraph or code
    /// block. Returns false, and changes nothing, when the index is out of
    /// range, the offsets are reversed or exceed the node, or the node is of
    /// another kind.
    pub fn select_text_range(&mut self, node_index: usize, start_offset: usize, end_offset: usize) -> (r: bool)
        ensures
            r == (node_index < old(self).nodes.len() && start_offset <= end_offset && {
                let n = old(self)@.nodes[node_index as int];
                (n is Paragraph || n is CodeBlock) && end_offset <= node_extent(n)
            }),
            r ==> final(self)@ == (DocumentV {
                selection: Some(selection_v(pos_v(node_index, start_offset), pos_v(node_index, end_offset))),
                ..old(self)@
            }),
            !r ==> final(self)@ == old(self)@,
    {
        if node_index >= self.nodes.len() || start_offset > end_offset {
            return false;
        }
        proof { lemma_nodes_seq_v_index(self.nodes@); }
        let ok = match &self.nodes[node_index] {
            Node::Paragraph { .. } | Node::CodeBlock { .. } => (end_offset as u128) <= node_extent_of(&self.nodes[node_index]),
            _ => false,
        };
        if !ok {
            return false;
        }
        let start = Position::at_node(node_index, start_offset);
        let end = Position::at_node(node_index, end_offset);
        self.selection = Some(Selection::new(start, end));
        true
    }

    /// Selects from one node and offset to another. Returns false, and
    /// changes nothing, when a node index is out of range.
    pub fn select_range(&mut self, start_node: usize, start_offset: usize, end_node: usize, end_offset: usize) -> (r: bool)
        ensures
            r == (start_node < old(self).nodes.len() && end_node < old(self).nodes.len()),
            r ==> final(self)@ == (DocumentV {
                selection: Some(selection_v(pos_v(start_node, start_offset), pos_v(end_node, end_offset))),
                ..old(self)@
            }),
            !r ==> final(self)@ == old(self)@,
    {
        if start_node >= self.nodes.len() || end_node >= self.nodes.len() {
            return false;
        }
        let start = Position::at_node(start_node, start_offset);
        let end = Position::at_node(end_node, end_offset);
        self.selection = Some(Selection::new(start, end));
        true
    }

    /// Collapses the selection to its start. Returns false when there is no
    /// selection.
    pub fn collapse_selection_to_start(&mut self) -> (r: bool)
        ensures
            r == old(self).selection.is_some(),
            r ==> final(self)@ == (DocumentV {
                selection: Some(SelectionV {
                    start: old(self).selection->0.start@,
                    end: old(self).selection->0.start@,
                    is_collapsed: true,
                }),
                ..old(self)@
            }),
            !r ==> final(self)@ == old(self)@,
    {
        match &self.selection {
            Some(sel) => {
                let start = sel.start.clone();
                self.selection = Some(Selection::collapsed(start));
                true
            },
            None => false,
        }
    }

    /// Collapses the selection to its end. Returns false when there is no
    /// selection.
    pub fn collapse_selection_to_end(&mut self) -> (r: bool)
        ensures
            r == old(self).selection.is_some(),
            r ==> final(self)@ == (DocumentV {
                selection: Some(SelectionV {
                    start: old(self).selection->0.end@,
                    end: old(self).selection->0.end@,
                    is_collapsed: true,
                }),
                ..old(self)@
            }),
            !r ==> final(self)@ == old(self)@,
    {
        match &self.selection {
            Some(sel) => {
                let end = sel.end.clone();
                self.selection = Some(Selection::collapsed(end));
                true
            },
            None => false,
        }
    }

    /// Clears the current selection
    pub fn clear_selection(&mut self)
        ensures final(self)@ == (DocumentV { selection: None, ..old(self)@ }),
    {
        self.selection = None;
    }

    /// Whether there is a selection
    pub fn has_selection(&self) -> (r: bool)
        ensures r == self.selection.is_some(),
    {
        self.selection.is_some()
    }

    /// Whether the selection starts and ends in different top-level nodes
    pub fn has_multi_node_selection(&self) -> (r: bool)
        requires
            self.selection.is_some() ==> self.selection->0.start.path.len() > 0 && self.selection->0.end.path.len() > 0,
        ensures
            r == (self.selection.is_some()
                && self.selection->0.start.path@[0] != self.selection->0.end.path@[0]),
    {
        match &self.selection {
            Some(sel) => sel.start.path[0] != sel.end.path[0],
            None => false,
        }
    }

    /// The selected text, when the selection lies within one paragraph or
    /// code block; `None` for no selection, a selection across nodes, another
    /// kind of node, or a code block range that runs past its end.
    pub fn get_selected_text(&self) -> (r: Option<String>)
        requires
            self.selection.is_some() ==> {
                let sel = self.selection->0;
                &&& sel.start.path.len() > 0
                &&& sel.end.path.len() > 0
                &&& sel.start.path@[0] == sel.end.path@[0] ==> {
                    &&& sel.start.path@[0] < self.nodes.len()
                    &&& node_selection_ok(self@.nodes[sel.start.path@[0] as int], sel.start.offset as int, sel.end.offset as int)
                }
            },
        ensures
            match self.selection {
                None => r is None,
                Some(sel) => if sel.start.path@[0] == sel.end.path@[0] {
                    match node_selected_text(self@.nodes[sel.start.path@[0] as int], sel.start.offset as int, sel.end.offset as int) {
                        Some(t) => r is Some && r->0@ == t,
                        None => r is None,
                    }
                } else {
                    r is None
                },
            },
    {
        let sel = match &self.selection {
            Some(sel) => sel,
            None => { return None; },
        };
        if sel.start.path[0] != sel.end.path[0] {
            return None;
        }
        let idx = sel.start.path[0];
        let s = sel.start.offset;
        let e = sel.end.offset;
        proof { lemma_nodes_seq_v_index(self.nodes@); }
        match &self.nodes[idx] {
            Node::Paragraph { children } => {
                proof { lemma_inlines_seq_v_index(children@); }
                Some(paragraph_selected_text(children, s, e))
            },
            Node::CodeBlock { code, .. } => {
                let text = code.as_str();
                let len = byte_len(text);
                if s < len && e <= len {
                    let ca = char_index_of_byte(text, s);
                    let cb = char_index_of_byte(text, e);
                    match (ca, cb) {
                        (Some(ca), Some(cb)) => {
                            proof {
                                if ca > cb {
                                    crate::text::lemma_blen_take_mono(text@, cb as int, ca as int);
                                }
                            }
                            Some(sub_chars(text, ca, cb))
                        },
                        _ => None,
                    }
                } else {
                    None
                }
            },
            _ => None,
        }
    }
}

} // verus!
