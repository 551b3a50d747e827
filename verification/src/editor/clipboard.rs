//! Cutting and copying the selected content.
use vstd::prelude::*;
use crate::document::{Document, DocumentV, start_of, lemma_start_of_step, lemma_nodes_update, lemma_nodes_insert};
use crate::error::EditError;
use crate::inline::{InlineNode, InlineV, TextNode, inlines_seq_v, inline_v, copy_inline, lemma_inlines_seq_v_index, lemma_inlines_push};
use crate::node::{Node, NodeV, node_v, nodes_seq_v, copy_node, copy_nodes, lemma_nodes_seq_v_index, lemma_nodes_seq_v_push};
use crate::editor::text_commands::set_code;
use crate::editor::edit_commands::put_node;
use crate::selection::{Position, PositionV, Selection, SelectionV, pos_v, opt_selection_v};
use crate::text::{blen, is_boundary, char_at_byte, byte_len, char_index_of_byte, sub_chars, remove_chars, lemma_blen_take_mono};
use crate::doc_selection::{piece_taken, piece, pieces_ok};
use crate::editor::command::{Command};

verus! {

/// The selection collapsed to `p`.
pub open spec fn collapsed_v(p: PositionV) -> SelectionV {
    SelectionV { start: p, end: p, is_collapsed: true }
}

/// What cutting the bytes `[s, e)` takes from child `j`: the selected part
/// of a text run, or a whole other node that lies inside the range.
pub open spec fn cut_piece(ch: Seq<InlineV>, j: int, s: int, e: int) -> Seq<InlineV> {
    if ch[j] is Text {
        if piece_taken(ch, j, s, e) {
            seq![InlineV::Text { text: piece(ch, j, s, e), formatting: ch[j]->formatting }]
        } else {
            Seq::empty()
        }
    } else if start_of(ch, j) >= s && start_of(ch, j) + 1 <= e {
        seq![ch[j]]
    } else {
        Seq::empty()
    }
}

/// What cutting takes from the first `k` children.
pub open spec fn cut_run(ch: Seq<InlineV>, s: int, e: int, k: int) -> Seq<InlineV>
    decreases k,
{
    if k <= 0 { Seq::empty() } else { cut_run(ch, s, e, k - 1) + cut_piece(ch, k - 1, s, e) }
}

/// What cutting the bytes `[s, e)` leaves of child `j`: a text run outside
/// the range whole, else its parts before and after the range as separate
/// runs; another node when it lies outside the range.
pub open spec fn keep_piece(ch: Seq<InlineV>, j: int, s: int, e: int) -> Seq<InlineV> {
    let cur = start_of(ch, j);
    if ch[j] is Text {
        let text = ch[j]->text;
        let f = ch[j]->formatting;
        let next = cur + blen(text);
        if next <= s || cur >= e {
            seq![ch[j]]
        } else {
            (if cur < s { seq![InlineV::Text { text: text.take(char_at_byte(text, s - cur)), formatting: f }] } else { Seq::empty() })
                + (if next > e { seq![InlineV::Text { text: text.skip(char_at_byte(text, e - cur)), formatting: f }] } else { Seq::empty() })
        }
    } else if cur + 1 <= s || cur >= e {
        seq![ch[j]]
    } else {
        Seq::empty()
    }
}

/// What cutting leaves of the first `k` children.
pub open spec fn keep_run(ch: Seq<InlineV>, s: int, e: int, k: int) -> Seq<InlineV>
    decreases k,
{
    if k <= 0 { Seq::empty() } else { keep_run(ch, s, e, k - 1) + keep_piece(ch, k - 1, s, e) }
}

/// Cutting `[s, e)` from the children cuts text only where characters start.
pub open spec fn cut_ok(ch: Seq<InlineV>, s: int, e: int) -> bool {
    &&& pieces_ok(ch, s, e)
    &&& forall|j: int| 0 <= j < ch.len() && #[trigger] ch[j] is Text ==> {
        let cur = start_of(ch, j);
        let next = cur + blen(ch[j]->text);
        !(next <= s || cur >= e) ==> {
            &&& cur < s ==> is_boundary(ch[j]->text, s - cur)
            &&& next > e ==> is_boundary(ch[j]->text, e - cur)
        }
    }
}

/// Where the node range of a cut across nodes ends (exclusive).
pub open spec fn cut_end(d: DocumentV, ei: int) -> int {
    if ei + 1 < d.nodes.len() { ei + 1 } else { d.nodes.len() as int }
}

/// The nodes a cut across nodes removes.
pub open spec fn cut_nodes(d: DocumentV, si: int, ei: int) -> Seq<NodeV> {
    if si <= ei && si < d.nodes.len() { d.nodes.subrange(si, cut_end(d, ei)) } else { Seq::empty() }
}

/// The nodes left after a cut across nodes.
pub open spec fn nodes_after_cut(d: DocumentV, si: int, ei: int) -> Seq<NodeV> {
    if si <= ei && si < d.nodes.len() { d.nodes.take(si) + d.nodes.skip(cut_end(d, ei)) } else { d.nodes }
}

/// The result and document of cutting the selection. Nothing happens
/// without a selection or with a collapsed one. A selection across nodes
/// removes the nodes from its first to its last (as far as they exist); one
/// within a paragraph, heading or code block removes the selected bytes.
pub open spec fn cut_effect(d: DocumentV) -> (Result<(), EditError>, DocumentV) {
    match d.selection {
        None => (Ok(()), d),
        Some(sel) => if sel.is_collapsed {
            (Ok(()), d)
        } else {
            let si = sel.start.path[0] as int;
            let ei = sel.end.path[0] as int;
            let s = sel.start.offset as int;
            let e = sel.end.offset as int;
            let dropped = DocumentV { selection: None, ..d };
            if si != ei {
                let rest = nodes_after_cut(d, si, ei);
                let sel2 = if si < rest.len() {
                    Some(collapsed_v(sel.start))
                } else if rest.len() > 0 {
                    Some(collapsed_v(pos_v((rest.len() - 1) as usize, 0)))
                } else {
                    None
                };
                (Ok(()), DocumentV { nodes: rest, selection: sel2, ..d })
            } else if si >= d.nodes.len() {
                (Err(EditError::IndexOutOfBounds), dropped)
            } else {
                let at = |n: NodeV| DocumentV { nodes: d.nodes.update(si, n), selection: Some(collapsed_v(sel.start)), ..d };
                match d.nodes[si] {
                    NodeV::Paragraph { children } =>
                        (Ok(()), at(NodeV::Paragraph { children: keep_run(children, s, e, children.len() as int) })),
                    NodeV::Heading { level, children } =>
                        (Ok(()), at(NodeV::Heading { level, children: keep_run(children, s, e, children.len() as int) })),
                    NodeV::CodeBlock { language, code } => if e > blen(code) || s > blen(code) || s >= e {
                        (Err(EditError::InvalidRange), dropped)
                    } else {
                        (Ok(()), at(NodeV::CodeBlock {
                            language,
                            code: code.take(char_at_byte(code, s)) + code.skip(char_at_byte(code, e)),
                        }))
                    },
                    _ => (Err(EditError::UnsupportedOperation), d),
                }
            }
        },
    }
}

/// What a successful cut of the selection takes out of the document.
pub open spec fn cut_taken(d: DocumentV) -> Seq<NodeV> {
    let sel = d.selection->0;
    let si = sel.start.path[0] as int;
    let ei = sel.end.path[0] as int;
    let s = sel.start.offset as int;
    let e = sel.end.offset as int;
    if si != ei {
        cut_nodes(d, si, ei)
    } else {
        match d.nodes[si] {
            NodeV::Paragraph { children } => seq![NodeV::Paragraph { children: cut_run(children, s, e, children.len() as int) }],
            NodeV::Heading { level, children } => seq![NodeV::Heading { level, children: cut_run(children, s, e, children.len() as int) }],
            NodeV::CodeBlock { language, code } =>
                seq![NodeV::CodeBlock { language, code: code.subrange(char_at_byte(code, s), char_at_byte(code, e)) }],
            _ => Seq::empty(),
        }
    }
}

/// A cut of the selection stays within what can be done without a
/// run-time fault: the positions have paths, and text is cut only where
/// characters start.
pub open spec fn cut_can_run(d: DocumentV) -> bool {
    match d.selection {
        None => true,
        Some(sel) => !sel.is_collapsed ==> {
            &&& sel.start.path.len() > 0
            &&& sel.end.path.len() > 0
            &&& {
                let si = sel.start.path[0] as int;
                let s = sel.start.offset as int;
                let e = sel.end.offset as int;
                si == sel.end.path[0] && si < d.nodes.len() ==> match d.nodes[si] {
                    NodeV::Paragraph { children } => cut_ok(children, s, e),
                    NodeV::Heading { children, .. } => cut_ok(children, s, e),
                    NodeV::CodeBlock { code, .. } => s < e <= blen(code) ==> is_boundary(code, s) && is_boundary(code, e),
                    _ => true,
                }
            }
        },
    }
}

/// The nodes after undo inserts each saved node back at its index (or at
/// the end when the document has become shorter), in order: the undo of a
/// cut that removed those nodes.
pub open spec fn reinserted(nodes: Seq<NodeV>, saved: Seq<(usize, NodeV)>, k: int) -> Seq<NodeV>
    decreases k,
{
    if k <= 0 || k > saved.len() {
        nodes
    } else {
        let prev = reinserted(nodes, saved, k - 1);
        let (i, n) = saved[k - 1];
        if i <= prev.len() { prev.insert(i as int, n) } else { prev.push(n) }
    }
}

/// The nodes after undo writes each saved node back at its index (or at
/// the end when the document has become shorter), in order.
pub open spec fn restore_saved(nodes: Seq<NodeV>, saved: Seq<(usize, NodeV)>, k: int) -> Seq<NodeV>
    decreases k,
{
    if k <= 0 || k > saved.len() {
        nodes
    } else {
        let prev = restore_saved(nodes, saved, k - 1);
        let (i, n) = saved[k - 1];
        if i < prev.len() { prev.update(i as int, n) } else { prev.push(n) }
    }
}

/// The parts of the children that lie in the bytes `[s, e)`: the selected
/// part of each text run, and each other node that lies wholly inside.
fn extract_selected_content(children: &Vec<InlineNode>, s: usize, e: usize) -> (r: Vec<InlineNode>)
    requires pieces_ok(inlines_seq_v(children@), s as int, e as int),
    ensures inlines_seq_v(r@) == cut_run(inlines_seq_v(children@), s as int, e as int, children.len() as int),
{
    let ghost ch = inlines_seq_v(children@);
    proof {
        lemma_inlines_seq_v_index(children@);
        assert(ch.take(0) =~= Seq::<InlineV>::empty());
    }
    let mut result: Vec<InlineNode> = Vec::new();
    let mut i: usize = 0;
    let mut cur: u128 = 0;
    while i < children.len()
        invariant
            ch == inlines_seq_v(children@),
            ch.len() == children.len(),
            pieces_ok(ch, s as int, e as int),
            i <= children.len(),
            cur == start_of(ch, i as int),
            cur <= 0x1_0000_0000_0000_0000u128 * (i as u128),
            inlines_seq_v(result@) == cut_run(ch, s as int, e as int, i as int),
            forall|j: int| 0 <= j < ch.len() ==> #[trigger] ch[j] == inline_v(&children@[j]),
        decreases children.len() - i,
    {
        proof { lemma_start_of_step(ch, i as int); }
        let ghost base = cut_run(ch, s as int, e as int, i as int);
        match &children[i] {
            InlineNode::Text(t) => {
                let text = t.text.as_str();
                let len = byte_len(text);
                let next = cur + (len as u128);
                let mut pushed = false;
                if cur < (e as u128) && next > (s as u128) {
                    let a: u128 = if (s as u128) > cur { (s as u128) - cur } else { 0 };
                    let b: u128 = if (e as u128) - cur < (len as u128) { (e as u128) - cur } else { len as u128 };
                    if a < b {
                        proof { assert(piece_taken(ch, i as int, s as int, e as int)); }
                        match (char_index_of_byte(text, a as usize), char_index_of_byte(text, b as usize)) {
                            (Some(ca), Some(cb)) => {
                                proof {
                                    if ca > cb {
                                        lemma_blen_take_mono(text@, cb as int, ca as int);
                                    }
                                }
                                let node = InlineNode::Text(TextNode { text: sub_chars(text, ca, cb), formatting: t.formatting });
                                proof {
                                    lemma_inlines_push(result@, node);
                                    assert(base + seq![node@] =~= base.push(node@));
                                }
                                result.push(node);
                                pushed = true;
                            },
                            _ => {},
                        }
                    }
                }
                if !pushed {
                    proof { assert(base + Seq::<InlineV>::empty() =~= base); }
                }
                cur = next;
            },
            _ => {
                if cur >= (s as u128) && cur + 1 <= (e as u128) {
                    let c = copy_inline(&children[i]);
                    proof {
                        lemma_inlines_push(result@, c);
                        assert(base + seq![c@] =~= base.push(c@));
                    }
                    result.push(c);
                } else {
                    proof { assert(base + Seq::<InlineV>::empty() =~= base); }
                }
                cur = cur + 1;
            },
        }
        i = i + 1;
    }
    result
}

fn keep_children(children: &Vec<InlineNode>, s: usize, e: usize) -> (r: Vec<InlineNode>)
    requires cut_ok(inlines_seq_v(children@), s as int, e as int),
    ensures inlines_seq_v(r@) == keep_run(inlines_seq_v(children@), s as int, e as int, children.len() as int),
{
    let ghost ch = inlines_seq_v(children@);
    proof {
        lemma_inlines_seq_v_index(children@);
        assert(ch.take(0) =~= Seq::<InlineV>::empty());
    }
    let mut result: Vec<InlineNode> = Vec::new();
    let mut i: usize = 0;
    let mut cur: u128 = 0;
    while i < children.len()
        invariant
            ch == inlines_seq_v(children@),
            ch.len() == children.len(),
            cut_ok(ch, s as int, e as int),
            i <= children.len(),
            cur == start_of(ch, i as int),
            cur <= 0x1_0000_0000_0000_0000u128 * (i as u128),
            inlines_seq_v(result@) == keep_run(ch, s as int, e as int, i as int),
            forall|j: int| 0 <= j < ch.len() ==> #[trigger] ch[j] == inline_v(&children@[j]),
        decreases children.len() - i,
    {
        proof { lemma_start_of_step(ch, i as int); }
        let ghost base = keep_run(ch, s as int, e as int, i as int);
        match &children[i] {
            InlineNode::Text(t) => {
                let text = t.text.as_str();
                let len = byte_len(text);
                let next = cur + (len as u128);
                if next <= (s as u128) || cur >= (e as u128) {
                    let c = copy_inline(&children[i]);
                    proof {
                        lemma_inlines_push(result@, c);
                        assert(base + seq![c@] =~= base.push(c@));
                    }
                    result.push(c);
                } else {
                    proof { assert(ch[i as int] is Text); }
                    let ghost mid = inlines_seq_v(result@);
                    if cur < (s as u128) {
                        match char_index_of_byte(text, ((s as u128) - cur) as usize) {
                            Some(k) => {
                                let node = InlineNode::Text(TextNode { text: sub_chars(text, 0, k), formatting: t.formatting });
                                proof {
                                    lemma_inlines_push(result@, node);
                                    assert(text@.subrange(0, k as int) =~= text@.take(k as int));
                                }
                                result.push(node);
                            },
                            None => {},
                        }
                    }
                    let ghost mid2 = inlines_seq_v(result@);
                    if next > (e as u128) {
                        match char_index_of_byte(text, ((e as u128) - cur) as usize) {
                            Some(k) => {
                                let n = text.unicode_len();
                                let node = InlineNode::Text(TextNode { text: sub_chars(text, k, n), formatting: t.formatting });
                                proof {
                                    lemma_inlines_push(result@, node);
                                    assert(text@.subrange(k as int, n as int) =~= text@.skip(k as int));
                                }
                                result.push(node);
                            },
                            None => {},
                        }
                    }
                    proof {
                        assert(inlines_seq_v(result@) =~= base + keep_piece(ch, i as int, s as int, e as int));
                    }
                }
                cur = next;
            },
            _ => {
                if cur + 1 <= (s as u128) || cur >= (e as u128) {
                    let c = copy_inline(&children[i]);
                    proof {
                        lemma_inlines_push(result@, c);
                        assert(base + seq![c@] =~= base.push(c@));
                    }
                    result.push(c);
                } else {
                    proof { assert(base + Seq::<InlineV>::empty() =~= base); }
                }
                cur = cur + 1;
            },
        }
        i = i + 1;
    }
    result
}

/// The saved `(index, node)` pairs as models.
pub open spec fn saves_v(s: Seq<(usize, Node)>) -> Seq<(usize, NodeV)> {
    s.map_values(|p: (usize, Node)| (p.0, p.1@))
}

/// The nodes from `si` up to `end` (exclusive), each with its index.
pub open spec fn range_saves(nodes: Seq<NodeV>, si: int, end: int) -> Seq<(usize, NodeV)> {
    Seq::new((end - si) as nat, |k: int| ((si + k) as usize, nodes[si + k]))
}

/// What executing a cut saves for undo: each node it removes or changes,
/// with its index.
pub open spec fn cut_saves(d: DocumentV) -> Seq<(usize, NodeV)> {
    match d.selection {
        None => Seq::empty(),
        Some(sel) => if sel.is_collapsed {
            Seq::empty()
        } else {
            let si = sel.start.path[0] as int;
            let ei = sel.end.path[0] as int;
            if si != ei {
                if si <= ei && si < d.nodes.len() { range_saves(d.nodes, si, cut_end(d, ei)) } else { Seq::empty() }
            } else if si >= d.nodes.len() {
                Seq::empty()
            } else {
                seq![(si as usize, d.nodes[si])]
            }
        },
    }
}

/// Whether executing the cut on `d` takes content out.
pub open spec fn cut_done(d: DocumentV) -> bool {
    &&& d.selection is Some
    &&& !d.selection->0.is_collapsed
    &&& cut_effect(d).0 is Ok
}

pub(crate) fn saved_range(nodes: &Vec<Node>, si: usize, end: usize) -> (r: Vec<(usize, Node)>)
    requires si <= end <= nodes.len(),
    ensures saves_v(r@) == range_saves(nodes_seq_v(nodes@), si as int, end as int),
{
    proof { lemma_nodes_seq_v_index(nodes@); }
    let mut r: Vec<(usize, Node)> = Vec::new();
    let mut i: usize = si;
    while i < end
        invariant
            si <= i <= end <= nodes.len(),
            nodes_seq_v(nodes@).len() == nodes.len(),
            forall|j: int| 0 <= j < nodes.len() ==> #[trigger] nodes_seq_v(nodes@)[j] == node_v(&nodes@[j]),
            saves_v(r@) == range_saves(nodes_seq_v(nodes@), si as int, i as int),
        decreases end - i,
    {
        let c = copy_node(&nodes[i]);
        let ghost before = r@;
        r.push((i, c));
        proof {
            assert(r@ =~= before.push((i, c)));
            assert(saves_v(r@) =~= saves_v(before).push((i, c@)));
            assert(range_saves(nodes_seq_v(nodes@), si as int, i + 1)
                =~= range_saves(nodes_seq_v(nodes@), si as int, i as int).push((i, nodes_seq_v(nodes@)[i as int])));
        }
        i = i + 1;
    }
    r
}

/// Command to cut the selected content, keeping what it removes for undo
pub struct CutSelectionCommand {
    original_selection: Option<Selection>,
    original_nodes: Vec<(usize, Node)>,
    cut_content: Vec<Node>,
    removed: bool,
}

impl CutSelectionCommand {
    /// The selection saved by the last cut, for undo.
    pub closed spec fn saved_selection(&self) -> Option<SelectionV> {
        opt_selection_v(self.original_selection)
    }

    /// The `(index, node)` pairs saved for undo, in the order they were saved.
    pub closed spec fn saved(&self) -> Seq<(usize, NodeV)> {
        saves_v(self.original_nodes@)
    }

    /// The content taken out by the last cut.
    pub closed spec fn cut(&self) -> Seq<NodeV> {
        nodes_seq_v(self.cut_content@)
    }

    /// Whether the last cut went across nodes, so that the saved nodes
    /// were removed rather than changed.
    pub closed spec fn removed(&self) -> bool {
        self.removed
    }

    /// Creates a cut command with nothing saved
    pub fn new() -> (r: Self)
        ensures r.saved_selection() is None, r.saved() == Seq::<(usize, NodeV)>::empty(), r.cut() == Seq::<NodeV>::empty(),
            !r.removed(),
    {
        let r = CutSelectionCommand { original_selection: None, original_nodes: Vec::new(), cut_content: Vec::new(), removed: false };
        proof {
            assert(saves_v(r.original_nodes@) =~= Seq::<(usize, NodeV)>::empty());
            assert(nodes_seq_v(r.cut_content@) =~= Seq::<NodeV>::empty());
        }
        r
    }

    /// Get the content that was cut
    pub fn cut_content(&self) -> (r: &[Node])
        ensures nodes_seq_v(r@) == self.cut(),
    {
        self.cut_content.as_slice()
    }

    fn cut_across(&mut self, document: &mut Document, sel: &Selection, si: usize, ei: usize)
        requires
            old(document).selection is None,
            !sel.is_collapsed,
            sel.start.path.len() > 0,
            sel.end.path.len() > 0,
            si == sel.start.path[0],
            ei == sel.end.path[0],
            si != ei,
        ensures
            final(document)@ == cut_effect(DocumentV { selection: Some(sel@), ..old(document)@ }).1,
            final(self).saved() == old(self).saved() + (if si <= ei && si < old(document).nodes.len() {
                range_saves(old(document)@.nodes, si as int, cut_end(old(document)@, ei as int))
            } else {
                Seq::empty()
            }),
            final(self).cut() == cut_nodes(old(document)@, si as int, ei as int),
            final(self).original_selection == old(self).original_selection,
            final(self).removed == old(self).removed,
    {
        proof { lemma_nodes_seq_v_index(document.nodes@); }
        let ghost d = document@;
        let len = document.nodes.len();
        if si <= ei && si < len {
            let end: usize = if ei < len { ei + 1 } else { len };
            let mut pairs = saved_range(&document.nodes, si, end);
            let ghost before = self.original_nodes@;
            self.original_nodes.append(&mut pairs);
            proof {
                assert(saves_v(self.original_nodes@) =~= saves_v(before) + range_saves(d.nodes, si as int, end as int));
            }
            let ghost all = document.nodes@;
            let mut taken = document.nodes.split_off(si);
            let mut tail = taken.split_off(end - si);
            document.nodes.append(&mut tail);
            proof {
                lemma_nodes_seq_v_index(all);
                lemma_nodes_seq_v_index(taken@);
                lemma_nodes_seq_v_index(document.nodes@);
                assert(nodes_seq_v(taken@) =~= d.nodes.subrange(si as int, end as int));
                assert(nodes_seq_v(document.nodes@) =~= d.nodes.take(si as int) + d.nodes.skip(end as int));
            }
            self.cut_content = taken;
        } else {
            self.cut_content = Vec::new();
            proof {
                assert(nodes_seq_v(self.cut_content@) =~= Seq::<NodeV>::empty());
                assert(self.original_nodes@ == old(self).original_nodes@);
            }
        }
        proof { lemma_nodes_seq_v_index(document.nodes@); }
        if si < document.nodes.len() {
            document.selection = Some(Selection::collapsed(sel.start.clone()));
        } else if document.nodes.len() > 0 {
            let last = document.nodes.len() - 1;
            document.selection = Some(Selection::collapsed(Position::at_node(last, 0)));
        }
    }
}

impl Command for CutSelectionCommand {
    /// The positions have paths, and text is cut only where characters start.
    open spec fn can_execute(&self, document: &Document) -> bool {
        cut_can_run(document@)
    }

    /// Undo only writes saved nodes back.
    open spec fn can_undo(&self, document: &Document) -> bool {
        true
    }

    /// Cuts the selection (see `cut_effect`), saving the selection and the
    /// nodes it removes or changes; the cut content is kept.
    fn execute(&mut self, document: &mut Document) -> (r: Result<(), EditError>)
        ensures
            r == cut_effect(old(document)@).0,
            final(document)@ == cut_effect(old(document)@).1,
            final(self).saved() == old(self).saved() + cut_saves(old(document)@),
            final(self).saved_selection() == (match old(document)@.selection {
                Some(sel) => if sel.is_collapsed {
                    old(self).saved_selection()
                } else if r == Err::<(), EditError>(EditError::UnsupportedOperation) {
                    None
                } else {
                    Some(sel)
                },
                None => old(self).saved_selection(),
            }),
            final(self).cut() == if cut_done(old(document)@) { cut_taken(old(document)@) } else { old(self).cut() },
            final(self).removed() == (match old(document)@.selection {
                Some(sel) => if sel.is_collapsed { old(self).removed() } else { sel.start.path[0] != sel.end.path[0] },
                None => old(self).removed(),
            }),
    {
        proof { lemma_nodes_seq_v_index(document.nodes@); }
        let ghost d = document@;
        let sel = match &document.selection {
            None => {
                proof { assert(self.original_nodes@ == old(self).original_nodes@); assert(cut_saves(d) =~= Seq::<(usize, NodeV)>::empty()); }
                return Ok(());
            },
            Some(sel) => {
                if sel.is_collapsed {
                    proof { assert(cut_saves(d) =~= Seq::<(usize, NodeV)>::empty()); }
                    return Ok(());
                }
                sel.clone()
            },
        };
        self.original_selection = Some(sel.clone());
        document.selection = None;
        let si = sel.start.path[0];
        let ei = sel.end.path[0];
        self.removed = si != ei;
        if si != ei {
            self.cut_across(document, &sel, si, ei);
            return Ok(());
        }
        if si >= document.nodes.len() {
            proof { assert(cut_saves(d) =~= Seq::<(usize, NodeV)>::empty()); assert(self.original_nodes@ == old(self).original_nodes@); }
            return Err(EditError::IndexOutOfBounds);
        }
        let saved_node = copy_node(&document.nodes[si]);
        let ghost before = self.original_nodes@;
        self.original_nodes.push((si, saved_node));
        proof {
            assert(saves_v(self.original_nodes@) =~= saves_v(before) + cut_saves(d));
        }
        let s = sel.start.offset;
        let e = sel.end.offset;
        let outcome: Option<(Node, Node)> = match &document.nodes[si] {
            Node::Paragraph { children } => {
                proof { lemma_inlines_seq_v_index(children@); }
                Some((Node::Paragraph { children: keep_children(children, s, e) },
                    Node::Paragraph { children: extract_selected_content(children, s, e) }))
            },
            Node::Heading { level, children } => {
                proof { lemma_inlines_seq_v_index(children@); }
                Some((Node::Heading { level: *level, children: keep_children(children, s, e) },
                    Node::Heading { level: *level, children: extract_selected_content(children, s, e) }))
            },
            _ => None,
        };
        match outcome {
            Some((kept, taken)) => {
                put_node(document, si, kept);
                self.cut_content = vec![taken];
                proof { lemma_nodes_seq_v_push(Seq::empty(), taken); assert(self.cut_content@ =~= Seq::empty().push(taken)); }
                document.selection = Some(Selection::collapsed(sel.start));
                return Ok(());
            },
            None => {},
        }
        let code_outcome: Option<(String, String)> = match &document.nodes[si] {
            Node::CodeBlock { code, .. } => {
                let c = code.as_str();
                let len = byte_len(c);
                if e > len || s > len || s >= e {
                    None
                } else {
                    match (char_index_of_byte(c, s), char_index_of_byte(c, e)) {
                        (Some(a), Some(b)) => {
                            proof {
                                if a > b {
                                    lemma_blen_take_mono(c@, b as int, a as int);
                                }
                            }
                            Some((sub_chars(c, a, b), remove_chars(c, a, b)))
                        },
                        _ => None,
                    }
                }
            },
            _ => {
                self.original_selection = None;
                document.selection = Some(sel);
                return Err(EditError::UnsupportedOperation);
            },
        };
        match code_outcome {
            Some((taken, rest)) => {
                let language = match &document.nodes[si] {
                    Node::CodeBlock { language, .. } => language.clone(),
                    _ => String::new(),
                };
                set_code(document, si, rest);
                let node = Node::CodeBlock { language, code: taken };
                self.cut_content = vec![node];
                proof { lemma_nodes_seq_v_push(Seq::empty(), node); assert(self.cut_content@ =~= Seq::empty().push(node)); }
                document.selection = Some(Selection::collapsed(sel.start));
                Ok(())
            },
            None => Err(EditError::InvalidRange),
        }
    }

    /// Puts each saved node back at its index (or at the end when the
    /// document has become shorter), in order, inserting it when the cut
    /// removed it and writing it over the node there otherwise, then
    /// restores the saved selection; the saved state and the cut content are
    /// cleared.
    fn undo(&mut self, document: &mut Document) -> (r: Result<(), EditError>)
        ensures
            r == Ok::<(), EditError>(()),
            final(document)@ == (DocumentV {
                nodes: if old(self).removed() {
                    reinserted(old(document)@.nodes, old(self).saved(), old(self).saved().len() as int)
                } else {
                    restore_saved(old(document)@.nodes, old(self).saved(), old(self).saved().len() as int)
                },
                selection: if old(self).saved_selection() is Some { old(self).saved_selection() } else { old(document)@.selection },
                ..old(document)@
            }),
            final(self).saved() == Seq::<(usize, NodeV)>::empty(),
            final(self).saved_selection() is None,
            final(self).cut() == Seq::<NodeV>::empty(),
            !final(self).removed(),
    {
        let mut saved: Vec<(usize, Node)> = Vec::new();
        std::mem::swap(&mut saved, &mut self.original_nodes);
        let ghost sv = saves_v(saved@);
        let ghost d = document@;
        let ins = self.removed;
        let mut k: usize = 0;
        while k < saved.len()
            invariant
                k <= saved.len(),
                sv == saves_v(saved@),
                sv.len() == saved.len(),
                document@ == (DocumentV {
                    nodes: if ins { reinserted(d.nodes, sv, k as int) } else { restore_saved(d.nodes, sv, k as int) },
                    ..d
                }),
            decreases saved.len() - k,
        {
            let idx = saved[k].0;
            let n = copy_node(&saved[k].1);
            proof {
                lemma_nodes_seq_v_index(document.nodes@);
                assert(sv[k as int] == (idx, n@));
            }
            let ghost prev = document.nodes@;
            if ins && idx <= document.nodes.len() {
                document.nodes.insert(idx, n);
                proof { lemma_nodes_insert(prev, idx as int, n); }
            } else if !ins && idx < document.nodes.len() {
                document.nodes.set(idx, n);
                proof { lemma_nodes_update(prev, idx as int, n); }
            } else {
                document.nodes.push(n);
                proof { lemma_nodes_seq_v_push(prev, n); }
            }
            k = k + 1;
        }
        self.removed = false;
        match self.original_selection.take() {
            Some(sel) => { document.selection = Some(sel); },
            None => {},
        }
        self.cut_content = Vec::new();
        proof {
            assert(saves_v(self.original_nodes@) =~= Seq::<(usize, NodeV)>::empty());
            assert(nodes_seq_v(self.cut_content@) =~= Seq::<NodeV>::empty());
        }
        Ok(())
    }
}

impl CutSelectionCommand {
    /// A copy of the content taken out by the last cut.
    pub(crate) fn content_copy(&self) -> (r: Vec<Node>)
        ensures nodes_seq_v(r@) == self.cut(),
    {
        copy_nodes(&self.cut_content)
    }
}

/// The selection a fresh cut command has saved after running on `d`.
pub open spec fn cut_saved_selection(d: DocumentV) -> Option<SelectionV> {
    if d.selection is Some && !d.selection->0.is_collapsed { d.selection } else { None }
}

/// Copying the selection stays within what can be done without a run-time
/// fault: the positions have paths, and text is taken only where characters
/// start.
pub open spec fn copy_can_run(d: DocumentV) -> bool {
    match d.selection {
        None => true,
        Some(sel) => {
            &&& sel.start.path.len() > 0
            &&& sel.end.path.len() > 0
            &&& {
                let si = sel.start.path[0] as int;
                si == sel.end.path[0] && si < d.nodes.len() ==> {
                    let a = sel.start.offset as int;
                    let b = sel.end.offset as int;
                    match d.nodes[si] {
                        NodeV::Paragraph { children } => pieces_ok(children, a, b),
                        NodeV::Heading { children, .. } => pieces_ok(children, a, b),
                        _ => true,
                    }
                }
            }
        },
    }
}

/// What copying the selection gives. A selection across nodes copies the
/// nodes from its first to its last (as far as they exist). Within a
/// paragraph or heading the selected byte range of its content is copied,
/// as a cut takes it; another node is copied whole.
pub open spec fn copied_content(d: DocumentV) -> Seq<NodeV> {
    match d.selection {
        None => Seq::empty(),
        Some(sel) => {
            let si = sel.start.path[0] as int;
            let ei = sel.end.path[0] as int;
            if si != ei {
                cut_nodes(d, si, ei)
            } else if si >= d.nodes.len() {
                Seq::empty()
            } else {
                let a = sel.start.offset as int;
                let b = sel.end.offset as int;
                match d.nodes[si] {
                    NodeV::Paragraph { children } =>
                        seq![NodeV::Paragraph { children: cut_run(children, a, b, children.len() as int) }],
                    NodeV::Heading { level, children } =>
                        seq![NodeV::Heading { level, children: cut_run(children, a, b, children.len() as int) }],
                    _ => seq![d.nodes[si]],
                }
            }
        },
    }
}

/// Command to copy the selected content
pub struct CopySelectionCommand {
    copied_nodes: Vec<Node>,
}

impl CopySelectionCommand {
    /// The nodes copied by the last execution.
    pub closed spec fn copied(&self) -> Seq<NodeV> {
        nodes_seq_v(self.copied_nodes@)
    }

    /// Creates a copy command with nothing copied
    pub fn new() -> (r: Self)
        ensures r.copied() == Seq::<NodeV>::empty(),
    {
        let r = CopySelectionCommand { copied_nodes: Vec::new() };
        proof { assert(nodes_seq_v(r.copied_nodes@) =~= Seq::<NodeV>::empty()); }
        r
    }

    /// Get the nodes that were copied
    pub fn get_copied_nodes(&self) -> (r: &[Node])
        ensures nodes_seq_v(r@) == self.copied(),
    {
        self.copied_nodes.as_slice()
    }

    /// A copy of the nodes that were copied.
    pub(crate) fn copied_copy(&self) -> (r: Vec<Node>)
        ensures nodes_seq_v(r@) == self.copied(),
    {
        copy_nodes(&self.copied_nodes)
    }
}

impl Command for CopySelectionCommand {
    /// The positions have paths, and text is taken only where characters
    /// start.
    open spec fn can_execute(&self, document: &Document) -> bool {
        copy_can_run(document@)
    }

    open spec fn can_undo(&self, document: &Document) -> bool {
        true
    }

    /// Copies the selection (see `copied_content`); the document is left
    /// as it is, and without a selection nothing changes.
    fn execute(&mut self, document: &mut Document) -> (r: Result<(), EditError>)
        ensures
            r == Ok::<(), EditError>(()),
            final(document)@ == old(document)@,
            final(self).copied() == if old(document)@.selection is None { old(self).copied() } else { copied_content(old(document)@) },
    {
        proof { lemma_nodes_seq_v_index(document.nodes@); }
        let ghost d = document@;
        let (si, ei, a, b) = match &document.selection {
            None => { return Ok(()); },
            Some(sel) => (sel.start.path[0], sel.end.path[0], sel.start.offset, sel.end.offset),
        };
        if si != ei {
            let len = document.nodes.len();
            if si <= ei && si < len {
                let end: usize = if ei < len { ei + 1 } else { len };
                let mut r: Vec<Node> = Vec::new();
                let mut i: usize = si;
                while i < end
                    invariant
                        si <= i <= end <= document.nodes.len(),
                        document@ == d,
                        d.nodes.len() == document.nodes.len(),
                        forall|j: int| 0 <= j < d.nodes.len() ==> #[trigger] d.nodes[j] == node_v(&document.nodes@[j]),
                        nodes_seq_v(r@) == d.nodes.subrange(si as int, i as int),
                    decreases end - i,
                {
                    let c = copy_node(&document.nodes[i]);
                    proof {
                        lemma_nodes_seq_v_push(r@, c);
                        assert(d.nodes.subrange(si as int, i + 1) =~= d.nodes.subrange(si as int, i as int).push(c@));
                    }
                    r.push(c);
                    i = i + 1;
                }
                self.copied_nodes = r;
            } else {
                self.copied_nodes = Vec::new();
                proof { assert(nodes_seq_v(self.copied_nodes@) =~= Seq::<NodeV>::empty()); }
            }
            return Ok(());
        }
        if si >= document.nodes.len() {
            self.copied_nodes = Vec::new();
            proof { assert(nodes_seq_v(self.copied_nodes@) =~= Seq::<NodeV>::empty()); }
            return Ok(());
        }
        let node = match &document.nodes[si] {
            Node::Paragraph { children } => {
                proof { lemma_inlines_seq_v_index(children@); }
                Node::Paragraph { children: extract_selected_content(children, a, b) }
            },
            Node::Heading { level, children } => {
                proof { lemma_inlines_seq_v_index(children@); }
                Node::Heading { level: *level, children: extract_selected_content(children, a, b) }
            },
            n => copy_node(n),
        };
        self.copied_nodes = vec![node];
        proof {
            lemma_nodes_seq_v_push(Seq::empty(), node);
            assert(self.copied_nodes@ =~= Seq::empty().push(node));
        }
        Ok(())
    }

    /// Copying changes nothing, so undo does nothing.
    fn undo(&mut self, document: &mut Document) -> (r: Result<(), EditError>)
        ensures
            r == Ok::<(), EditError>(()),
            final(document)@ == old(document)@,
            *final(self) == *old(self),
    {
        Ok(())
    }
}

} // verus!
