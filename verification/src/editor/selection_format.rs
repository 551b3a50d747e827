//! Applying formatting to the selected text.
use vstd::prelude::*;
use crate::document::{Document, DocumentV, start_of, lemma_start_of_step, lemma_nodes_update};
use crate::error::EditError;
use crate::inline::{
    InlineNode, InlineV, TextFormatting, TextNode, inlines_seq_v, inline_v, copy_inline, lemma_inlines_seq_v_index,
    lemma_inlines_push,
};
use crate::node::{Node, NodeV, copy_node, lemma_nodes_seq_v_index};
use crate::selection::{Selection, SelectionV, opt_selection_v};
use crate::text::{blen, char_at_byte, byte_len, char_index_of_byte, sub_chars, lemma_blen_take_mono};
use crate::doc_selection::piece_bounds;
use crate::editor::command::Command;
use crate::editor::text_commands::{merge_fmt, with_node_at, has_inlines, with_inlines, set_inlines};
use crate::editor::clipboard::{cut_ok, saves_v};

verus! {

/// What formatting the bytes `[s, e)` with `f` makes of child `j`: a text
/// run outside the range stays whole; one that overlaps it is cut into the
/// part before (as it was), the selected part (with `f` added) and the part
/// after (as it was). Another node stays when it lies outside the range
/// and is dropped when it lies inside.
pub open spec fn sel_format_piece(ch: Seq<InlineV>, j: int, s: int, e: int, f: TextFormatting) -> Seq<InlineV> {
    let cur = start_of(ch, j);
    if ch[j] is Text {
        let next = cur + blen(ch[j]->text);
        if next <= s || cur >= e {
            seq![ch[j]]
        } else {
            format_overlap(ch[j]->text, ch[j]->formatting, cur, s, e, f)
        }
    } else if cur + 1 <= s || cur >= e {
        seq![ch[j]]
    } else {
        Seq::empty()
    }
}

/// The pieces of a text run starting at byte `cur` that overlaps `[s, e)`.
pub open spec fn format_overlap(text: Seq<char>, fmt: TextFormatting, cur: int, s: int, e: int, f: TextFormatting) -> Seq<InlineV> {
    let next = cur + blen(text);
    let a = if s > cur { s - cur } else { 0 };
    let b = if e - cur < blen(text) { e - cur } else { blen(text) };
    (if cur < s { seq![InlineV::Text { text: text.take(char_at_byte(text, a)), formatting: fmt }] } else { Seq::empty() })
        + (if a < b {
            seq![InlineV::Text {
                text: text.subrange(char_at_byte(text, a), char_at_byte(text, b)),
                formatting: merge_fmt(fmt, f),
            }]
        } else {
            Seq::empty()
        })
        + (if next > e { seq![InlineV::Text { text: text.skip(char_at_byte(text, b)), formatting: fmt }] } else { Seq::empty() })
}

/// What formatting makes of the first `k` children.
pub open spec fn sel_format_run(ch: Seq<InlineV>, s: int, e: int, f: TextFormatting, k: int) -> Seq<InlineV>
    decreases k,
{
    if k <= 0 { Seq::empty() } else { sel_format_run(ch, s, e, f, k - 1) + sel_format_piece(ch, k - 1, s, e, f) }
}

/// The result and document of formatting the selection with `f`. Nothing
/// happens without a selection or with a collapsed one. A selection across
/// nodes is refused, and so is one in a node without inline text; a
/// selection in a paragraph or heading has its bytes formatted. A selection
/// on a node past the end is dropped.
pub open spec fn sel_format_effect(d: DocumentV, f: TextFormatting) -> (Result<(), EditError>, DocumentV) {
    match d.selection {
        None => (Ok(()), d),
        Some(sel) => if sel.is_collapsed {
            (Ok(()), d)
        } else {
            let si = sel.start.path[0] as int;
            let s = sel.start.offset as int;
            let e = sel.end.offset as int;
            if si != sel.end.path[0] {
                (Err(EditError::UnsupportedOperation), d)
            } else if si >= d.nodes.len() {
                (Err(EditError::IndexOutOfBounds), DocumentV { selection: None, ..d })
            } else if has_inlines(d.nodes[si]) {
                let ch = crate::editor::text_commands::inlines_of(d.nodes[si]);
                (Ok(()), with_node_at(d, si, with_inlines(d.nodes[si], sel_format_run(ch, s, e, f, ch.len() as int))))
            } else {
                (Err(EditError::UnsupportedOperation), d)
            }
        },
    }
}

/// What executing saves for undo: the node the selection lies in, when it
/// exists.
pub open spec fn sel_format_saves(d: DocumentV) -> Seq<(usize, NodeV)> {
    match d.selection {
        Some(sel) => if !sel.is_collapsed && sel.start.path[0] == sel.end.path[0] && sel.start.path[0] < d.nodes.len() {
            seq![(sel.start.path[0], d.nodes[sel.start.path[0] as int])]
        } else {
            Seq::empty()
        },
        None => Seq::empty(),
    }
}

/// Formatting stays within what can be done without a run-time fault: the
/// positions have paths, and text is cut only where characters start.
pub open spec fn sel_format_can_run(d: DocumentV) -> bool {
    match d.selection {
        None => true,
        Some(sel) => !sel.is_collapsed ==> {
            &&& sel.start.path.len() > 0
            &&& sel.end.path.len() > 0
            &&& {
                let si = sel.start.path[0] as int;
                si == sel.end.path[0] && si < d.nodes.len() && has_inlines(d.nodes[si])
                    ==> cut_ok(crate::editor::text_commands::inlines_of(d.nodes[si]), sel.start.offset as int, sel.end.offset as int)
            }
        },
    }
}

/// The nodes after undo writes each saved node back at its index, skipping
/// those past the end, in order.
pub open spec fn restore_present(nodes: Seq<NodeV>, saved: Seq<(usize, NodeV)>, k: int) -> Seq<NodeV>
    decreases k,
{
    if k <= 0 {
        nodes
    } else {
        let prev = restore_present(nodes, saved, k - 1);
        if (saved[k - 1].0 as int) < prev.len() { prev.update(saved[k - 1].0 as int, saved[k - 1].1) } else { prev }
    }
}

fn format_selected_children(children: &Vec<InlineNode>, s: usize, e: usize, f: TextFormatting) -> (r: Vec<InlineNode>)
    requires cut_ok(inlines_seq_v(children@), s as int, e as int),
    ensures inlines_seq_v(r@) == sel_format_run(inlines_seq_v(children@), s as int, e as int, f, children.len() as int),
{
    let ghost ch = inlines_seq_v(children@);
    proof { lemma_inlines_seq_v_index(children@); }
    let mut result: Vec<InlineNode> = Vec::new();
    let mut i: usize = 0;
    let mut cur: u128 = 0;
    while i < children.len()
        invariant
            ch == inlines_seq_v(children@),
            ch.len() == children.len(),
            cut_ok(ch, s as int, e as int),
            i <= children.len(),
            cur == start_of(ch, i as int),
            cur <= 0x1_0000_0000_0000_0000u128 * (i as u128),
            inlines_seq_v(result@) == sel_format_run(ch, s as int, e as int, f, i as int),
            forall|j: int| 0 <= j < ch.len() ==> #[trigger] ch[j] == inline_v(&children@[j]),
        decreases children.len() - i,
    {
        proof { lemma_start_of_step(ch, i as int); }
        let ghost base = sel_format_run(ch, s as int, e as int, f, i as int);
        match &children[i] {
            InlineNode::Text(t) => {
                let text = t.text.as_str();
                let len = byte_len(text);
                let next = cur + (len as u128);
                if next <= (s as u128) || cur >= (e as u128) {
                    let c = copy_inline(&children[i]);
                    proof {
                        lemma_inlines_push(result@, c);
                        assert(base + seq![c@] =~= base.push(c@));
                    }
                    result.push(c);
                } else {
                    proof {
                        assert(ch[i as int] is Text);
                        let pb = piece_bounds(ch, i as int, s as int, e as int);
                        if crate::doc_selection::piece_taken(ch, i as int, s as int, e as int) {
                            assert(crate::text::is_boundary(ch[i as int]->text, pb.0));
                        }
                    }
                    let mut pieces = format_overlap_exec(t, cur, s, e, f);
                    let ghost r0 = result@;
                    let ghost p0 = pieces@;
                    result.append(&mut pieces);
                    proof {
                        crate::inline::lemma_inlines_seq_v_index(r0);
                        crate::inline::lemma_inlines_seq_v_index(result@);
                        crate::inline::lemma_inlines_seq_v_index(p0);
                        assert(inlines_seq_v(result@) =~= base + sel_format_piece(ch, i as int, s as int, e as int, f));
                    }
                }
                cur = next;
            },
            _ => {
                if cur + 1 <= (s as u128) || cur >= (e as u128) {
                    let c = copy_inline(&children[i]);
                    proof {
                        lemma_inlines_push(result@, c);
                        assert(base + seq![c@] =~= base.push(c@));
                    }
                    result.push(c);
                } else {
                    proof { assert(base + Seq::<InlineV>::empty() =~= base); }
                }
                cur = cur + 1;
            },
        }
        i = i + 1;
    }
    result
}

fn format_overlap_exec(t: &TextNode, cur: u128, s: usize, e: usize, f: TextFormatting) -> (r: Vec<InlineNode>)
    requires
        cur <= 0x1_0000_0000_0000_0000_0000u128,
        !(cur + blen(t.text@) <= s || cur >= e),
        cur < s ==> crate::text::is_boundary(t.text@, s - cur),
        cur + blen(t.text@) > e ==> crate::text::is_boundary(t.text@, e - cur),
        ({
            let a = if s > cur { s - cur } else { 0 };
            let b = if e - cur < blen(t.text@) { e - cur } else { blen(t.text@) };
            a < b ==> crate::text::is_boundary(t.text@, a) && crate::text::is_boundary(t.text@, b)
        }),
    ensures inlines_seq_v(r@) == format_overlap(t.text@, t.formatting, cur as int, s as int, e as int, f),
{
    let text = t.text.as_str();
    let len = byte_len(text);
    let next = cur + (len as u128);
    let mut result: Vec<InlineNode> = Vec::new();
    let a: u128 = if (s as u128) > cur { (s as u128) - cur } else { 0 };
    let b: u128 = if (e as u128) - cur < (len as u128) { (e as u128) - cur } else { len as u128 };
    let n = text.unicode_len();
    proof { assert(inlines_seq_v(result@) =~= Seq::<InlineV>::empty()); }
    if cur < (s as u128) {
        match char_index_of_byte(text, a as usize) {
            Some(k) => {
                let node = InlineNode::Text(TextNode { text: sub_chars(text, 0, k), formatting: t.formatting });
                proof {
                    lemma_inlines_push(result@, node);
                    assert(text@.subrange(0, k as int) =~= text@.take(k as int));
                }
                result.push(node);
            },
            None => {},
        }
    }
    let ghost r1 = inlines_seq_v(result@);
    if a < b {
        match (char_index_of_byte(text, a as usize), char_index_of_byte(text, b as usize)) {
            (Some(ca), Some(cb)) => {
                proof {
                    if ca > cb {
                        lemma_blen_take_mono(text@, cb as int, ca as int);
                    }
                }
                let fm = TextFormatting {
                    bold: t.formatting.bold || f.bold,
                    italic: t.formatting.italic || f.italic,
                    strikethrough: t.formatting.strikethrough || f.strikethrough,
                    code: t.formatting.code || f.code,
                };
                let node = InlineNode::Text(TextNode { text: sub_chars(text, ca, cb), formatting: fm });
                proof { lemma_inlines_push(result@, node); }
                result.push(node);
            },
            _ => {},
        }
    }
    let ghost r2 = inlines_seq_v(result@);
    if next > (e as u128) {
        match char_index_of_byte(text, b as usize) {
            Some(k) => {
                let node = InlineNode::Text(TextNode { text: sub_chars(text, k, n), formatting: t.formatting });
                proof {
                    lemma_inlines_push(result@, node);
                    assert(text@.subrange(k as int, n as int) =~= text@.skip(k as int));
                }
                result.push(node);
            },
            None => {},
        }
    }
    proof {
        assert(inlines_seq_v(result@) =~= format_overlap(t.text@, t.formatting, cur as int, s as int, e as int, f));
    }
    result
}

/// Command to apply formatting to the currently selected text
pub struct SelectionFormatCommand {
    formatting: TextFormatting,
    original_nodes: Vec<(usize, Node)>,
    original_selection: Option<Selection>,
}

impl SelectionFormatCommand {
    /// The formatting applied.
    pub closed spec fn formatting(&self) -> TextFormatting { self.formatting }

    /// The nodes saved for undo, with their indices.
    pub closed spec fn saved(&self) -> Seq<(usize, NodeV)> { saves_v(self.original_nodes@) }

    /// The selection saved for undo.
    pub closed spec fn saved_selection(&self) -> Option<SelectionV> { opt_selection_v(self.original_selection) }

    /// Creates a command that applies `formatting` to the selection
    pub fn new(formatting: TextFormatting) -> (r: Self)
        ensures r.formatting() == formatting, r.saved() == Seq::<(usize, NodeV)>::empty(), r.saved_selection() is None,
    {
        let r = SelectionFormatCommand { formatting, original_nodes: Vec::new(), original_selection: None };
        proof { assert(saves_v(r.original_nodes@) =~= Seq::<(usize, NodeV)>::empty()); }
        r
    }
}

impl Command for SelectionFormatCommand {
    open spec fn can_execute(&self, document: &Document) -> bool {
        sel_format_can_run(document@)
    }

    open spec fn can_undo(&self, document: &Document) -> bool {
        true
    }

    /// Formats the selection (see `sel_format_effect`), saving the
    /// selection and the node it lies in.
    fn execute(&mut self, document: &mut Document) -> (r: Result<(), EditError>)
        ensures
            final(self).formatting() == old(self).formatting(),
            r == sel_format_effect(old(document)@, old(self).formatting()).0,
            final(document)@ == sel_format_effect(old(document)@, old(self).formatting()).1,
            final(self).saved() == old(self).saved() + sel_format_saves(old(document)@),
            final(self).saved_selection() == (match old(document)@.selection {
                Some(sel) => if sel.is_collapsed { old(self).saved_selection() } else { Some(sel) },
                None => old(self).saved_selection(),
            }),
    {
        proof { lemma_nodes_seq_v_index(document.nodes@); }
        let ghost d = document@;
        let sel = match &document.selection {
            None => {
                proof { assert(old(self).saved() + Seq::<(usize, NodeV)>::empty() =~= old(self).saved()); }
                return Ok(());
            },
            Some(sel) => {
                if sel.is_collapsed {
                    proof { assert(old(self).saved() + Seq::<(usize, NodeV)>::empty() =~= old(self).saved()); }
                    return Ok(());
                }
                sel.clone()
            },
        };
        self.original_selection = Some(sel.clone());
        let si = sel.start.path[0];
        if si != sel.end.path[0] {
            proof { assert(old(self).saved() + Seq::<(usize, NodeV)>::empty() =~= old(self).saved()); }
            return Err(EditError::UnsupportedOperation);
        }
        if si >= document.nodes.len() {
            document.selection = None;
            proof { assert(old(self).saved() + Seq::<(usize, NodeV)>::empty() =~= old(self).saved()); }
            return Err(EditError::IndexOutOfBounds);
        }
        let saved_node = copy_node(&document.nodes[si]);
        let ghost before = self.original_nodes@;
        self.original_nodes.push((si, saved_node));
        proof {
            assert(saves_v(self.original_nodes@) =~= saves_v(before) + sel_format_saves(d));
        }
        let s = sel.start.offset;
        let e = sel.end.offset;
        let f = self.formatting;
        let outcome: Option<Vec<InlineNode>> = match &document.nodes[si] {
            Node::Paragraph { children } | Node::Heading { children, .. } => {
                proof { lemma_inlines_seq_v_index(children@); }
                Some(format_selected_children(children, s, e, f))
            },
            _ => None,
        };
        match outcome {
            Some(ch) => {
                set_inlines(document, si, ch);
                Ok(())
            },
            None => Err(EditError::UnsupportedOperation),
        }
    }

    /// Writes the saved nodes back (skipping indices past the end) and
    /// restores the saved selection.
    fn undo(&mut self, document: &mut Document) -> (r: Result<(), EditError>)
        ensures
            r == Ok::<(), EditError>(()),
            final(self).formatting() == old(self).formatting(),
            final(self).saved() == Seq::<(usize, NodeV)>::empty(),
            final(self).saved_selection() is None,
            final(document)@ == (DocumentV {
                nodes: restore_present(old(document)@.nodes, old(self).saved(), old(self).saved().len() as int),
                selection: if old(self).saved_selection() is Some { old(self).saved_selection() } else { old(document)@.selection },
                ..old(document)@
            }),
    {
        let mut saved: Vec<(usize, Node)> = Vec::new();
        std::mem::swap(&mut saved, &mut self.original_nodes);
        proof { assert(saves_v(self.original_nodes@) =~= Seq::<(usize, NodeV)>::empty()); }
        let ghost sv = saves_v(saved@);
        let ghost d = document@;
        let mut k: usize = 0;
        while k < saved.len()
            invariant
                k <= saved.len(),
                sv == saves_v(saved@),
                sv.len() == saved.len(),
                document@ == (DocumentV { nodes: restore_present(d.nodes, sv, k as int), ..d }),
            decreases saved.len() - k,
        {
            let idx = saved[k].0;
            proof {
                lemma_nodes_seq_v_index(document.nodes@);
                assert(sv[k as int] == (idx, saved@[k as int].1@));
            }
            if idx < document.nodes.len() {
                let n = copy_node(&saved[k].1);
                let ghost prev = document.nodes@;
                document.nodes.set(idx, n);
                proof { lemma_nodes_update(prev, idx as int, n); }
            }
            k = k + 1;
        }
        match self.original_selection.take() {
            Some(sel) => { document.selection = Some(sel); },
            None => {},
        }
        Ok(())
    }
}

} // verus!
