//! Laws of editing. What undo gives back: for each command, undoing it
//! right after it ran successfully restores the document it ran on; each
//! such law takes the document, the command's arguments and the state the
//! command recorded when it ran (as its `execute` states it), and the
//! outcome of `undo`. Then the same at the level of the editor, what redo
//! gives back, and how the history stays within its limit; and what a few
//! operations promise of their result: sorting orders the task items
//! stably, dedenting a task item takes back an indent, unindenting nodes
//! takes back an indent, inserted text lands in the joined text at its
//! offset, deleting removes exactly the range from it, formatting keeps
//! it, a case-sensitive replace works run by run and node by node, a copy
//! across nodes takes those nodes, and a table operation fails exactly when
//! what it names does not exist.
use vstd::prelude::*;
use crate::document::{DocumentV, inlines_len, start_of, lemma_start_of_step};
use crate::error::EditError;
use crate::inline::InlineV;
use crate::node::{NodeV, ListItemV, ListType};
use crate::text::{blen, char_at_byte, is_boundary, lemma_char_at_byte, lemma_blen_take_mono, lemma_blen_concat};
use crate::editor::command::{with_nodes, with_items, is_task_list};
use crate::editor::node_commands::{InsertNodeCommand, DeleteNodeCommand, MoveNodeCommand, DuplicateNodeCommand, is_temp, move_target, move_effect};
use crate::editor::text_commands::{has_inlines, inlines_of, with_inlines, with_node_at};
use crate::editor::history::{EditCommand, remove_inserted, delete_node_undone, move_node_undone};
use crate::editor::batch::{batch_undone, batch_ran, same_kinds};
use crate::editor::session::{last_restores, trimmed};
use crate::editor::clipboard::{copied_content, CutSelectionCommand, cut_effect, cut_saves, cut_saved_selection, restore_saved, reinserted, range_saves, cut_end};
use crate::editor::history::cut_undone;
use crate::editor::find_replace::{FindReplaceCommand, replace_nodes, replace_node, find_replace_result, restore_in_place, replace_all, replace_children, children_hit, text_hit, contains, occurs_at};
use crate::editor::selection_format::{sel_format_effect, sel_format_saves, restore_present};
use crate::editor::task_commands::{items_of, toggled, task_list_error, item_with_text};
use crate::node::task_item_v;
use crate::inline::plain_text_v;
use crate::editor::convert_command::ConvertNodeTypeCommand;
use crate::editor::table_commands::{TableOperationsCommand, CreateTableCommand, TableOperation, TableV, table_op_result, cell_exists};
use crate::editor::text_commands::{InsertTextCommand, FormatTextCommand, insert_cmd_result, insert_cmd_ok, receives, receiver_from, format_all, format_child, format_ok, overlaps, merge_fmt};
use crate::doc_selection::{piece_bounds, piece_taken, pieces_ok};
use crate::editor::edit_commands::{DeleteTextCommand, MergeNodesCommand, delete_text_result, kept_run, kept_piece, merge_result};
use crate::editor::history::{merge_nodes_undone, convert_undone, table_op_undone, create_table_undone, insert_text_undone, format_text_undone, delete_text_undone};
use crate::editor::sort_task::{SortCriteria, stable_sorted, insert_sorted, sorts_before, rank, text_less, sort_text};
use crate::doc_selection::node_selection_ok;
use crate::editor::selection_indent::{SelectionIndentCommand, indent_effect, indent_saves, indent_nodes, lines_of, join_lines, indent_line, dedent_line, leading_spaces, shift_code, shift_node, shift_pass, merge_marks, merge_pass, drop_empty_lists, is_empty_list};
use crate::convert::{next_nl, strip_cr, lemma_next_nl_range};
use crate::editor::history::sel_indent_undone;
use crate::editor::selection_indent::IndentDirection as IndentDirectionSel;
use crate::editor::indent_task::{IndentDirection, indent_items, indented, nest_under, nested_ok, first_nested_from, first_dedent_from};

verus! {

/// Inserting a node and undoing removes it again.
pub proof fn law_insert_node_undo(d: DocumentV, position: usize, n: NodeV, r: Result<(), EditError>, d2: DocumentV)
    requires
        position <= d.nodes.len(),
        !is_temp(n),
        remove_inserted(Some(position), with_nodes(d, d.nodes.insert(position as int, n)), r, d2),
    ensures
        r is Ok,
        d2 == d,
{
    assert(d.nodes.insert(position as int, n).remove(position as int) =~= d.nodes);
}

/// Deleting a node and undoing puts it back where it was.
pub proof fn law_delete_node_undo(d: DocumentV, c: DeleteNodeCommand, r: Result<(), EditError>, d2: DocumentV)
    requires
        c.index() < d.nodes.len(),
        c.deleted() == Some(d.nodes[c.index() as int]),
        delete_node_undone(c, with_nodes(d, d.nodes.remove(c.index() as int)), r, d2),
    ensures
        r is Ok,
        d2 == d,
{
    assert(d.nodes.remove(c.index() as int).insert(c.index() as int, d.nodes[c.index() as int]) =~= d.nodes);
}

/// Moving a node and undoing moves it back.
pub proof fn law_move_node_undo(d: DocumentV, c: MoveNodeCommand, r: Result<(), EditError>, d2: DocumentV)
    requires
        c.from() < d.nodes.len(),
        c.to() <= d.nodes.len(),
        move_node_undone(c, move_effect(d, c.from() as int, c.to() as int), r, d2),
    ensures
        r is Ok,
        d2 == d,
{
    let from = c.from() as int;
    let m = move_target(from, c.to() as int);
    if from == c.to() {
        assert(d.nodes.remove(from).insert(from, d.nodes[from]) =~= d.nodes);
    } else {
        let moved = d.nodes.remove(from).insert(m, d.nodes[from]);
        assert(moved[m] == d.nodes[from]);
        assert(moved.remove(m) =~= d.nodes.remove(from));
        assert(d.nodes.remove(from).insert(from, d.nodes[from]) =~= d.nodes);
    }
}

/// Duplicating a node and undoing removes the copy.
pub proof fn law_duplicate_node_undo(d: DocumentV, index: usize, r: Result<(), EditError>, d2: DocumentV)
    requires
        index < d.nodes.len(),
        d.nodes.len() <= usize::MAX,
        remove_inserted(Some((index + 1) as usize), with_nodes(d, d.nodes.insert(index + 1, d.nodes[index as int])), r, d2),
    ensures
        r is Ok,
        d2 == d,
{
    assert(d.nodes.insert(index + 1, d.nodes[index as int]).remove(index + 1) =~= d.nodes);
}

/// Writing the saved inline children back into a paragraph or heading
/// whose children were replaced gives the node as it was.
pub proof fn law_inlines_restore(n: NodeV, ch: Seq<InlineV>)
    requires has_inlines(n),
    ensures
        has_inlines(with_inlines(n, ch)),
        with_inlines(with_inlines(n, ch), inlines_of(n)) == n,
{
}

/// Inserting the removed nodes back, one after the other, rebuilds the
/// node list.
proof fn lemma_reinserted_range(nodes: Seq<NodeV>, si: int, end: int, k: int)
    requires
        0 <= si <= end <= nodes.len(),
        0 <= k <= end - si,
        end <= usize::MAX,
    ensures
        reinserted(nodes.take(si) + nodes.skip(end), range_saves(nodes, si, end), k) == nodes.take(si + k) + nodes.skip(end),
    decreases k,
{
    let saved = range_saves(nodes, si, end);
    if k > 0 {
        lemma_reinserted_range(nodes, si, end, k - 1);
        let prev = nodes.take(si + k - 1) + nodes.skip(end);
        assert(saved[k - 1] == ((si + k - 1) as usize, nodes[si + k - 1]));
        assert(prev.insert(si + k - 1, nodes[si + k - 1]) =~= nodes.take(si + k) + nodes.skip(end));
    } else {
        assert(nodes.take(si + 0) =~= nodes.take(si));
    }
}

/// Cutting a selection and undoing restores the document, selection
/// included: a cut within one paragraph, heading or code block writes the
/// saved node back, a cut across nodes inserts the removed nodes back.
pub proof fn law_cut_undo(d: DocumentV, c: CutSelectionCommand, r: Result<(), EditError>, d2: DocumentV)
    requires
        d.nodes.len() <= usize::MAX,
        cut_effect(d).0 is Ok,
        c.saved() == cut_saves(d),
        c.saved_selection() == cut_saved_selection(d),
        c.removed() == (d.selection matches Some(sel) && !sel.is_collapsed && sel.start.path[0] != sel.end.path[0]),
        cut_undone(c, cut_effect(d).1, r, d2),
    ensures
        r is Ok,
        d2 == d,
{
    let d1 = cut_effect(d).1;
    let saved = cut_saves(d);
    match d.selection {
        None => {
            assert(restore_saved(d1.nodes, saved, 0) == d1.nodes);
        },
        Some(sel) => {
            if sel.is_collapsed {
                assert(restore_saved(d1.nodes, saved, 0) == d1.nodes);
            } else {
                let si = sel.start.path[0] as int;
                let ei = sel.end.path[0] as int;
                if si == ei {
                    assert(saved.len() == 1);
                    assert(restore_saved(d1.nodes, saved, 0) == d1.nodes);
                    assert(d1.nodes.update(si, d.nodes[si]) =~= d.nodes);
                } else if si <= ei && si < d.nodes.len() {
                    let end = cut_end(d, ei);
                    lemma_reinserted_range(d.nodes, si, end, end - si);
                    assert(d.nodes.take(end) + d.nodes.skip(end) =~= d.nodes);
                } else {
                    assert(reinserted(d1.nodes, saved, 0) == d1.nodes);
                }
            }
        },
    }
}

/// Formatting a selection within one paragraph or heading and undoing
/// restores the document.
pub proof fn law_selection_format_undo(d: DocumentV, f: crate::inline::TextFormatting, d2: DocumentV)
    requires
        sel_format_effect(d, f).0 is Ok,
        d.selection is Some,
        !d.selection->0.is_collapsed,
        d2 == (DocumentV {
            nodes: restore_present(sel_format_effect(d, f).1.nodes, sel_format_saves(d), sel_format_saves(d).len() as int),
            selection: d.selection,
            ..sel_format_effect(d, f).1
        }),
    ensures
        d2 == d,
{
    let si = d.selection->0.start.path[0] as int;
    let d1 = sel_format_effect(d, f).1;
    let saved = sel_format_saves(d);
    assert(saved.len() == 1);
    assert(restore_present(d1.nodes, saved, 0) == d1.nodes);
    assert(d1.nodes.update(si, d.nodes[si]) =~= d.nodes);
}

/// The nodes `ns` keep the length of `nodes` and its nodes from `k` on;
/// `saved` holds each node of `nodes` before `k` that `ns` changed, with
/// its index.
pub open spec fn shape_ok(nodes: Seq<NodeV>, ns: Seq<NodeV>, saved: Seq<(usize, NodeV)>, k: int) -> bool {
    &&& ns.len() == nodes.len()
    &&& forall|j: int| k <= j < nodes.len() ==> #[trigger] ns[j] == nodes[j]
    &&& forall|q: int| 0 <= q < saved.len() ==> ((#[trigger] saved[q]).0 as int) < k && saved[q].1 == nodes[saved[q].0 as int]
    &&& forall|j: int| 0 <= j < k && #[trigger] ns[j] != nodes[j] ==> exists|q: int| 0 <= q < saved.len() && (#[trigger] saved[q]).0 == j
}

/// Find-and-replace keeps the number of nodes, and saves each changed node
/// as it was, with its index.
proof fn lemma_replace_nodes_shape(nodes: Seq<NodeV>, f: Seq<char>, r: Seq<char>, cs: bool, k: int)
    requires 0 <= k <= nodes.len(), nodes.len() <= usize::MAX,
    ensures
        replace_nodes(nodes, f, r, cs, k) is Some ==> shape_ok(nodes, (replace_nodes(nodes, f, r, cs, k)->0).0,
            (replace_nodes(nodes, f, r, cs, k)->0).2, k),
    decreases k,
{
    if k > 0 {
        lemma_replace_nodes_shape(nodes, f, r, cs, k - 1);
        match replace_nodes(nodes, f, r, cs, k - 1) {
            Some((ns, n, saved)) => {
                match replace_node(nodes[k - 1], f, r, cs) {
                    Some(Some((m, c))) => {
                        let saved2 = saved.push(((k - 1) as usize, nodes[k - 1]));
                        let ns2 = ns.update(k - 1, m);
                        assert(replace_nodes(nodes, f, r, cs, k) == Some((ns2, n + c, saved2)));
                        assert forall|j: int| k <= j < nodes.len() implies #[trigger] ns2[j] == nodes[j] by {
                            assert(ns2[j] == ns[j]);
                        }
                        assert forall|q: int| 0 <= q < saved2.len() implies ((#[trigger] saved2[q]).0 as int) < k
                            && saved2[q].1 == nodes[saved2[q].0 as int] by {
                            if q < saved.len() { assert(saved2[q] == saved[q]); }
                        }
                        assert forall|j: int| 0 <= j < k && #[trigger] ns2[j] != nodes[j]
                            implies exists|q: int| 0 <= q < saved2.len() && (#[trigger] saved2[q]).0 == j by {
                            if j == k - 1 {
                                assert(saved2[saved.len() as int].0 == j);
                            } else {
                                let q = choose|q: int| 0 <= q < saved.len() && (#[trigger] saved[q]).0 == j;
                                assert(saved2[q].0 == j);
                            }
                        }
                    },
                    Some(None) => {},
                    None => {
                        assert(replace_nodes(nodes, f, r, cs, k) == Some((ns, n, saved)));
                        assert forall|j: int| 0 <= j < k && #[trigger] ns[j] != nodes[j]
                            implies exists|q: int| 0 <= q < saved.len() && (#[trigger] saved[q]).0 == j by {
                            assert(j < k - 1);
                        }
                    },
                }
            },
            None => {},
        }
    }
}

/// Writing back, in order, saved nodes that hold the values of `nodes` at
/// their indices (all inside `ns`) puts those values in place.
proof fn lemma_restore_matching(ns: Seq<NodeV>, nodes: Seq<NodeV>, saved: Seq<(usize, NodeV)>, m: int)
    requires
        0 <= m <= saved.len(),
        ns.len() == nodes.len(),
        forall|q: int| 0 <= q < saved.len() ==> ((#[trigger] saved[q]).0 as int) < ns.len() && saved[q].1 == nodes[saved[q].0 as int],
    ensures
        restore_in_place(ns, saved, m).1,
        restore_in_place(ns, saved, m).0 =~= Seq::new(ns.len(), |j: int|
            if exists|q: int| 0 <= q < m && (#[trigger] saved[q]).0 == j { nodes[j] } else { ns[j] }),
    decreases m,
{
    if m > 0 {
        lemma_restore_matching(ns, nodes, saved, m - 1);
        let i = saved[m - 1].0 as int;
        assert forall|j: int| 0 <= j < ns.len() implies #[trigger] restore_in_place(ns, saved, m).0[j] ==
            (if exists|q: int| 0 <= q < m && (#[trigger] saved[q]).0 == j { nodes[j] } else { ns[j] }) by {
            if j == i {
                assert(saved[m - 1].0 == j);
            } else if exists|q: int| 0 <= q < m && (#[trigger] saved[q]).0 == j {
                let q = choose|q: int| 0 <= q < m && (#[trigger] saved[q]).0 == j;
                assert(q != m - 1);
                assert(0 <= q < m - 1 && saved[q].0 == j);
            }
        }
    }
}

/// Find-and-replace and undo restore the document.
pub proof fn law_find_replace_undo(d: DocumentV, f: Seq<char>, rep: Seq<char>, cs: bool, r: Result<(), EditError>, d2: DocumentV)
    requires
        d.nodes.len() <= usize::MAX,
        find_replace_result(d.nodes, f, rep, cs) is Some,
        ({
            let (ns, _, saved) = find_replace_result(d.nodes, f, rep, cs)->0;
            let (restored, ok) = restore_in_place(ns, saved, saved.len() as int);
            &&& d2 == with_nodes(with_nodes(d, ns), restored)
            &&& ok ==> r is Ok
            &&& !ok ==> r is Err
        }),
    ensures
        r is Ok,
        d2 == d,
{
    let (ns, _, saved) = find_replace_result(d.nodes, f, rep, cs)->0;
    if f.len() == 0 {
        assert(restore_in_place(ns, saved, 0) == (ns, true));
    } else {
        lemma_replace_nodes_shape(d.nodes, f, rep, cs, d.nodes.len() as int);
        assert(shape_ok(d.nodes, ns, saved, d.nodes.len() as int));
        lemma_restore_matching(ns, d.nodes, saved, saved.len() as int);
        assert forall|j: int| 0 <= j < d.nodes.len() implies #[trigger] restore_in_place(ns, saved, saved.len() as int).0[j] == d.nodes[j] by {
            if !(exists|q: int| 0 <= q < saved.len() && (#[trigger] saved[q]).0 == j) {
                if ns[j] != d.nodes[j] {
                    assert(exists|q: int| 0 <= q < saved.len() && (#[trigger] saved[q]).0 == j);
                }
            }
        }
        assert(restore_in_place(ns, saved, saved.len() as int).0 =~= d.nodes);
    }
}

/// Replacing a node and then writing the old one back gives the document
/// as it was.
pub proof fn law_node_put_back(d: DocumentV, i: int, m: NodeV)
    requires 0 <= i < d.nodes.len(),
    ensures with_node_at(with_node_at(d, i, m), i, d.nodes[i]) == d,
{
    assert(d.nodes.update(i, m).update(i, d.nodes[i]) =~= d.nodes);
}

/// Converting a node and undoing writes the saved node back.
pub proof fn law_convert_undo(d: DocumentV, c: ConvertNodeTypeCommand, m: NodeV, r: Result<(), EditError>, d2: DocumentV)
    requires
        c.node() < d.nodes.len(),
        c.saved() == Some(d.nodes[c.node() as int]),
        convert_undone(c, with_node_at(d, c.node() as int, m), r, d2),
    ensures
        r is Ok,
        d2 == d,
{
    law_node_put_back(d, c.node() as int, m);
}

/// A table operation and its undo leave the document as it was.
pub proof fn law_table_op_undo(d: DocumentV, c: TableOperationsCommand, m: NodeV, r: Result<(), EditError>, d2: DocumentV)
    requires
        c.node() < d.nodes.len(),
        c.saved() == Some(d.nodes[c.node() as int]),
        table_op_undone(c, with_node_at(d, c.node() as int, m), r, d2),
    ensures
        r is Ok,
        d2 == d,
{
    law_node_put_back(d, c.node() as int, m);
}

/// Creating a table and undoing brings back the saved nodes.
pub proof fn law_create_table_undo(d: DocumentV, c: CreateTableCommand, d1: DocumentV, r: Result<(), EditError>, d2: DocumentV)
    requires
        c.saved() == Some(d.nodes),
        d1 == with_nodes(d, d1.nodes),
        create_table_undone(c, d1, r, d2),
    ensures
        r is Ok,
        d2 == d,
{
}

/// Inserting text and undoing restores the node's saved content.
pub proof fn law_insert_text_undo(d: DocumentV, c: InsertTextCommand, r: Result<(), EditError>, d2: DocumentV)
    requires
        c.text().len() > 0,
        c.node() < d.nodes.len(),
        ({
            let i = c.node() as int;
            let n = d.nodes[i];
            if has_inlines(n) {
                &&& c.saved() == Some(inlines_of(n))
                &&& insert_cmd_result(inlines_of(n), c.position() as int, c.text()) is Some
                &&& insert_text_undone(c, with_node_at(d, i, with_inlines(n, insert_cmd_result(inlines_of(n), c.position() as int, c.text())->0)), r, d2)
            } else {
                &&& n is CodeBlock
                &&& c.position() <= blen(n->CodeBlock_code)
                &&& c.saved() == Some(seq![crate::inline::plain_text_v(n->CodeBlock_code)])
                &&& {
                    let code = n->CodeBlock_code;
                    let ci = char_at_byte(code, c.position() as int);
                    insert_text_undone(c, with_node_at(d, i, NodeV::CodeBlock {
                        language: n->CodeBlock_language,
                        code: code.take(ci) + c.text() + code.skip(ci),
                    }), r, d2)
                }
            }
        }),
    ensures
        r is Ok,
        d2 == d,
{
    let i = c.node() as int;
    let n = d.nodes[i];
    if has_inlines(n) {
        let m = with_inlines(n, insert_cmd_result(inlines_of(n), c.position() as int, c.text())->0);
        law_node_put_back(d, i, m);
    } else {
        let code = n->CodeBlock_code;
        let ci = char_at_byte(code, c.position() as int);
        let m = NodeV::CodeBlock { language: n->CodeBlock_language, code: code.take(ci) + c.text() + code.skip(ci) };
        law_node_put_back(d, i, m);
    }
}

/// Formatting text and undoing restores the node's saved children.
pub proof fn law_format_text_undo(d: DocumentV, c: FormatTextCommand, ch: Seq<InlineV>, r: Result<(), EditError>, d2: DocumentV)
    requires
        c.node() < d.nodes.len(),
        has_inlines(d.nodes[c.node() as int]),
        c.saved() == Some(inlines_of(d.nodes[c.node() as int])),
        format_text_undone(c, with_node_at(d, c.node() as int, with_inlines(d.nodes[c.node() as int], ch)), r, d2),
    ensures
        r is Ok,
        d2 == d,
{
    law_node_put_back(d, c.node() as int, with_inlines(d.nodes[c.node() as int], ch));
}

/// Deleting text and undoing gives back the document: a paragraph gets its
/// saved children back, a code block gets the text back where it was cut.
pub proof fn law_delete_text_undo(d: DocumentV, c: DeleteTextCommand, r: Result<(), EditError>, d2: DocumentV)
    requires
        c.node() < d.nodes.len(),
        node_selection_ok(d.nodes[c.node() as int], c.start() as int, c.end() as int),
        delete_text_result(d, c.node() as int, c.start() as int, c.end() as int) is Ok,
        c.deleted() == Some((delete_text_result(d, c.node() as int, c.start() as int, c.end() as int)->Ok_0).1),
        c.saved_children() == match d.nodes[c.node() as int] {
            NodeV::Paragraph { children } => Some(children),
            _ => None::<Seq<InlineV>>,
        },
        delete_text_undone(c, (delete_text_result(d, c.node() as int, c.start() as int, c.end() as int)->Ok_0).0, r, d2),
    ensures
        r is Ok,
        d2 == d,
{
    let i = c.node() as int;
    if d.nodes[i] is Paragraph {
        let ch = d.nodes[i]->Paragraph_children;
        let m = NodeV::Paragraph { children: kept_run(ch, c.start() as int, c.end() as int, ch.len() as int) };
        law_node_put_back(d, i, m);
    } else {
        let code = d.nodes[i]->CodeBlock_code;
        let s = c.start() as int;
        let e = c.end() as int;
        let a = char_at_byte(code, s);
        let b = char_at_byte(code, e);
        let rest = code.take(a) + code.skip(b);
        if a > b {
            lemma_blen_take_mono(code, b, a);
        }
        assert(rest.take(a) =~= code.take(a));
        lemma_char_at_byte(rest, a);
        lemma_blen_take_mono(rest, a, rest.len() as int);
        crate::text::lemma_blen_take_full(rest);
        assert(rest.take(a) + code.subrange(a, b) + rest.skip(a) =~= code);
        law_node_put_back(d, i, NodeV::CodeBlock { language: d.nodes[i]->CodeBlock_language, code: rest });
    }
}

/// Merging two paragraphs, or two code blocks of one language, and undoing
/// gives back the document: the saved second node returns and the first
/// node loses what the merge added to it.
pub proof fn law_merge_nodes_undo(d: DocumentV, c: MergeNodesCommand, r: Result<(), EditError>, d2: DocumentV)
    requires
        merge_result(d, c.first() as int, c.second() as int) is Ok,
        c.saved() == Some(d.nodes[c.second() as int]),
        merge_nodes_undone(c, (merge_result(d, c.first() as int, c.second() as int)->Ok_0), r, d2),
    ensures
        r is Ok,
        d2 == d,
{
    let f = c.first() as int;
    let sc = c.second() as int;
    let n = d.nodes[sc];
    let d1 = merge_result(d, f, sc)->Ok_0;
    let ins = d1.nodes.insert(sc, n);
    match (d.nodes[f], n) {
        (NodeV::Paragraph { children: a }, NodeV::Paragraph { children: b }) => {
            assert(ins[f] == NodeV::Paragraph { children: a + b });
            assert((a + b).take(a.len() as int) =~= a);
            assert(ins.update(f, NodeV::Paragraph { children: a }) =~= d.nodes);
        },
        (NodeV::CodeBlock { language: la, code: a }, NodeV::CodeBlock { language: lb, code: b }) => {
            let code = a + seq!['\n'] + b;
            assert(ins[f] == NodeV::CodeBlock { language: la, code });
            lemma_blen_concat(a + seq!['\n'], b);
            lemma_blen_concat(a, seq!['\n']);
            crate::text::lemma_blen_single('\n');
            assert(code.take(a.len() as int) =~= a);
            lemma_char_at_byte(code, a.len() as int);
            assert(ins.update(f, NodeV::CodeBlock { language: la, code: a }) =~= d.nodes);
        },
        _ => {},
    }
}

/// Writing the saved items back into a task list gives the document as it
/// was: the undo of moving a task item up, down or to a position, of
/// indenting or unindenting one, and of sorting a task list, each of which
/// saves the list's items when it runs.
pub proof fn law_items_put_back(d: DocumentV, i: int, items: Seq<ListItemV>)
    requires 0 <= i < d.nodes.len(), is_task_list(d.nodes[i]),
    ensures with_items(with_items(d, i, items), i, items_of(d, i)) == d,
{
    assert(d.nodes.update(i, NodeV::List { list_type: ListType::Task, items }).update(i,
        NodeV::List { list_type: ListType::Task, items: items_of(d, i) }) =~= d.nodes);
}

/// The number of items in the first task list child of `it`, 0 when it
/// has none.
pub open spec fn nested_len(it: ListItemV) -> int {
    let k = first_nested_from(it.children, -1, 0);
    if k < it.children.len() { it.children[k]->List_items.len() as int } else { 0 }
}

/// What `first_nested_from` finds: no child before it qualifies, and the
/// one it finds, if any, does.
proof fn lemma_first_nested(ch: Seq<NodeV>, m: int, j: int)
    requires 0 <= j <= ch.len(),
    ensures
        j <= first_nested_from(ch, m, j) <= ch.len(),
        forall|t: int| j <= t < first_nested_from(ch, m, j) ==> !nested_ok(#[trigger] ch[t], m),
        first_nested_from(ch, m, j) < ch.len() ==> nested_ok(ch[first_nested_from(ch, m, j)], m),
    decreases ch.len() - j,
{
    if j < ch.len() && !nested_ok(ch[j], m) {
        lemma_first_nested(ch, m, j + 1);
    }
}

/// `first_nested_from` finds `k` when no child from `j` to `k` qualifies
/// and child `k` does.
proof fn lemma_first_nested_at(ch: Seq<NodeV>, m: int, j: int, k: int)
    requires
        0 <= j <= k < ch.len(),
        forall|t: int| j <= t < k ==> !nested_ok(#[trigger] ch[t], m),
        nested_ok(ch[k], m),
    ensures first_nested_from(ch, m, j) == k,
    decreases k - j,
{
    if j < k {
        lemma_first_nested_at(ch, m, j + 1, k);
    }
}

/// `first_dedent_from` finds `q` when no item from `p` to `q` has a task
/// list child of more than `m` items and item `q` has one.
proof fn lemma_first_dedent_at(items: Seq<ListItemV>, m: int, p: int, q: int)
    requires
        0 <= p <= q < items.len(),
        forall|t: int| p <= t < q ==> first_nested_from(#[trigger] items[t].children, m, 0) >= items[t].children.len(),
        first_nested_from(items[q].children, m, 0) < items[q].children.len(),
    ensures first_dedent_from(items, m, p) == q,
    decreases q - p,
{
    if p < q {
        lemma_first_dedent_at(items, m, p + 1, q);
    }
}

/// Decreasing the indent undoes an increase: after item `i` moves into
/// the item before it, dedenting the item at its index in that item's
/// first task list child puts the items back as they were. This holds when
/// that child, if there is one, is not empty, and no earlier item has a
/// task list child with more items than it, since dedenting takes the
/// first item that has such a child. (The command also refuses an item
/// index that is not below the number of items of the task list.)
pub proof fn law_indent_decrease_undoes_increase(items: Seq<ListItemV>, i: int)
    requires
        0 < i < items.len(),
        first_nested_from(items[i - 1].children, -1, 0) < items[i - 1].children.len() ==> nested_len(items[i - 1]) > 0,
        forall|p: int| 0 <= p < i - 1
            ==> first_nested_from(#[trigger] items[p].children, nested_len(items[i - 1]), 0) >= items[p].children.len(),
    ensures
        indent_items(items, i, IndentDirection::Increase) == Ok::<Seq<ListItemV>, Seq<char>>(indented(items, i)),
        indent_items(indented(items, i), nested_len(items[i - 1]), IndentDirection::Decrease)
            == Ok::<Seq<ListItemV>, Seq<char>>(items),
{
    let prev = items[i - 1];
    let cur = items[i];
    let l = nested_len(prev);
    let rest = items.remove(i);
    let it = nest_under(prev, cur);
    let items2 = indented(items, i);
    let k = first_nested_from(prev.children, -1, 0);
    lemma_first_nested(prev.children, -1, 0);
    assert(rest[i - 1] == prev);
    assert(items2[i - 1] == it);
    if k < prev.children.len() {
        let old_items = prev.children[k]->List_items;
        assert(l == old_items.len());
        assert forall|t: int| 0 <= t < k implies !nested_ok(#[trigger] it.children[t], l) by {
            assert(it.children[t] == prev.children[t]);
            assert(!nested_ok(prev.children[t], -1));
        }
        lemma_first_nested_at(it.children, l, 0, k);
    } else {
        assert(l == 0);
        assert forall|t: int| 0 <= t < prev.children.len() implies !nested_ok(#[trigger] it.children[t], l) by {
            assert(it.children[t] == prev.children[t]);
            assert(!nested_ok(prev.children[t], -1));
        }
        lemma_first_nested_at(it.children, l, 0, k);
    }
    assert forall|t: int| 0 <= t < i - 1 implies first_nested_from(#[trigger] items2[t].children, l, 0) >= items2[t].children.len() by {
        assert(items2[t] == items[t]);
    }
    lemma_first_dedent_at(items2, l, 0, i - 1);
    let j = first_nested_from(it.children, l, 0);
    assert(j == k);
    let nested = it.children[j]->List_items;
    let remaining = nested.remove(l);
    if k < prev.children.len() {
        let old_items = prev.children[k]->List_items;
        assert(nested == old_items.push(cur));
        assert(remaining =~= old_items);
        assert(prev.children[k] == NodeV::List { list_type: ListType::Task, items: old_items });
        assert(it.children.update(j, NodeV::List { list_type: ListType::Task, items: remaining }) =~= prev.children);
    } else {
        assert(nested =~= seq![cur]);
        assert(remaining.len() == 0);
        assert(it.children.remove(j) =~= prev.children);
    }
    assert(nested[l] == cur);
    assert(items2.take(i - 1) + seq![prev, cur] + items2.skip(i) =~= items);
}

/// The text of a run of inline nodes, one node after the other (a node
/// that is not a text run adds nothing).
pub open spec fn texts_of(s: Seq<InlineV>) -> Seq<char>
    decreases s.len(),
{
    if s.len() == 0 {
        Seq::empty()
    } else {
        texts_of(s.drop_last()) + (if s.last() is Text { s.last()->text } else { Seq::empty() })
    }
}

/// Every node of the run is a text run.
pub open spec fn all_text(s: Seq<InlineV>) -> bool {
    forall|j: int| 0 <= j < s.len() ==> #[trigger] s[j] is Text
}

proof fn lemma_texts_of_append(a: Seq<InlineV>, b: Seq<InlineV>)
    ensures texts_of(a + b) == texts_of(a) + texts_of(b),
    decreases b.len(),
{
    if b.len() == 0 {
        assert(a + b =~= a);
        assert(texts_of(b) =~= Seq::<char>::empty());
        assert(texts_of(a) + texts_of(b) =~= texts_of(a));
    } else {
        assert((a + b).drop_last() =~= a + b.drop_last());
        assert((a + b).last() == b.last());
        lemma_texts_of_append(a, b.drop_last());
        assert(texts_of(a + b) =~= texts_of(a) + texts_of(b));
    }
}

proof fn lemma_texts_of_len(s: Seq<InlineV>)
    requires all_text(s),
    ensures inlines_len(s) == blen(texts_of(s)),
    decreases s.len(),
{
    if s.len() > 0 {
        assert(all_text(s.drop_last())) by {
            assert forall|j: int| 0 <= j < s.drop_last().len() implies #[trigger] s.drop_last()[j] is Text by {
                assert(s[j] is Text);
            }
        }
        lemma_texts_of_len(s.drop_last());
        assert(s[s.len() - 1] is Text);
        lemma_blen_concat(texts_of(s.drop_last()), s.last()->text);
    }
}

/// Which node `receiver_from` finds: none before it receives `off`, and the
/// one it finds, if any, does.
proof fn lemma_receiver(s: Seq<InlineV>, off: int, j: int)
    requires 0 <= j <= s.len(),
    ensures
        j <= receiver_from(s, off, j) <= s.len(),
        receiver_from(s, off, j) < s.len() ==> receives(s, receiver_from(s, off, j), off),
        forall|i: int| j <= i < receiver_from(s, off, j) ==> !#[trigger] receives(s, i, off),
    decreases s.len() - j,
{
    if j < s.len() && !receives(s, j, off) {
        lemma_receiver(s, off, j + 1);
    }
}

/// When no text run receives `off`, every run ends before it.
proof fn lemma_no_receiver(s: Seq<InlineV>, off: int, k: int)
    requires
        all_text(s),
        0 <= off,
        0 <= k <= s.len(),
        forall|i: int| 0 <= i < s.len() ==> !#[trigger] receives(s, i, off),
    ensures
        start_of(s, k) <= off,
        k > 0 ==> start_of(s, k) < off,
    decreases k,
{
    if k == 0 {
        assert(s.take(0) =~= Seq::<InlineV>::empty());
    } else {
        lemma_no_receiver(s, off, k - 1);
        lemma_start_of_step(s, k - 1);
        assert(s[k - 1] is Text);
        assert(!receives(s, k - 1, off));
    }
}

/// Inserting text into a run of text nodes puts it into their joined text
/// at the byte offset: the joined text after the insert is the text before
/// the offset, the inserted text, and the text after it. The offset is one
/// where a character starts (or the end); the command checks the same of
/// the run that receives the text.
pub proof fn law_insert_text_joined(s: Seq<InlineV>, off: int, t: Seq<char>)
    requires
        all_text(s),
        is_boundary(texts_of(s), off),
    ensures
        insert_cmd_ok(s, off),
        insert_cmd_result(s, off, t) is Some,
        texts_of(insert_cmd_result(s, off, t)->Some_0) == texts_of(s).take(char_at_byte(texts_of(s), off)) + t
            + texts_of(s).skip(char_at_byte(texts_of(s), off)),
{
    let ss = texts_of(s);
    let c = choose|i: int| 0 <= i <= ss.len() && #[trigger] blen(ss.take(i)) == off;
    lemma_char_at_byte(ss, c);
    lemma_texts_of_len(s);
    assert(ss.take(ss.len() as int) =~= ss);
    lemma_blen_take_mono(ss, c, ss.len() as int);
    assert(s.take(0) =~= Seq::<InlineV>::empty());
    assert(0 <= off) by { lemma_blen_take_mono(ss, 0, c); }
    lemma_receiver(s, off, 0);
    let j = receiver_from(s, off, 0);
    if j < s.len() {
        let x = s[j]->text;
        let pre = s.take(j);
        let post = s.skip(j + 1);
        assert(s =~= pre + seq![s[j]] + post);
        lemma_texts_of_append(pre + seq![s[j]], post);
        lemma_texts_of_append(pre, seq![s[j]]);
        assert(s[j] is Text);
        assert(seq![s[j]].drop_last() =~= Seq::<InlineV>::empty());
        assert(texts_of(Seq::<InlineV>::empty()) =~= Seq::<char>::empty());
        assert(texts_of(seq![s[j]]) =~= x);
        let p = texts_of(pre);
        let q = texts_of(post);
        assert(ss =~= p + x + q);
        assert(all_text(pre)) by {
            assert forall|i: int| 0 <= i < pre.len() implies #[trigger] pre[i] is Text by {
                assert(pre[i] == s[i]);
            }
        }
        lemma_texts_of_len(pre);
        assert(start_of(s, j) == blen(p));
        lemma_blen_concat(p, x);
        assert(ss.take(p.len() as int) =~= p);
        assert(ss.take((p.len() + x.len()) as int) =~= p + x);
        if c < p.len() {
            lemma_blen_take_mono(ss, c, p.len() as int);
        }
        if c > p.len() + x.len() {
            lemma_blen_take_mono(ss, (p.len() + x.len()) as int, c);
        }
        let ci = c - p.len();
        assert(ss.take(c) =~= p + x.take(ci));
        lemma_blen_concat(p, x.take(ci));
        lemma_char_at_byte(x, ci);
        assert(is_boundary(x, off - start_of(s, j)));
        assert(char_at_byte(x, off - start_of(s, j)) == ci);
        let s2 = insert_cmd_result(s, off, t)->Some_0;
        let n2 = InlineV::Text { text: x.take(ci) + t + x.skip(ci), formatting: s[j]->formatting };
        assert(s2 =~= pre + seq![n2] + post);
        lemma_texts_of_append(pre + seq![n2], post);
        lemma_texts_of_append(pre, seq![n2]);
        assert(seq![n2].drop_last() =~= Seq::<InlineV>::empty());
        assert(texts_of(seq![n2]) =~= x.take(ci) + t + x.skip(ci));
        assert(ss.skip(c) =~= x.skip(ci) + q);
        assert(texts_of(s2) =~= ss.take(c) + t + ss.skip(c));
    } else {
        if s.len() > 0 {
            lemma_no_receiver(s, off, s.len() as int);
            assert(s.take(s.len() as int) =~= s);
        } else {
            assert(ss =~= Seq::<char>::empty());
        }
        assert(off == inlines_len(s));
        lemma_char_at_byte(ss, ss.len() as int);
        assert(c == ss.len());
        let s2 = s.push(plain_text_v(t));
        assert(s2.drop_last() =~= s);
        assert(texts_of(s2) =~= ss.take(c) + t + ss.skip(c));
    }
}

/// The number of case-sensitive replacements in the text runs among the
/// first `k` children.
pub open spec fn runs_replaced(ch: Seq<InlineV>, f: Seq<char>, r: Seq<char>, k: int) -> nat
    decreases k,
{
    if k <= 0 {
        0
    } else {
        runs_replaced(ch, f, r, k - 1) + (if ch[k - 1] is Text { replace_all(ch[k - 1]->text, f, r).1 } else { 0 })
    }
}

/// A text without the pattern is left as it is.
pub proof fn lemma_replace_all_no_match(t: Seq<char>, f: Seq<char>, r: Seq<char>)
    requires !contains(t, f),
    ensures replace_all(t, f, r) == (t, 0nat),
    decreases t.len(),
{
    if f.len() > 0 && t.len() >= f.len() {
        assert(t.take(f.len() as int) != f) by {
            assert(t.subrange(0, f.len() as int) =~= t.take(f.len() as int));
            assert(!occurs_at(t, f, 0));
        }
        assert(!contains(t.skip(1), f)) by {
            if contains(t.skip(1), f) {
                let i = choose|i: int| #[trigger] occurs_at(t.skip(1), f, i);
                assert(t.subrange(i + 1, i + 1 + f.len()) =~= t.skip(1).subrange(i, i + f.len()));
                assert(occurs_at(t, f, i + 1));
            }
        }
        lemma_replace_all_no_match(t.skip(1), f, r);
        assert(seq![t[0]] + t.skip(1) =~= t);
    }
}

/// Case-sensitive replacement in a run of inline nodes: each text run keeps
/// its formatting and gets its text with every occurrence of `f`, found
/// from the left without overlap, replaced by `r`; other nodes stay; the
/// count is the sum over the runs.
pub proof fn law_replace_children_case_sensitive(ch: Seq<InlineV>, f: Seq<char>, r: Seq<char>, k: int)
    requires 0 <= k <= ch.len(),
    ensures
        replace_children(ch, f, r, true, k) is Some,
        ({
            let (ch2, n) = replace_children(ch, f, r, true, k)->Some_0;
            &&& ch2.len() == k
            &&& n == runs_replaced(ch, f, r, k)
            &&& forall|j: int| 0 <= j < k ==> #[trigger] ch2[j] == (match ch[j] {
                InlineV::Text { text, formatting } => InlineV::Text { text: replace_all(text, f, r).0, formatting },
                other => other,
            })
        }),
    decreases k,
{
    if k > 0 {
        law_replace_children_case_sensitive(ch, f, r, k - 1);
        let (done, n) = replace_children(ch, f, r, true, k - 1)->Some_0;
        let (ch2, n2) = replace_children(ch, f, r, true, k)->Some_0;
        assert forall|j: int| 0 <= j < k implies #[trigger] ch2[j] == (match ch[j] {
            InlineV::Text { text, formatting } => InlineV::Text { text: replace_all(text, f, r).0, formatting },
            other => other,
        }) by {
            if j < k - 1 {
                assert(ch2[j] == done[j]);
            }
        }
    }
}

/// Case-sensitive find-and-replace on one node: a paragraph whose text runs
/// hold the pattern gets each run's text replaced (see
/// `law_replace_children_case_sensitive`), a code block that holds it gets
/// its code replaced, and any other node is left alone. A text run without
/// the pattern comes out as it was.
pub proof fn law_replace_node_case_sensitive(n: NodeV, f: Seq<char>, r: Seq<char>, t: Seq<char>)
    ensures
        n is Paragraph && children_hit(n->Paragraph_children, f, true) ==> replace_node(n, f, r, true)
            == Some(Some((NodeV::Paragraph {
                children: (replace_children(n->Paragraph_children, f, r, true, n->Paragraph_children.len() as int)->Some_0).0 },
                (replace_children(n->Paragraph_children, f, r, true, n->Paragraph_children.len() as int)->Some_0).1))),
        n is CodeBlock && contains(n->CodeBlock_code, f) ==> replace_node(n, f, r, true)
            == Some(Some((NodeV::CodeBlock { language: n->CodeBlock_language, code: replace_all(n->CodeBlock_code, f, r).0 },
                replace_all(n->CodeBlock_code, f, r).1))),
        !(n is Paragraph && children_hit(n->Paragraph_children, f, true))
            && !(n is CodeBlock && contains(n->CodeBlock_code, f)) ==> replace_node(n, f, r, true) is None,
        !contains(t, f) ==> replace_all(t, f, r) == (t, 0nat),
{
    if let NodeV::Paragraph { children } = n {
        law_replace_children_case_sensitive(children, f, r, children.len() as int);
    }
    if !contains(t, f) {
        lemma_replace_all_no_match(t, f, r);
    }
}

/// What `next_nl` finds: no line feed before it, and a line feed there
/// unless it is the end.
proof fn lemma_next_nl(s: Seq<char>, j: int)
    requires 0 <= j <= s.len(),
    ensures
        j <= next_nl(s, j) <= s.len(),
        forall|t: int| j <= t < next_nl(s, j) ==> s[t] != '\n',
        next_nl(s, j) < s.len() ==> s[next_nl(s, j)] == '\n',
    decreases s.len() - j,
{
    lemma_next_nl_range(s, j);
    if j < s.len() && s[j] != '\n' {
        lemma_next_nl(s, j + 1);
    }
}

/// The text holds no carriage return.
pub open spec fn no_cr(s: Seq<char>) -> bool {
    forall|t: int| 0 <= t < s.len() ==> s[t] != '\r'
}

/// The text holds no line feed.
pub open spec fn no_nl(s: Seq<char>) -> bool {
    forall|t: int| 0 <= t < s.len() ==> s[t] != '\n'
}

proof fn lemma_join_first(x: Seq<char>, rest: Seq<Seq<char>>)
    requires rest.len() > 0,
    ensures join_lines(seq![x] + rest) == x + seq!['\n'] + join_lines(rest),
    decreases rest.len(),
{
    let ls = seq![x] + rest;
    assert(ls.last() == rest.last());
    if rest.len() == 1 {
        assert(ls.drop_last() =~= seq![x]);
        assert(join_lines(seq![x]) == x);
        assert(join_lines(rest) == rest[0]);
        assert(join_lines(ls) =~= x + seq!['\n'] + join_lines(rest));
    } else {
        assert(ls.drop_last() =~= seq![x] + rest.drop_last());
        lemma_join_first(x, rest.drop_last());
        assert(join_lines(rest) == join_lines(rest.drop_last()) + seq!['\n'] + rest.last());
        assert(join_lines(ls) == join_lines(ls.drop_last()) + seq!['\n'] + ls.last());
        assert(join_lines(ls) =~= x + seq!['\n'] + join_lines(rest));
    }
}

/// Splitting text without carriage returns, and not ending in a line feed,
/// into lines and joining them again gives the text.
proof fn lemma_join_lines_of(s: Seq<char>)
    requires no_cr(s), s.len() == 0 || s.last() != '\n',
    ensures join_lines(lines_of(s)) == s,
    decreases s.len(),
{
    if s.len() > 0 {
        let i = next_nl(s, 0);
        lemma_next_nl(s, 0);
        if i < s.len() {
            let a = s.take(i);
            let b = s.skip(i + 1);
            assert(strip_cr(a) == a) by {
                if a.len() > 0 {
                    assert(a.last() == s[i - 1]);
                    assert(s[i - 1] != '\r');
                }
            }
            assert(b.len() > 0) by { if b.len() == 0 { assert(s.last() == s[i]); } }
            assert(b.last() == s.last());
            lemma_join_lines_of(b);
            assert(lines_of(b).len() > 0);
            assert(lines_of(s) == seq![a] + lines_of(b));
            lemma_join_first(a, lines_of(b));
            assert(a + seq!['\n'] + b =~= s);
        } else {
            assert(strip_cr(s) == s);
            assert(lines_of(s) == seq![s]);
        }
    }
}

/// The lines of text without carriage returns hold neither carriage
/// returns nor line feeds.
proof fn lemma_lines_clean(s: Seq<char>)
    requires no_cr(s),
    ensures forall|k: int| 0 <= k < lines_of(s).len() ==> no_cr(#[trigger] lines_of(s)[k]) && no_nl(lines_of(s)[k]),
    decreases s.len(),
{
    if s.len() > 0 {
        let i = next_nl(s, 0);
        lemma_next_nl(s, 0);
        if i < s.len() {
            let a = s.take(i);
            let b = s.skip(i + 1);
            assert(strip_cr(a) == a) by {
                if a.len() > 0 {
                    assert(a.last() == s[i - 1]);
                    assert(s[i - 1] != '\r');
                }
            }
            lemma_lines_clean(b);
            assert forall|k: int| 0 <= k < lines_of(s).len() implies no_cr(#[trigger] lines_of(s)[k]) && no_nl(lines_of(s)[k]) by {
                if k > 0 {
                    assert(lines_of(s)[k] == lines_of(b)[k - 1]);
                }
            }
        } else {
            assert(strip_cr(s) == s);
        }
    }
}

/// Joining lines that hold no line feed or carriage return, the last one
/// not empty, and splitting again gives the lines.
proof fn lemma_lines_of_join(ls: Seq<Seq<char>>)
    requires
        ls.len() > 0,
        ls.last().len() > 0,
        forall|k: int| 0 <= k < ls.len() ==> no_nl(#[trigger] ls[k]) && no_cr(ls[k]),
    ensures lines_of(join_lines(ls)) == ls,
    decreases ls.len(),
{
    let x = ls[0];
    assert(no_nl(x) && no_cr(x));
    if ls.len() == 1 {
        assert(join_lines(ls) == x);
        lemma_next_nl(x, 0);
        assert(next_nl(x, 0) == x.len()) by { lemma_next_nl_range(x, 0); }
        assert(strip_cr(x) == x);
        assert(lines_of(x) =~= ls);
    } else {
        let rest = ls.skip(1);
        assert(ls =~= seq![x] + rest);
        lemma_join_first(x, rest);
        assert forall|k: int| 0 <= k < rest.len() implies no_nl(#[trigger] rest[k]) && no_cr(rest[k]) by {
            assert(rest[k] == ls[k + 1]);
        }
        lemma_lines_of_join(rest);
        let j = join_lines(ls);
        assert(j =~= x + seq!['\n'] + join_lines(rest));
        assert forall|t: int| 0 <= t < x.len() implies j[t] != '\n' by { assert(j[t] == x[t]); }
        lemma_next_nl(j, 0);
        lemma_next_nl_range(j, 0);
        if next_nl(j, 0) < x.len() {
            assert(j[next_nl(j, 0)] == x[next_nl(j, 0)]);
        }
        assert(j[x.len() as int] == '\n');
        assert(next_nl(j, 0) == x.len());
        assert(j.take(x.len() as int) =~= x);
        assert(j.skip((x.len() + 1) as int) =~= join_lines(rest));
        assert(strip_cr(x) == x) by { if x.len() > 0 { assert(x[x.len() - 1] != '\r'); } }
        assert(lines_of(j) =~= seq![x] + rest);
    }
}

/// Dedenting a line indented by four spaces gives it back.
proof fn lemma_dedent_indent(l: Seq<char>)
    ensures dedent_line(indent_line(l)) == l,
{
    let m = indent_line(l);
    assert(m.drop_first().drop_first().drop_first().drop_first() =~= l);
    let d1 = m.drop_first();
    let d2 = d1.drop_first();
    let d3 = d2.drop_first();
    let d4 = d3.drop_first();
    assert(leading_spaces(d4, 0) == 0);
    assert(d3[0] == ' ' && d2[0] == ' ' && d1[0] == ' ' && m[0] == ' ');
    assert(leading_spaces(d3, 1) == 1);
    assert(leading_spaces(d2, 2) == 2);
    assert(leading_spaces(d1, 3) == 3);
    assert(leading_spaces(m, 4) == 4);
    assert(m.skip(4) =~= l);
}

/// Unindenting code that was just indented gives it back, for code without
/// carriage returns that does not end in a line feed.
pub proof fn law_code_unindent_undoes_indent(code: Seq<char>)
    requires no_cr(code), code.len() == 0 || code.last() != '\n',
    ensures shift_code(shift_code(code, IndentDirectionSel::Increase), IndentDirectionSel::Decrease) == code,
{
    let ls = lines_of(code);
    let ind = ls.map_values(|l: Seq<char>| indent_line(l));
    lemma_join_lines_of(code);
    if ls.len() == 0 {
        assert(ind =~= Seq::<Seq<char>>::empty());
        assert(join_lines(ind) =~= Seq::<char>::empty());
        assert(lines_of(Seq::<char>::empty()) =~= Seq::<Seq<char>>::empty());
        assert(Seq::<Seq<char>>::empty().map_values(|l: Seq<char>| dedent_line(l)) =~= Seq::<Seq<char>>::empty());
    } else {
        lemma_lines_clean(code);
        assert forall|k: int| 0 <= k < ind.len() implies no_nl(#[trigger] ind[k]) && no_cr(ind[k]) by {
            assert(no_nl(ls[k]) && no_cr(ls[k]));
            assert(ind[k] == seq![' ', ' ', ' ', ' '] + ls[k]);
        }
        assert(ind.last().len() > 0);
        lemma_lines_of_join(ind);
        let back = ind.map_values(|l: Seq<char>| dedent_line(l));
        assert forall|k: int| 0 <= k < back.len() implies #[trigger] back[k] == ls[k] by {
            lemma_dedent_indent(ls[k]);
        }
        assert(back =~= ls);
    }
}

proof fn lemma_no_merge_marks(nodes: Seq<NodeV>, st: int, en: int, k: int)
    requires forall|i: int| 0 <= i < nodes.len() ==> !(#[trigger] nodes[i] is List),
    ensures merge_marks(nodes, st, en, k) == Seq::<usize>::empty(),
    decreases k,
{
    if k > 0 {
        lemma_no_merge_marks(nodes, st, en, k - 1);
        let idx = k - 1;
        if 1 <= idx < nodes.len() {
            assert(!(nodes[idx] is List));
        }
    }
}

proof fn lemma_drop_no_empty_lists(ns: Seq<NodeV>)
    requires forall|i: int| 0 <= i < ns.len() ==> !(#[trigger] ns[i] is List),
    ensures drop_empty_lists(ns) == ns,
    decreases ns.len(),
{
    if ns.len() > 0 {
        assert forall|i: int| 0 <= i < ns.drop_last().len() implies !(#[trigger] ns.drop_last()[i] is List) by {
            assert(ns.drop_last()[i] == ns[i]);
        }
        lemma_drop_no_empty_lists(ns.drop_last());
        assert(!(ns[ns.len() - 1] is List));
        assert(ns.drop_last().push(ns.last()) =~= ns);
    }
}

/// Unindenting the same nodes right after indenting them gives the nodes
/// back, when the document holds no list (indenting merges lists, and
/// unindenting does not split them) and each code block in the range has
/// no carriage return and does not end in a line feed (its lines are split
/// as `str::lines` splits them).
pub proof fn law_unindent_undoes_indent(nodes: Seq<NodeV>, st: int, en: int)
    requires
        forall|i: int| 0 <= i < nodes.len() ==> !(#[trigger] nodes[i] is List),
        forall|i: int| st <= i <= en && 0 <= i < nodes.len() && #[trigger] nodes[i] is CodeBlock
            ==> no_cr(nodes[i]->CodeBlock_code)
                && (nodes[i]->CodeBlock_code.len() == 0 || nodes[i]->CodeBlock_code.last() != '\n'),
    ensures
        indent_nodes(indent_nodes(nodes, st, en, IndentDirectionSel::Increase), st, en, IndentDirectionSel::Decrease) == nodes,
{
    let ms = merge_marks(nodes, st, en, nodes.len() as int);
    lemma_no_merge_marks(nodes, st, en, nodes.len() as int);
    assert(merge_pass(nodes, ms, 0) == nodes);
    let shifted = shift_pass(nodes, st, en, ms, IndentDirectionSel::Increase);
    assert forall|i: int| 0 <= i < shifted.len() implies !(#[trigger] shifted[i] is List) by {
        assert(!(nodes[i] is List));
    }
    lemma_drop_no_empty_lists(shifted);
    let back = shift_pass(shifted, st, en, Seq::<usize>::empty(), IndentDirectionSel::Decrease);
    assert forall|i: int| 0 <= i < nodes.len() implies #[trigger] back[i] == nodes[i] by {
        assert(!ms.contains(i as usize));
        assert(!Seq::<usize>::empty().contains(i as usize));
        if st <= i <= en {
            let n = nodes[i];
            match n {
                NodeV::BlockQuote { children } => {
                    let m = NodeV::BlockQuote { children: seq![NodeV::BlockQuote { children }] };
                    assert(shift_node(n, IndentDirectionSel::Increase) == m);
                    assert(seq![NodeV::BlockQuote { children }][0] is BlockQuote);
                },
                NodeV::CodeBlock { language, code } => {
                    law_code_unindent_undoes_indent(code);
                },
                _ => {},
            }
        }
    }
    assert(back =~= nodes);
}

/// The character indices of two byte offsets where characters start come
/// in the same order as the offsets, within the text.
proof fn lemma_char_order(t: Seq<char>, a: int, b: int)
    requires is_boundary(t, a), is_boundary(t, b), a <= b,
    ensures
        0 <= char_at_byte(t, a) <= char_at_byte(t, b) <= t.len(),
        blen(t.take(char_at_byte(t, a))) == a,
        blen(t.take(char_at_byte(t, b))) == b,
{
    let ca = char_at_byte(t, a);
    let cb = char_at_byte(t, b);
    if ca > cb {
        lemma_blen_take_mono(t, cb, ca);
    }
}

proof fn lemma_format_child_text(s: Seq<InlineV>, j: int, st: int, en: int, f: crate::inline::TextFormatting)
    requires 0 <= j < s.len(), st < en, format_ok(s, st, en),
    ensures texts_of(format_child(s, j, st, en, f)) == texts_of(seq![s[j]]),
{
    assert(seq![s[j]].drop_last() =~= Seq::<InlineV>::empty());
    assert(texts_of(Seq::<InlineV>::empty()) =~= Seq::<char>::empty());
    if overlaps(s, j, st, en) {
        let text = s[j]->text;
        let fmt = s[j]->formatting;
        let start = start_of(s, j);
        let (a, b) = piece_bounds(s, j, st, en);
        crate::text::lemma_blen_nonneg(text);
        assert(a <= b);
        lemma_char_order(text, a, b);
        let ca = char_at_byte(text, a);
        let cb = char_at_byte(text, b);
        if a == 0 {
            crate::text::lemma_blen_take_zero(text);
        }
        if b == blen(text) {
            crate::text::lemma_blen_take_full(text);
        }
        let before = if a > 0 { seq![InlineV::Text { text: text.take(ca), formatting: fmt }] } else { Seq::<InlineV>::empty() };
        let mid = seq![InlineV::Text { text: text.subrange(ca, cb), formatting: merge_fmt(fmt, f) }];
        let after = if b < blen(text) { seq![InlineV::Text { text: text.skip(cb), formatting: fmt }] } else { Seq::<InlineV>::empty() };
        assert(format_child(s, j, st, en, f) == before + mid + after);
        lemma_texts_of_append(before + mid, after);
        lemma_texts_of_append(before, mid);
        assert(mid.drop_last() =~= Seq::<InlineV>::empty());
        if a > 0 {
            assert(before.drop_last() =~= Seq::<InlineV>::empty());
            assert(texts_of(before) =~= text.take(ca));
        } else {
            assert(ca == 0);
            assert(texts_of(before) =~= text.take(ca));
        }
        if b < blen(text) {
            assert(after.drop_last() =~= Seq::<InlineV>::empty());
            assert(texts_of(after) =~= text.skip(cb));
        } else {
            assert(cb == text.len());
            assert(texts_of(after) =~= text.skip(cb));
        }
        assert(texts_of(mid) =~= text.subrange(ca, cb));
        assert(text.take(ca) + text.subrange(ca, cb) + text.skip(cb) =~= text);
    }
}

/// Formatting a byte range keeps the text: the joined text of the children
/// after formatting is the joined text before. (Each text run that the
/// range touches is cut into the part before the range and the part after
/// it, which keep the run's formatting, and the part inside, which gets the
/// run's formatting combined with the new one; see `format_run`.)
pub proof fn law_format_text_keeps_text(s: Seq<InlineV>, st: int, en: int, f: crate::inline::TextFormatting, k: int)
    requires 0 <= k <= s.len(), st < en, format_ok(s, st, en),
    ensures texts_of(format_all(s, st, en, f, k)) == texts_of(s.take(k)),
    decreases k,
{
    if k == 0 {
        assert(s.take(0) =~= Seq::<InlineV>::empty());
    } else {
        law_format_text_keeps_text(s, st, en, f, k - 1);
        lemma_format_child_text(s, k - 1, st, en, f);
        lemma_texts_of_append(format_all(s, st, en, f, k - 1), format_child(s, k - 1, st, en, f));
        assert(s.take(k) =~= s.take(k - 1) + seq![s[k - 1]]);
        lemma_texts_of_append(s.take(k - 1), seq![s[k - 1]]);
    }
}

/// `v` held between `lo` and `hi`.
pub open spec fn clamp(v: int, lo: int, hi: int) -> int {
    if v < lo { lo } else if v > hi { hi } else { v }
}

/// A byte offset where a character of `ss` starts, seen from a run `x`
/// that takes up characters `n` to `n + x.len()` of `ss` (and bytes from
/// `blen(ss.take(n))`): clamped to the run, it is where a character of the
/// run starts, at the clamped character index.
proof fn lemma_local_offset(ss: Seq<char>, x: Seq<char>, n: int, off: int)
    requires
        0 <= n, n + x.len() <= ss.len(),
        ss.subrange(n, n + x.len()) == x,
        is_boundary(ss, off),
    ensures ({
        let b0 = blen(ss.take(n));
        let c = char_at_byte(ss, off);
        let lo = clamp(off - b0, 0, blen(x));
        &&& is_boundary(x, lo)
        &&& char_at_byte(x, lo) == clamp(c - n, 0, x.len() as int)
        &&& (off <= b0 ==> c <= n)
        &&& (off >= b0 + blen(x) ==> c >= n + x.len())
    }),
{
    let b0 = blen(ss.take(n));
    let c = char_at_byte(ss, off);
    let m = n + x.len();
    assert(ss.take(m) =~= ss.take(n) + x);
    lemma_blen_concat(ss.take(n), x);
    crate::text::lemma_blen_nonneg(x);
    if c <= n {
        if c < n { lemma_blen_take_mono(ss, c, n); }
        crate::text::lemma_blen_take_zero(x);
    } else if c >= m {
        lemma_blen_take_mono(ss, m, c);
        crate::text::lemma_blen_take_full(x);
    } else {
        let t = c - n;
        assert(ss.take(c) =~= ss.take(n) + x.take(t));
        lemma_blen_concat(ss.take(n), x.take(t));
        lemma_blen_take_mono(x, t, x.len() as int);
        assert(x.take(x.len() as int) =~= x);
        lemma_char_at_byte(x, t);
    }
    if off <= b0 && c > n {
        lemma_blen_take_mono(ss, n, c);
    }
    if off >= b0 + blen(x) && c < m {
        lemma_blen_take_mono(ss, c, m);
    }
}

/// What one text run keeps when `[s, e)` is deleted, in terms of the
/// character indices of `s` and `e` in the whole text.
proof fn lemma_kept_piece_text(ch: Seq<InlineV>, j: int, s: int, e: int, ss: Seq<char>, n: int)
    requires
        0 <= j < ch.len(),
        ch[j] is Text,
        s < e,
        0 <= n, n + ch[j]->text.len() <= ss.len(),
        ss.subrange(n, n + ch[j]->text.len()) == ch[j]->text,
        blen(ss.take(n)) == start_of(ch, j),
        is_boundary(ss, s),
        is_boundary(ss, e),
    ensures
        texts_of(kept_piece(ch, j, s, e)) == ch[j]->text.take(clamp(char_at_byte(ss, s) - n, 0, ch[j]->text.len() as int))
            + ch[j]->text.skip(clamp(char_at_byte(ss, e) - n, 0, ch[j]->text.len() as int)),
        piece_taken(ch, j, s, e) ==> {
            &&& is_boundary(ch[j]->text, piece_bounds(ch, j, s, e).0)
            &&& is_boundary(ch[j]->text, piece_bounds(ch, j, s, e).1)
        },
{
    let x = ch[j]->text;
    lemma_local_offset(ss, x, n, s);
    lemma_local_offset(ss, x, n, e);
    lemma_char_order(ss, s, e);
    let la = clamp(char_at_byte(ss, s) - n, 0, x.len() as int);
    let lb = clamp(char_at_byte(ss, e) - n, 0, x.len() as int);
    crate::text::lemma_blen_nonneg(x);
    let kp = kept_piece(ch, j, s, e);
    assert(texts_of(Seq::<InlineV>::empty()) =~= Seq::<char>::empty());
    if piece_taken(ch, j, s, e) {
        let rest = x.take(la) + x.skip(lb);
        if rest.len() > 0 {
            let r1 = seq![InlineV::Text { text: rest, formatting: ch[j]->formatting }];
            assert(r1.drop_last() =~= Seq::<InlineV>::empty());
            assert(texts_of(r1) =~= rest);
        } else {
            assert(rest =~= Seq::<char>::empty());
        }
    } else {
        assert(seq![ch[j]].drop_last() =~= Seq::<InlineV>::empty());
        assert(texts_of(seq![ch[j]]) =~= x);
        if e <= start_of(ch, j) {
            assert(la == 0 && lb == 0);
        } else if s >= start_of(ch, j) + blen(x) {
            assert(la == x.len() && lb == x.len());
        } else {
            assert(x.len() == 0);
        }
        assert(x.take(la) + x.skip(lb) =~= x);
    }
}

/// Cutting characters `cs` to `ce` out of the first `n + x.len()`
/// characters is cutting them out of the first `n` and then out of `x`.
proof fn lemma_cut_step(ss: Seq<char>, x: Seq<char>, n: int, cs: int, ce: int)
    requires
        0 <= n, n + x.len() <= ss.len(),
        ss.subrange(n, n + x.len()) == x,
        0 <= cs <= ce <= ss.len(),
    ensures ({
        let m = n + x.len();
        ss.take(clamp(cs, 0, m)) + ss.subrange(clamp(ce, 0, m), m)
            == ss.take(clamp(cs, 0, n)) + ss.subrange(clamp(ce, 0, n), n)
                + (x.take(clamp(cs - n, 0, x.len() as int)) + x.skip(clamp(ce - n, 0, x.len() as int)))
    }),
{
    let m = n + x.len();
    let la = clamp(cs - n, 0, x.len() as int);
    let lb = clamp(ce - n, 0, x.len() as int);
    assert(x.take(la) =~= ss.subrange(n, n + la));
    assert(x.skip(lb) =~= ss.subrange(n + lb, m));
    if cs <= n {
        if ce <= n {
            assert(ss.subrange(clamp(ce, 0, m), m) =~= ss.subrange(ce, n) + ss.subrange(n, m));
        } else {
            assert(ss.subrange(clamp(ce, 0, m), m) =~= ss.subrange(n + lb, m));
        }
    } else {
        assert(ss.take(clamp(cs, 0, m)) =~= ss.take(n) + ss.subrange(n, n + la));
    }
    assert(ss.take(clamp(cs, 0, m)) + ss.subrange(clamp(ce, 0, m), m)
        =~= ss.take(clamp(cs, 0, n)) + ss.subrange(clamp(ce, 0, n), n) + (x.take(la) + x.skip(lb)));
}

/// The joined text of the first `k` children after deleting `[s, e)`:
/// the joined text of those children without the characters from `cs` to
/// `ce` of the whole.
proof fn lemma_kept_run_text(ch: Seq<InlineV>, s: int, e: int, k: int)
    requires
        all_text(ch),
        0 <= k <= ch.len(),
        s < e,
        is_boundary(texts_of(ch), s),
        is_boundary(texts_of(ch), e),
    ensures ({
        let ss = texts_of(ch);
        let n = texts_of(ch.take(k)).len();
        let cs = char_at_byte(ss, s);
        let ce = char_at_byte(ss, e);
        &&& n <= ss.len()
        &&& texts_of(ch.take(k)) == ss.take(n as int)
        &&& texts_of(kept_run(ch, s, e, k)) == ss.take(clamp(cs, 0, n as int)) + ss.subrange(clamp(ce, 0, n as int), n as int)
        &&& forall|j: int| 0 <= j < k && #[trigger] piece_taken(ch, j, s, e) ==> {
            &&& is_boundary(ch[j]->text, piece_bounds(ch, j, s, e).0)
            &&& is_boundary(ch[j]->text, piece_bounds(ch, j, s, e).1)
        }
    }),
    decreases k,
{
    let ss = texts_of(ch);
    let cs = char_at_byte(ss, s);
    let ce = char_at_byte(ss, e);
    lemma_char_order(ss, s, e);
    if k == 0 {
        assert(ch.take(0) =~= Seq::<InlineV>::empty());
        assert(texts_of(Seq::<InlineV>::empty()) =~= Seq::<char>::empty());
        assert(ss.take(0) =~= Seq::<char>::empty());
        assert(ss.subrange(0, 0) =~= Seq::<char>::empty());
    } else {
        lemma_kept_run_text(ch, s, e, k - 1);
        let p = texts_of(ch.take(k - 1));
        let n = p.len() as int;
        let x = ch[k - 1]->text;
        assert(ch[k - 1] is Text);
        assert(ch.take(k) =~= ch.take(k - 1) + seq![ch[k - 1]]);
        lemma_texts_of_append(ch.take(k - 1), seq![ch[k - 1]]);
        assert(seq![ch[k - 1]].drop_last() =~= Seq::<InlineV>::empty());
        assert(texts_of(Seq::<InlineV>::empty()) =~= Seq::<char>::empty());
        assert(texts_of(seq![ch[k - 1]]) =~= x);
        assert(texts_of(ch.take(k)) =~= p + x);
        // The whole text starts with the first k runs.
        assert(ch =~= ch.take(k) + ch.skip(k));
        lemma_texts_of_append(ch.take(k), ch.skip(k));
        assert(ss =~= p + x + texts_of(ch.skip(k)));
        let m = n + x.len();
        assert(ss.take(m) =~= p + x);
        assert(ss.subrange(n, m) =~= x);
        assert(all_text(ch.take(k - 1))) by {
            assert forall|i: int| 0 <= i < ch.take(k - 1).len() implies #[trigger] ch.take(k - 1)[i] is Text by {
                assert(ch.take(k - 1)[i] == ch[i]);
            }
        }
        lemma_texts_of_len(ch.take(k - 1));
        assert(start_of(ch, k - 1) == blen(p));
        assert(ss.take(n) =~= p);
        lemma_kept_piece_text(ch, k - 1, s, e, ss, n);
        lemma_texts_of_append(kept_run(ch, s, e, k - 1), kept_piece(ch, k - 1, s, e));
        lemma_cut_step(ss, x, n, cs, ce);
    }
}

/// Deleting a byte range from a paragraph of text runs removes exactly
/// those bytes from its joined text: the text before the range followed by
/// the text after it. The range starts and ends where characters of the
/// joined text start; the command's own check on each run then holds.
pub proof fn law_delete_text_joined(ch: Seq<InlineV>, s: int, e: int)
    requires
        all_text(ch),
        s < e,
        is_boundary(texts_of(ch), s),
        is_boundary(texts_of(ch), e),
    ensures
        pieces_ok(ch, s, e),
        texts_of(kept_run(ch, s, e, ch.len() as int)) == texts_of(ch).take(char_at_byte(texts_of(ch), s))
            + texts_of(ch).skip(char_at_byte(texts_of(ch), e)),
{
    lemma_kept_run_text(ch, s, e, ch.len() as int);
    assert(ch.take(ch.len() as int) =~= ch);
    let ss = texts_of(ch);
    lemma_char_order(ss, s, e);
    assert(ss.take(ss.len() as int) =~= ss);
    assert(ss.subrange(char_at_byte(ss, e), ss.len() as int) =~= ss.skip(char_at_byte(ss, e)));
}

/// The inline nodes with every text run's text replaced, case-sensitively.
pub open spec fn runs_with_replaced(ch: Seq<InlineV>, f: Seq<char>, r: Seq<char>) -> Seq<InlineV> {
    Seq::new(ch.len(), |j: int| match ch[j] {
        InlineV::Text { text, formatting } => InlineV::Text { text: replace_all(text, f, r).0, formatting },
        other => other,
    })
}

/// A node after a case-sensitive replace, with the number of replacements:
/// a paragraph gets each text run replaced, a code block its code, and
/// any other node stays.
pub open spec fn node_with_replaced(n: NodeV, f: Seq<char>, r: Seq<char>) -> (NodeV, nat) {
    match n {
        NodeV::Paragraph { children } => (NodeV::Paragraph { children: runs_with_replaced(children, f, r) },
            runs_replaced(children, f, r, children.len() as int)),
        NodeV::CodeBlock { language, code } => (NodeV::CodeBlock { language, code: replace_all(code, f, r).0 },
            replace_all(code, f, r).1),
        _ => (n, 0),
    }
}

/// The number of case-sensitive replacements in the first `k` nodes.
pub open spec fn nodes_replaced(nodes: Seq<NodeV>, f: Seq<char>, r: Seq<char>, k: int) -> nat
    decreases k,
{
    if k <= 0 { 0 } else { nodes_replaced(nodes, f, r, k - 1) + node_with_replaced(nodes[k - 1], f, r).1 }
}

/// A run of inline nodes without the pattern in any text run is left as
/// it is, with no replacement counted.
proof fn lemma_runs_no_match(ch: Seq<InlineV>, f: Seq<char>, r: Seq<char>, k: int)
    requires
        0 <= k <= ch.len(),
        !children_hit(ch, f, true),
    ensures
        runs_replaced(ch, f, r, k) == 0,
        forall|j: int| 0 <= j < ch.len() ==> #[trigger] runs_with_replaced(ch, f, r)[j] == ch[j],
    decreases k,
{
    if k > 0 {
        lemma_runs_no_match(ch, f, r, k - 1);
        if ch[k - 1] is Text {
            assert(!text_hit(ch[k - 1]->text, f, true));
            lemma_replace_all_no_match(ch[k - 1]->text, f, r);
        }
    }
    assert forall|j: int| 0 <= j < ch.len() implies #[trigger] runs_with_replaced(ch, f, r)[j] == ch[j] by {
        if ch[j] is Text {
            assert(!text_hit(ch[j]->text, f, true));
            lemma_replace_all_no_match(ch[j]->text, f, r);
        }
    }
}

/// What a case-sensitive replace does to one node, whether or not it holds
/// the pattern.
proof fn lemma_node_replaced(n: NodeV, f: Seq<char>, r: Seq<char>)
    ensures
        replace_node(n, f, r, true) is None ==> node_with_replaced(n, f, r) == (n, 0nat),
        replace_node(n, f, r, true) matches Some(Some((m, c))) ==> node_with_replaced(n, f, r) == (m, c),
        !(replace_node(n, f, r, true) matches Some(None)),
{
    match n {
        NodeV::Paragraph { children } => {
            law_replace_children_case_sensitive(children, f, r, children.len() as int);
            let ch2 = (replace_children(children, f, r, true, children.len() as int)->Some_0).0;
            assert(ch2 =~= runs_with_replaced(children, f, r));
            if !children_hit(children, f, true) {
                lemma_runs_no_match(children, f, r, children.len() as int);
                assert(runs_with_replaced(children, f, r) =~= children);
            }
        },
        NodeV::CodeBlock { language, code } => {
            if !contains(code, f) {
                lemma_replace_all_no_match(code, f, r);
            }
        },
        _ => {},
    }
}

/// Case-sensitive find-and-replace over the document: each node becomes
/// `node_with_replaced` of it (text runs of paragraphs and the code of code
/// blocks get every occurrence of `find`, from the left without overlap,
/// replaced; other nodes stay), and the count is the sum over the nodes.
pub proof fn law_find_replace_case_sensitive(nodes: Seq<NodeV>, f: Seq<char>, r: Seq<char>, k: int)
    requires 0 <= k <= nodes.len(),
    ensures
        replace_nodes(nodes, f, r, true, k) is Some,
        ({
            let (ns, n, saved) = replace_nodes(nodes, f, r, true, k)->Some_0;
            &&& ns.len() == nodes.len()
            &&& n == nodes_replaced(nodes, f, r, k)
            &&& forall|i: int| 0 <= i < k ==> #[trigger] ns[i] == node_with_replaced(nodes[i], f, r).0
            &&& forall|i: int| k <= i < nodes.len() ==> #[trigger] ns[i] == nodes[i]
        }),
    decreases k,
{
    if k > 0 {
        law_find_replace_case_sensitive(nodes, f, r, k - 1);
        lemma_node_replaced(nodes[k - 1], f, r);
    }
}

/// Each text run ends no later than the whole run of inline nodes.
proof fn lemma_start_of_bound(s: Seq<InlineV>, j: int)
    requires all_text(s), 0 <= j <= s.len(),
    ensures start_of(s, j) <= inlines_len(s),
    decreases s.len() - j,
{
    if j < s.len() {
        lemma_start_of_bound(s, j + 1);
        lemma_start_of_step(s, j);
        assert(s[j] is Text);
        crate::text::lemma_blen_nonneg(s[j]->text);
    } else {
        assert(s.take(j) =~= s);
    }
}

/// Inserting text into a paragraph or heading of text runs: at a byte
/// offset where a character of the joined text starts (or its end), the
/// insert runs, the node keeps its kind and level, its joined text becomes
/// the text before the offset, the inserted text and the text after it,
/// and the other nodes stay; past the end, the insert finds no place
/// (the command then fails with `InvalidRange`).
pub proof fn law_insert_text_node(d: DocumentV, i: int, p: int, t: Seq<char>)
    requires
        0 <= i < d.nodes.len(),
        has_inlines(d.nodes[i]),
        all_text(inlines_of(d.nodes[i])),
        0 <= p,
    ensures ({
        let n = d.nodes[i];
        let ss = texts_of(inlines_of(n));
        &&& is_boundary(ss, p) ==> {
            &&& insert_cmd_ok(inlines_of(n), p)
            &&& insert_cmd_result(inlines_of(n), p, t) is Some
            &&& {
                let m = with_inlines(n, insert_cmd_result(inlines_of(n), p, t)->Some_0);
                let d2 = with_node_at(d, i, m);
                &&& d2.nodes.len() == d.nodes.len()
                &&& forall|j: int| 0 <= j < d.nodes.len() && j != i ==> #[trigger] d2.nodes[j] == d.nodes[j]
                &&& (n is Heading ==> m is Heading && m->Heading_level == n->Heading_level)
                &&& (n is Paragraph ==> m is Paragraph)
                &&& texts_of(inlines_of(m)) == ss.take(char_at_byte(ss, p)) + t + ss.skip(char_at_byte(ss, p))
            }
        }
        &&& p > blen(ss) ==> insert_cmd_result(inlines_of(n), p, t) is None
    }),
{
    let n = d.nodes[i];
    let s = inlines_of(n);
    let ss = texts_of(s);
    if is_boundary(ss, p) {
        law_insert_text_joined(s, p, t);
    }
    if p > blen(ss) {
        lemma_texts_of_len(s);
        lemma_receiver(s, p, 0);
        let j = receiver_from(s, p, 0);
        if j < s.len() {
            lemma_start_of_bound(s, j + 1);
            lemma_start_of_step(s, j);
            assert(s[j] is Text);
        }
    }
}

/// Deleting a byte range from a paragraph of text runs, with the range
/// starting and ending where characters of the joined text start: the
/// delete runs, the node stays a paragraph whose joined text is the text
/// before the range followed by the text after it, and the other nodes
/// stay.
pub proof fn law_delete_text_node(d: DocumentV, i: int, s: int, e: int)
    requires
        0 <= i < d.nodes.len(),
        d.nodes[i] is Paragraph,
        all_text(d.nodes[i]->Paragraph_children),
        s < e,
        is_boundary(texts_of(d.nodes[i]->Paragraph_children), s),
        is_boundary(texts_of(d.nodes[i]->Paragraph_children), e),
    ensures ({
        let ch = d.nodes[i]->Paragraph_children;
        let ss = texts_of(ch);
        &&& node_selection_ok(d.nodes[i], s, e)
        &&& delete_text_result(d, i, s, e) is Ok
        &&& {
            let d2 = (delete_text_result(d, i, s, e)->Ok_0).0;
            &&& d2.nodes.len() == d.nodes.len()
            &&& forall|j: int| 0 <= j < d.nodes.len() && j != i ==> #[trigger] d2.nodes[j] == d.nodes[j]
            &&& d2.nodes[i] is Paragraph
            &&& texts_of(d2.nodes[i]->Paragraph_children) == ss.take(char_at_byte(ss, s)) + ss.skip(char_at_byte(ss, e))
        }
    }),
{
    law_delete_text_joined(d.nodes[i]->Paragraph_children, s, e);
}

/// Formatting a byte range of a paragraph or heading keeps the node's
/// kind, level and joined text, and the other nodes.
pub proof fn law_format_text_node(d: DocumentV, i: int, st: int, en: int, f: crate::inline::TextFormatting)
    requires
        0 <= i < d.nodes.len(),
        has_inlines(d.nodes[i]),
        st < en,
        format_ok(inlines_of(d.nodes[i]), st, en),
    ensures ({
        let n = d.nodes[i];
        let ch = inlines_of(n);
        let m = with_inlines(n, format_all(ch, st, en, f, ch.len() as int));
        let d2 = with_node_at(d, i, m);
        &&& d2.nodes.len() == d.nodes.len()
        &&& forall|j: int| 0 <= j < d.nodes.len() && j != i ==> #[trigger] d2.nodes[j] == d.nodes[j]
        &&& (n is Heading ==> m is Heading && m->Heading_level == n->Heading_level)
        &&& (n is Paragraph ==> m is Paragraph)
        &&& texts_of(inlines_of(m)) == texts_of(ch)
    }),
{
    let ch = inlines_of(d.nodes[i]);
    law_format_text_keeps_text(ch, st, en, f, ch.len() as int);
    assert(ch.take(ch.len() as int) =~= ch);
}

/// Copying a selection from one node to a later one copies those nodes,
/// from the first to the last; without a selection nothing is copied.
pub proof fn law_copy_node_range(d: DocumentV)
    ensures
        d.selection is None ==> copied_content(d) == Seq::<NodeV>::empty(),
        d.selection is Some && d.selection->0.start.path.len() > 0 && d.selection->0.end.path.len() > 0
            && d.selection->0.start.path[0] < d.selection->0.end.path[0] && d.selection->0.end.path[0] < d.nodes.len()
            ==> copied_content(d) == d.nodes.subrange(d.selection->0.start.path[0] as int, d.selection->0.end.path[0] + 1),
{
}

/// A table operation fails exactly when the row, column or cell it names
/// does not exist, and then with `IndexOutOfBounds`: removing a row or a
/// column, setting an alignment, or changing a cell. Adding a row or a
/// column and setting the table's properties always succeed.
pub proof fn law_table_op_errors(t: TableV, op: TableOperation)
    ensures
        table_op_result(t, op) is Err <==> match op {
            TableOperation::RemoveRow(index) => index >= t.rows.len(),
            TableOperation::RemoveColumn(index) => index >= t.alignments.len(),
            TableOperation::SetAlignment { column, .. } => column >= t.alignments.len(),
            TableOperation::SetCell { row, column, is_header, .. } => !cell_exists(t, row, column, is_header),
            TableOperation::SetCellBackground { row, column, is_header, .. } => !cell_exists(t, row, column, is_header),
            TableOperation::SetCellStyle { row, column, is_header, .. } => !cell_exists(t, row, column, is_header),
            TableOperation::SetCellSpan { row, column, is_header, .. } => !cell_exists(t, row, column, is_header),
            _ => false,
        },
        table_op_result(t, op) is Err ==> table_op_result(t, op) == Err::<TableV, EditError>(EditError::IndexOutOfBounds),
{
}

/// Sorting a task list's items: the result is a rearrangement of the
/// items, in order by the criteria, with items that sort alike kept in the
/// order they came in.
pub proof fn law_sort_task_items(items: Seq<ListItemV>, crit: SortCriteria)
    ensures
        stable_sorted(items, crit, items.len() as int).to_multiset() == items.to_multiset(),
        stable_sorted(items, crit, items.len() as int).len() == items.len(),
        items_in_order(stable_sorted(items, crit, items.len() as int), crit),
        forall|z: ListItemV| #[trigger] stable_sorted(items, crit, items.len() as int).filter(alike_to(z, crit))
            == items.filter(alike_to(z, crit)),
{
    let k = items.len() as int;
    assert(items.take(k) =~= items);
    law_sort_keeps_items(items, crit, k);
    law_sort_orders_items(items, crit, k);
    assert forall|z: ListItemV| #[trigger] stable_sorted(items, crit, k).filter(alike_to(z, crit))
        == items.filter(alike_to(z, crit)) by {
        law_sort_is_stable(items, crit, z, k);
    }
}

/// Toggling a task twice gives back a state that was set.
pub proof fn law_toggle_twice(b: bool)
    ensures toggled(toggled(Some(b))) == Some(b),
{
}

/// Sorting keeps the items: the sorted items are a rearrangement of them.
pub proof fn law_sort_keeps_items(items: Seq<ListItemV>, crit: SortCriteria, k: int)
    requires 0 <= k <= items.len(),
    ensures stable_sorted(items, crit, k).to_multiset() == items.take(k).to_multiset(),
    decreases k,
{
    broadcast use vstd::seq_lib::group_to_multiset_ensures;
    if k > 0 {
        law_sort_keeps_items(items, crit, k - 1);
        lemma_insert_sorted_multiset(stable_sorted(items, crit, k - 1), items[k - 1], crit);
        assert(items.take(k) =~= items.take(k - 1).push(items[k - 1]));
    } else {
        assert(items.take(0) =~= Seq::<ListItemV>::empty());
    }
}

proof fn lemma_insert_sorted_multiset(s: Seq<ListItemV>, x: ListItemV, crit: SortCriteria)
    ensures insert_sorted(s, x, crit).to_multiset() == s.to_multiset().insert(x),
    decreases s.len(),
{
    broadcast use vstd::seq_lib::group_to_multiset_ensures;
    broadcast use vstd::multiset::group_multiset_axioms;
    if s.len() == 0 {
        assert(seq![x] =~= Seq::<ListItemV>::empty().push(x));
    } else if sorts_before(x, s.last(), crit) {
        lemma_insert_sorted_multiset(s.drop_last(), x, crit);
        assert(s =~= s.drop_last().push(s.last()));
        assert(insert_sorted(s, x, crit).to_multiset() =~= s.to_multiset().insert(x));
    }
}


/// `a` may come before `b`: `b` does not sort strictly before `a`.
pub open spec fn sorts_no_later(a: ListItemV, b: ListItemV, crit: SortCriteria) -> bool {
    !sorts_before(b, a, crit)
}

/// Every item may come before every later one.
pub open spec fn items_in_order(s: Seq<ListItemV>, crit: SortCriteria) -> bool {
    forall|i: int, j: int| 0 <= i < j < s.len() ==> #[trigger] sorts_no_later(s[i], s[j], crit)
}

proof fn lemma_text_less_irrefl(a: Seq<char>)
    ensures !text_less(a, a),
    decreases a.len(),
{
    if a.len() > 0 {
        lemma_text_less_irrefl(a.drop_first());
    }
}

proof fn lemma_text_less_trans(a: Seq<char>, b: Seq<char>, c: Seq<char>)
    requires text_less(a, b), text_less(b, c),
    ensures text_less(a, c),
    decreases a.len(),
{
    if a.len() > 0 && b.len() > 0 && c.len() > 0 && a[0] == b[0] && b[0] == c[0] {
        lemma_text_less_trans(a.drop_first(), b.drop_first(), c.drop_first());
    }
}

proof fn lemma_text_less_total(a: Seq<char>, b: Seq<char>)
    requires a != b,
    ensures text_less(a, b) || text_less(b, a),
    decreases a.len(),
{
    if a.len() > 0 && b.len() > 0 {
        if a[0] == b[0] {
            if a.drop_first() == b.drop_first() {
                assert(a =~= seq![a[0]] + a.drop_first());
                assert(b =~= seq![b[0]] + b.drop_first());
            }
            lemma_text_less_total(a.drop_first(), b.drop_first());
        } else {
            let (x, y) = (a[0], b[0]);
            vstd::utf8::char_u32_cast(x, x as u32);
            vstd::utf8::char_u32_cast(y, y as u32);
        }
    } else if a.len() == 0 && b.len() == 0 {
        assert(a =~= b);
    }
}

proof fn lemma_no_later_trans(a: ListItemV, b: ListItemV, c: ListItemV, crit: SortCriteria)
    requires sorts_no_later(a, b, crit), sorts_no_later(b, c, crit),
    ensures sorts_no_later(a, c, crit),
{
    let (ta, tb, tc) = (sort_text(a), sort_text(b), sort_text(c));
    if rank(a.checked, crit) == rank(c.checked, crit) && text_less(tc, ta) {
        if ta == tb {
        } else {
            lemma_text_less_total(ta, tb);
            if text_less(ta, tb) {
                lemma_text_less_trans(tc, ta, tb);
            }
        }
    }
}

proof fn lemma_before_no_later(a: ListItemV, b: ListItemV, crit: SortCriteria)
    requires sorts_before(a, b, crit),
    ensures sorts_no_later(a, b, crit),
{
    if sorts_before(b, a, crit) {
        lemma_text_less_trans(sort_text(a), sort_text(b), sort_text(a));
        lemma_text_less_irrefl(sort_text(a));
    }
}

proof fn lemma_insert_sorted_bounded(s: Seq<ListItemV>, x: ListItemV, y: ListItemV, crit: SortCriteria)
    requires
        forall|i: int| 0 <= i < s.len() ==> #[trigger] sorts_no_later(s[i], y, crit),
        sorts_no_later(x, y, crit),
    ensures
        insert_sorted(s, x, crit).len() == s.len() + 1,
        forall|k: int| 0 <= k < s.len() + 1 ==> #[trigger] sorts_no_later(insert_sorted(s, x, crit)[k], y, crit),
    decreases s.len(),
{
    if s.len() > 0 && sorts_before(x, s.last(), crit) {
        let d = s.drop_last();
        assert forall|i: int| 0 <= i < d.len() implies #[trigger] sorts_no_later(d[i], y, crit) by {
            assert(d[i] == s[i]);
        }
        lemma_insert_sorted_bounded(d, x, y, crit);
    }
}

proof fn lemma_insert_sorted_in_order(s: Seq<ListItemV>, x: ListItemV, crit: SortCriteria)
    requires items_in_order(s, crit),
    ensures items_in_order(insert_sorted(s, x, crit), crit), insert_sorted(s, x, crit).len() == s.len() + 1,
    decreases s.len(),
{
    if s.len() == 0 {
    } else if sorts_before(x, s.last(), crit) {
        let d = s.drop_last();
        let y = s.last();
        assert(items_in_order(d, crit)) by {
            assert forall|i: int, j: int| 0 <= i < j < d.len() implies #[trigger] sorts_no_later(d[i], d[j], crit) by {
                assert(sorts_no_later(s[i], s[j], crit));
            }
        }
        lemma_insert_sorted_in_order(d, x, crit);
        assert forall|i: int| 0 <= i < d.len() implies #[trigger] sorts_no_later(d[i], y, crit) by {
            assert(sorts_no_later(s[i], s[s.len() - 1], crit));
        }
        lemma_before_no_later(x, y, crit);
        lemma_insert_sorted_bounded(d, x, y, crit);
        let t = insert_sorted(d, x, crit);
        let r = t.push(y);
        assert forall|i: int, j: int| 0 <= i < j < r.len() implies #[trigger] sorts_no_later(r[i], r[j], crit) by {
            if j < t.len() {
                assert(sorts_no_later(t[i], t[j], crit));
            } else {
                assert(sorts_no_later(t[i], y, crit));
            }
        }
    } else {
        let r = s.push(x);
        let y = s.last();
        assert forall|i: int, j: int| 0 <= i < j < r.len() implies #[trigger] sorts_no_later(r[i], r[j], crit) by {
            if j < s.len() {
                assert(sorts_no_later(s[i], s[j], crit));
            } else if i < s.len() - 1 {
                assert(sorts_no_later(s[i], s[s.len() - 1], crit));
                lemma_no_later_trans(s[i], y, x, crit);
            }
        }
    }
}

/// Sorting puts the items in order: no item sorts strictly before one that
/// comes ahead of it.
pub proof fn law_sort_orders_items(items: Seq<ListItemV>, crit: SortCriteria, k: int)
    requires 0 <= k <= items.len(),
    ensures
        items_in_order(stable_sorted(items, crit, k), crit),
        stable_sorted(items, crit, k).len() == k,
    decreases k,
{
    if k > 0 {
        law_sort_orders_items(items, crit, k - 1);
        lemma_insert_sorted_in_order(stable_sorted(items, crit, k - 1), items[k - 1], crit);
    }
}

/// Neither item sorts strictly before the other.
pub open spec fn sorts_alike(a: ListItemV, b: ListItemV, crit: SortCriteria) -> bool {
    sorts_no_later(a, b, crit) && sorts_no_later(b, a, crit)
}

/// The items that sort alike with `z`.
pub open spec fn alike_to(z: ListItemV, crit: SortCriteria) -> spec_fn(ListItemV) -> bool {
    |y: ListItemV| sorts_alike(y, z, crit)
}

proof fn lemma_insert_sorted_stable(s: Seq<ListItemV>, x: ListItemV, z: ListItemV, crit: SortCriteria)
    ensures ({
        let p = alike_to(z, crit);
        insert_sorted(s, x, crit).filter(p) == if p(x) { s.filter(p).push(x) } else { s.filter(p) }
    }),
    decreases s.len(),
{
    let p = alike_to(z, crit);
    reveal(Seq::filter);
    if s.len() == 0 {
        assert(seq![x] =~= Seq::<ListItemV>::empty().push(x));
        Seq::<ListItemV>::empty().lemma_filter_push(x, p);
        assert(s =~= Seq::<ListItemV>::empty());
    } else if sorts_before(x, s.last(), crit) {
        let d = s.drop_last();
        let y = s.last();
        lemma_insert_sorted_stable(d, x, z, crit);
        let t = insert_sorted(d, x, crit);
        t.lemma_filter_push(y, p);
        d.lemma_filter_push(y, p);
        assert(d.push(y) =~= s);
        if p(x) && p(y) {
            lemma_no_later_trans(x, z, y, crit);
            lemma_no_later_trans(y, z, x, crit);
        }
        if p(x) {
            assert(!p(y));
        }
    } else {
        s.lemma_filter_push(x, p);
    }
}

/// Sorting is stable: the items that sort alike with any item `z` come out
/// in the order they came in.
pub proof fn law_sort_is_stable(items: Seq<ListItemV>, crit: SortCriteria, z: ListItemV, k: int)
    requires 0 <= k <= items.len(),
    ensures stable_sorted(items, crit, k).filter(alike_to(z, crit)) == items.take(k).filter(alike_to(z, crit)),
    decreases k,
{
    let p = alike_to(z, crit);
    if k > 0 {
        law_sort_is_stable(items, crit, z, k - 1);
        lemma_insert_sorted_stable(stable_sorted(items, crit, k - 1), items[k - 1], z, crit);
        items.take(k - 1).lemma_filter_push(items[k - 1], p);
        assert(items.take(k - 1).push(items[k - 1]) =~= items.take(k));
    } else {
        reveal(Seq::filter);
        assert(items.take(0) =~= Seq::<ListItemV>::empty());
    }
}

/// After inserting a node, undoing the command gives back the document.
pub proof fn lemma_insert_node_restores(d: DocumentV, c: InsertNodeCommand, d1: DocumentV)
    requires
        c.position() <= d.nodes.len(),
        !is_temp(c.node_v()),
        c.inserted() == Some(c.position()),
        d1 == with_nodes(d, d.nodes.insert(c.position() as int, c.node_v())),
    ensures EditCommand::InsertNode(c).restores(d, d1),
{
    assert forall|r: Result<(), EditError>, d2: DocumentV| #[trigger] EditCommand::InsertNode(c).undone(d1, r, d2)
        implies r is Ok && d2 == d by {
        law_insert_node_undo(d, c.position(), c.node_v(), r, d2);
    }
}

/// After deleting a node, undoing the command gives back the document.
pub proof fn lemma_delete_node_restores(d: DocumentV, c: DeleteNodeCommand, d1: DocumentV)
    requires
        c.index() < d.nodes.len(),
        c.deleted() == Some(d.nodes[c.index() as int]),
        d1 == with_nodes(d, d.nodes.remove(c.index() as int)),
    ensures EditCommand::DeleteNode(c).restores(d, d1),
{
    assert forall|r: Result<(), EditError>, d2: DocumentV| #[trigger] EditCommand::DeleteNode(c).undone(d1, r, d2)
        implies r is Ok && d2 == d by {
        law_delete_node_undo(d, c, r, d2);
    }
}

/// After moving a node, undoing the command gives back the document.
pub proof fn lemma_move_node_restores(d: DocumentV, c: MoveNodeCommand, d1: DocumentV)
    requires
        c.from() < d.nodes.len(),
        c.to() <= d.nodes.len(),
        d1 == move_effect(d, c.from() as int, c.to() as int),
    ensures EditCommand::MoveNode(c).restores(d, d1),
{
    assert forall|r: Result<(), EditError>, d2: DocumentV| #[trigger] EditCommand::MoveNode(c).undone(d1, r, d2)
        implies r is Ok && d2 == d by {
        law_move_node_undo(d, c, r, d2);
    }
}

/// After duplicating a node, undoing the command gives back the document.
pub proof fn lemma_duplicate_node_restores(d: DocumentV, c: DuplicateNodeCommand, d1: DocumentV)
    requires
        c.index() < d.nodes.len(),
        d.nodes.len() <= usize::MAX,
        c.inserted() == Some((c.index() + 1) as usize),
        d1 == with_nodes(d, d.nodes.insert(c.index() + 1, d.nodes[c.index() as int])),
    ensures EditCommand::DuplicateNode(c).restores(d, d1),
{
    assert forall|r: Result<(), EditError>, d2: DocumentV| #[trigger] EditCommand::DuplicateNode(c).undone(d1, r, d2)
        implies r is Ok && d2 == d by {
        law_duplicate_node_undo(d, c.index(), r, d2);
    }
}

/// After converting a node, undoing the command gives back the document.
pub proof fn lemma_convert_restores(d: DocumentV, c: ConvertNodeTypeCommand, m: NodeV)
    requires
        c.node() < d.nodes.len(),
        c.saved() == Some(d.nodes[c.node() as int]),
    ensures EditCommand::ConvertNodeType(c).restores(d, with_node_at(d, c.node() as int, m)),
{
    assert forall|r: Result<(), EditError>, d2: DocumentV|
        #[trigger] EditCommand::ConvertNodeType(c).undone(with_node_at(d, c.node() as int, m), r, d2)
        implies r is Ok && d2 == d by {
        law_convert_undo(d, c, m, r, d2);
    }
}

/// After a table operation, undoing the command gives back the document.
pub proof fn lemma_table_op_restores(d: DocumentV, c: TableOperationsCommand, m: NodeV)
    requires
        c.node() < d.nodes.len(),
        c.saved() == Some(d.nodes[c.node() as int]),
    ensures EditCommand::TableOperations(c).restores(d, with_node_at(d, c.node() as int, m)),
{
    assert forall|r: Result<(), EditError>, d2: DocumentV|
        #[trigger] EditCommand::TableOperations(c).undone(with_node_at(d, c.node() as int, m), r, d2)
        implies r is Ok && d2 == d by {
        law_table_op_undo(d, c, m, r, d2);
    }
}

/// After creating a table, undoing the command gives back the document.
pub proof fn lemma_create_table_restores(d: DocumentV, c: CreateTableCommand, d1: DocumentV)
    requires
        c.saved() == Some(d.nodes),
        d1 == with_nodes(d, d1.nodes),
    ensures EditCommand::CreateTable(c).restores(d, d1),
{
    assert forall|r: Result<(), EditError>, d2: DocumentV| #[trigger] EditCommand::CreateTable(c).undone(d1, r, d2)
        implies r is Ok && d2 == d by {
        law_create_table_undo(d, c, d1, r, d2);
    }
}

/// After formatting text, undoing the command gives back the document.
pub proof fn lemma_format_text_restores(d: DocumentV, c: FormatTextCommand, ch: Seq<InlineV>)
    requires
        c.node() < d.nodes.len(),
        has_inlines(d.nodes[c.node() as int]),
        c.saved() == Some(inlines_of(d.nodes[c.node() as int])),
    ensures EditCommand::FormatText(c).restores(d, with_node_at(d, c.node() as int, with_inlines(d.nodes[c.node() as int], ch))),
{
    let d1 = with_node_at(d, c.node() as int, with_inlines(d.nodes[c.node() as int], ch));
    assert forall|r: Result<(), EditError>, d2: DocumentV| #[trigger] EditCommand::FormatText(c).undone(d1, r, d2)
        implies r is Ok && d2 == d by {
        law_format_text_undo(d, c, ch, r, d2);
    }
}

/// After deleting text, undoing the command gives back the document.
pub proof fn lemma_delete_text_restores(d: DocumentV, c: DeleteTextCommand)
    requires
        c.node() < d.nodes.len(),
        node_selection_ok(d.nodes[c.node() as int], c.start() as int, c.end() as int),
        delete_text_result(d, c.node() as int, c.start() as int, c.end() as int) is Ok,
        c.deleted() == Some((delete_text_result(d, c.node() as int, c.start() as int, c.end() as int)->Ok_0).1),
        c.saved_children() == match d.nodes[c.node() as int] {
            NodeV::Paragraph { children } => Some(children),
            _ => None::<Seq<InlineV>>,
        },
    ensures
        EditCommand::DeleteText(c).restores(d, (delete_text_result(d, c.node() as int, c.start() as int, c.end() as int)->Ok_0).0),
{
    let d1 = (delete_text_result(d, c.node() as int, c.start() as int, c.end() as int)->Ok_0).0;
    assert forall|r: Result<(), EditError>, d2: DocumentV| #[trigger] EditCommand::DeleteText(c).undone(d1, r, d2)
        implies r is Ok && d2 == d by {
        law_delete_text_undo(d, c, r, d2);
    }
}

/// After merging nodes, undoing the command gives back the document.
pub proof fn lemma_merge_restores(d: DocumentV, c: MergeNodesCommand)
    requires
        merge_result(d, c.first() as int, c.second() as int) is Ok,
        c.saved() == Some(d.nodes[c.second() as int]),
    ensures
        EditCommand::MergeNodes(c).restores(d, merge_result(d, c.first() as int, c.second() as int)->Ok_0),
{
    let d1 = merge_result(d, c.first() as int, c.second() as int)->Ok_0;
    assert forall|r: Result<(), EditError>, d2: DocumentV| #[trigger] EditCommand::MergeNodes(c).undone(d1, r, d2)
        implies r is Ok && d2 == d by {
        law_merge_nodes_undo(d, c, r, d2);
    }
}

/// Indenting or unindenting the selection and undoing gives back the
/// document: the saved node list and selection return.
pub proof fn law_selection_indent_undo(d: DocumentV, c: SelectionIndentCommand, r: Result<(), EditError>, d2: DocumentV)
    requires
        d.selection is Some ==> c.saved() == indent_saves(d) && c.saved_selection() == d.selection,
        d.selection is None ==> c.saved() is None && c.saved_selection() is None,
        sel_indent_undone(c, indent_effect(d, c.direction()), r, d2),
    ensures
        r is Ok,
        d2 == d,
{
}

/// After indenting or unindenting by a fresh command, undoing it gives
/// back the document.
pub proof fn lemma_selection_indent_restores(d: DocumentV, c: SelectionIndentCommand)
    requires
        d.selection is Some ==> c.saved() == indent_saves(d) && c.saved_selection() == d.selection,
        d.selection is None ==> c.saved() is None && c.saved_selection() is None,
    ensures
        EditCommand::SelectionIndent(c).restores(d, indent_effect(d, c.direction())),
{
    assert forall|r: Result<(), EditError>, d2: DocumentV| #[trigger] EditCommand::SelectionIndent(c).undone(indent_effect(d, c.direction()), r, d2)
        implies r is Ok && d2 == d by {
        law_selection_indent_undo(d, c, r, d2);
    }
}

/// After deleting text from a code block, the deleted text can go back
/// where it came from: its start is still where a character starts.
pub proof fn lemma_delete_text_undo_safe(d: DocumentV, c: DeleteTextCommand)
    requires
        c.node() < d.nodes.len(),
        node_selection_ok(d.nodes[c.node() as int], c.start() as int, c.end() as int),
        delete_text_result(d, c.node() as int, c.start() as int, c.end() as int) is Ok,
    ensures
        ({
            let d1 = (delete_text_result(d, c.node() as int, c.start() as int, c.end() as int)->Ok_0).0;
            match d1.nodes[c.node() as int] {
                NodeV::CodeBlock { code, .. } => c.start() <= blen(code) ==> is_boundary(code, c.start() as int),
                _ => true,
            }
        }),
{
    let i = c.node() as int;
    if d.nodes[i] is CodeBlock {
        let code = d.nodes[i]->CodeBlock_code;
        let s = c.start() as int;
        let e = c.end() as int;
        let a = char_at_byte(code, s);
        let b = char_at_byte(code, e);
        let rest = code.take(a) + code.skip(b);
        assert(rest.take(a) =~= code.take(a));
        lemma_char_at_byte(rest, a);
    }
}

/// After merging two nodes, their undo can run: the merged node still
/// holds the added part, cut off where a character starts.
pub proof fn lemma_merge_undo_safe(d: DocumentV, c: MergeNodesCommand)
    requires
        merge_result(d, c.first() as int, c.second() as int) is Ok,
        c.saved() == Some(d.nodes[c.second() as int]),
    ensures
        ({
            let d1 = merge_result(d, c.first() as int, c.second() as int)->Ok_0;
            &&& c.second() <= d1.nodes.len()
            &&& c.first() < d1.nodes.len()
            &&& {
                let n = d1.nodes.insert(c.second() as int, c.saved()->0)[c.first() as int];
                match (n, c.saved()->0) {
                    (NodeV::Paragraph { children }, NodeV::Paragraph { children: b }) => children.len() >= b.len(),
                    (NodeV::CodeBlock { code, .. }, NodeV::CodeBlock { code: b, .. }) =>
                        blen(code) >= blen(b) + 1 && is_boundary(code, blen(code) - blen(b) - 1),
                    _ => true,
                }
            }
        }),
{
    let f = c.first() as int;
    let sc = c.second() as int;
    let n = d.nodes[sc];
    let d1 = merge_result(d, f, sc)->Ok_0;
    let ins = d1.nodes.insert(sc, n);
    match (d.nodes[f], n) {
        (NodeV::Paragraph { children: a }, NodeV::Paragraph { children: b }) => {
            assert(ins[f] == NodeV::Paragraph { children: a + b });
            assert((a + b).len() >= b.len());
        },
        (NodeV::CodeBlock { language: la, code: a }, NodeV::CodeBlock { language: lb, code: b }) => {
            let code = a + seq!['\n'] + b;
            assert(ins[f] == NodeV::CodeBlock { language: la, code });
            lemma_blen_concat(a + seq!['\n'], b);
            lemma_blen_concat(a, seq!['\n']);
            crate::text::lemma_blen_single('\n');
            crate::text::lemma_blen_nonneg(a);
            assert(blen(code) == blen(a) + 1 + blen(b));
            assert(code.take(a.len() as int) =~= a);
            lemma_char_at_byte(code, a.len() as int);
            assert(is_boundary(code, blen(a)));
        },
        _ => {},
    }
    assert(d1.nodes.len() == d.nodes.len() - 1);
}

/// After a find-and-replace by a fresh command, undoing it gives back the
/// document.
pub proof fn lemma_find_replace_restores(d: DocumentV, c: FindReplaceCommand)
    requires
        d.nodes.len() <= usize::MAX,
        find_replace_result(d.nodes, c.find(), c.replacement(), c.is_case_sensitive()) is Some,
        c.saved() == (find_replace_result(d.nodes, c.find(), c.replacement(), c.is_case_sensitive())->0).2,
    ensures
        EditCommand::FindReplace(c).restores(d,
            with_nodes(d, (find_replace_result(d.nodes, c.find(), c.replacement(), c.is_case_sensitive())->0).0)),
{
    let (ns, _, saved) = find_replace_result(d.nodes, c.find(), c.replacement(), c.is_case_sensitive())->0;
    let d1 = with_nodes(d, ns);
    assert forall|r: Result<(), EditError>, d2: DocumentV| #[trigger] EditCommand::FindReplace(c).undone(d1, r, d2)
        implies r is Ok && d2 == d by {
        law_find_replace_undo(d, c.find(), c.replacement(), c.is_case_sensitive(), r, d2);
    }
}

/// After inserting text, undoing the command gives back the document.
pub proof fn lemma_insert_text_restores(d: DocumentV, c: InsertTextCommand, d1: DocumentV)
    requires
        c.text().len() == 0 ==> d1 == d,
        c.text().len() > 0 ==> c.node() < d.nodes.len(),
        c.text().len() > 0 ==> ({
            let i = c.node() as int;
            let n = d.nodes[i];
            if has_inlines(n) {
                &&& c.saved() == Some(inlines_of(n))
                &&& insert_cmd_result(inlines_of(n), c.position() as int, c.text()) is Some
                &&& d1 == with_node_at(d, i, with_inlines(n, insert_cmd_result(inlines_of(n), c.position() as int, c.text())->0))
            } else {
                &&& n is CodeBlock
                &&& c.position() <= blen(n->CodeBlock_code)
                &&& c.saved() == Some(seq![crate::inline::plain_text_v(n->CodeBlock_code)])
                &&& {
                    let code = n->CodeBlock_code;
                    let ci = char_at_byte(code, c.position() as int);
                    d1 == with_node_at(d, i, NodeV::CodeBlock {
                        language: n->CodeBlock_language,
                        code: code.take(ci) + c.text() + code.skip(ci),
                    })
                }
            }
        }),
    ensures EditCommand::InsertText(c).restores(d, d1),
{
    assert forall|r: Result<(), EditError>, d2: DocumentV| #[trigger] EditCommand::InsertText(c).undone(d1, r, d2)
        implies r is Ok && d2 == d by {
        if c.text().len() > 0 {
            law_insert_text_undo(d, c, r, d2);
        }
    }
}

/// Undo right after an editing operation of the editor that undo takes
/// back exactly (inserting, deleting, moving, duplicating or converting a
/// node, inserting, formatting or deleting text, merging nodes,
/// find-and-replace, formatting the selection, cutting a selection) gives
/// back the document the operation started from. The operation's
/// `ensures` states `last_restores` for the history and documents around
/// it; `Editor::undo` states `batch_undone` for the most recent batch.
pub proof fn law_editor_undo(h: Seq<Seq<EditCommand>>, before: DocumentV, after: DocumentV, r: Result<(), EditError>, d2: DocumentV)
    requires
        last_restores(h, before, after),
        batch_undone(h.last(), after, r, d2),
    ensures
        r is Ok,
        d2 == before,
{
    let c = choose|c: EditCommand| h.last() == seq![c] && #[trigger] c.restores(before, after);
    let cs = seq![c];
    assert(cs.last() == c);
    assert(cs.drop_last() =~= Seq::<EditCommand>::empty());
    let (r1, m) = choose|r1: Result<(), EditError>, m: DocumentV| #[trigger] cs.last().undone(after, r1, m) && if r1 is Err {
        r == r1 && d2 == m
    } else {
        batch_undone(cs.drop_last(), m, r, d2)
    };
    assert(c.undone(after, r1, m));
}

/// A command's run depends only on its kind, its arguments and the
/// document: two commands of the same kind with the same arguments that
/// run on one document, the first successfully, both succeed and give the
/// same document. So redo, which runs again the commands that undo took
/// back, gives the document that the first run gave.
pub proof fn law_rerun(c1: EditCommand, c2: EditCommand, d: DocumentV, d1: DocumentV, r2: Result<(), EditError>, d2: DocumentV)
    requires
        c2.same_kind(c1),
        c1.ran(d, Ok(()), d1),
        c2.ran(d, r2, d2),
    ensures
        r2 is Ok,
        d2 == d1,
{
}

/// Redo after undo: when the batch that redo runs has, command by command,
/// the kinds and arguments of a batch that ran successfully from `d0` to
/// `d1`, and the document is back at `d0`, redo succeeds and gives `d1`.
/// `Editor::undo` states that the batch it moves to the redo history has
/// the kinds of the batch it took back; `Editor::redo` states `batch_ran`.
pub proof fn law_editor_redo(a: Seq<EditCommand>, b: Seq<EditCommand>, d0: DocumentV, d1: DocumentV, r: Result<(), EditError>, d3: DocumentV)
    requires
        batch_ran(a, d0, Ok(()), d1),
        same_kinds(b, a),
        batch_ran(b, d0, r, d3),
    ensures
        r is Ok,
        d3 == d1,
    decreases a.len(),
{
    if a.len() > 0 {
        let (ra, ma) = choose|r1: Result<(), EditError>, m: DocumentV| #[trigger] a[0].ran(d0, r1, m) && if r1 is Err {
            Ok::<(), EditError>(()) == r1 && d1 == m
        } else {
            batch_ran(a.drop_first(), m, Ok(()), d1)
        };
        let (rb, mb) = choose|r1: Result<(), EditError>, m: DocumentV| #[trigger] b[0].ran(d0, r1, m) && if r1 is Err {
            r == r1 && d3 == m
        } else {
            batch_ran(b.drop_first(), m, r, d3)
        };
        assert(b[0].same_kind(a[0]));
        law_rerun(a[0], b[0], d0, ma, rb, mb);
        assert forall|j: int| 0 <= j < b.drop_first().len() implies #[trigger] b.drop_first()[j].same_kind(a.drop_first()[j]) by {
            assert(b.drop_first()[j] == b[j + 1]);
            assert(a.drop_first()[j] == a[j + 1]);
        }
        law_editor_redo(a.drop_first(), b.drop_first(), ma, d1, r, d3);
    }
}

/// The undo history stays within its limit: recording a batch on a history
/// within the limit leaves it within the limit.
pub proof fn law_history_bounded(h: Seq<Seq<EditCommand>>, b: Seq<EditCommand>, max: usize)
    requires h.len() <= max,
    ensures
        trimmed(h, max) == h,
        trimmed(h.push(b), max).len() <= max,
        trimmed(h.push(b), max).last() == b || max == 0,
{
}

/// Toggling a task item whose state is set and undoing gives back the
/// document. (An item with no state becomes checked, and undo then has no
/// state to write back and fails.)
pub proof fn law_toggle_undo(d: DocumentV, node: usize, item: usize, d2: DocumentV)
    requires
        task_list_error(d, node as int) is None,
        item < items_of(d, node as int).len(),
        items_of(d, node as int)[item as int].checked is Some,
        ({
            let items = items_of(d, node as int);
            let it = items[item as int];
            let d1 = with_items(d, node as int, items.update(item as int, ListItemV { checked: toggled(it.checked), ..it }));
            let items1 = items_of(d1, node as int);
            d2 == with_items(d1, node as int, items1.update(item as int, ListItemV { checked: it.checked, ..items1[item as int] }))
        }),
    ensures d2 == d,
{
    let i = node as int;
    let items = items_of(d, i);
    let it = items[item as int];
    let d1 = with_items(d, i, items.update(item as int, ListItemV { checked: toggled(it.checked), ..it }));
    let items1 = items_of(d1, i);
    assert(items1 == items.update(item as int, ListItemV { checked: toggled(it.checked), ..it }));
    assert(items1.update(item as int, ListItemV { checked: it.checked, ..items1[item as int] }) =~= items);
    law_items_put_back(d, i, items1);
}

/// Adding a task item and undoing removes it again.
pub proof fn law_add_task_item_undo(d: DocumentV, node: usize, position: usize, text: Seq<char>, checked: bool, d2: DocumentV)
    requires
        task_list_error(d, node as int) is None,
        position <= items_of(d, node as int).len(),
        ({
            let d1 = with_items(d, node as int, items_of(d, node as int).insert(position as int, task_item_v(text, checked)));
            d2 == with_items(d1, node as int, items_of(d1, node as int).remove(position as int))
        }),
    ensures d2 == d,
{
    let i = node as int;
    let items = items_of(d, i);
    let d1 = with_items(d, i, items.insert(position as int, task_item_v(text, checked)));
    assert(items_of(d1, i).remove(position as int) =~= items);
    law_items_put_back(d, i, items_of(d1, i));
}

/// Removing a task item (from a list of more than one) and undoing puts it
/// back where it was.
pub proof fn law_remove_task_item_undo(d: DocumentV, node: usize, item: usize, d2: DocumentV)
    requires
        task_list_error(d, node as int) is None,
        item < items_of(d, node as int).len(),
        items_of(d, node as int).len() != 1,
        ({
            let items = items_of(d, node as int);
            let d1 = with_items(d, node as int, items.remove(item as int));
            d2 == with_items(d1, node as int, items_of(d1, node as int).insert(item as int, items[item as int]))
        }),
    ensures d2 == d,
{
    let i = node as int;
    let items = items_of(d, i);
    let d1 = with_items(d, i, items.remove(item as int));
    assert(items_of(d1, i).insert(item as int, items[item as int]) =~= items);
    law_items_put_back(d, i, items_of(d1, i));
}

/// Editing the text of a task item and undoing puts the item back as it
/// was.
pub proof fn law_edit_task_item_undo(d: DocumentV, node: usize, item: usize, text: Seq<char>, d2: DocumentV)
    requires
        task_list_error(d, node as int) is None,
        item < items_of(d, node as int).len(),
        ({
            let items = items_of(d, node as int);
            let it = items[item as int];
            let d1 = with_items(d, node as int, items.update(item as int, item_with_text(it, text)));
            d2 == with_items(d1, node as int, items_of(d1, node as int).update(item as int, it))
        }),
    ensures d2 == d,
{
    let i = node as int;
    let items = items_of(d, i);
    let it = items[item as int];
    let d1 = with_items(d, i, items.update(item as int, item_with_text(it, text)));
    assert(items_of(d1, i).update(item as int, it) =~= items);
    law_items_put_back(d, i, items_of(d1, i));
}

/// which saves the node list when it runs.
pub proof fn law_node_list_put_back(d: DocumentV, ns: Seq<NodeV>)
    ensures with_nodes(with_nodes(d, ns), d.nodes) == d,
{
}

/// After `Editor::set_max_history(m)`, a history of `k` batches keeps the
/// `min(k, m)` most recent ones, in order: that many batches are left for
/// undo to take back.
pub proof fn law_history_after_limit(h: Seq<Seq<EditCommand>>, m: usize)
    ensures ({
        let kept = if h.len() > m { h.subrange(h.len() - m, h.len() as int) } else { h };
        &&& kept.len() == if h.len() < m { h.len() } else { m as nat }
        &&& forall|j: int| 0 <= j < kept.len() ==> #[trigger] kept[j] == h[h.len() - kept.len() + j]
    }),
{
}

} // verus!
