//! The commands an editor keeps in its history, and what running or undoing
//! each of them does to the document.
use vstd::prelude::*;
use crate::document::{Document, DocumentV};
use crate::error::EditError;
use crate::text::{blen, char_at_byte};
use crate::node::NodeV;
use crate::editor::command::{Command, with_nodes};
use crate::editor::node_commands::{
    DeleteNodeCommand, DuplicateNodeCommand, InsertNodeCommand, MoveNodeCommand, is_temp, move_target, move_effect,
};
use crate::editor::text_commands::{
    FormatTextCommand, InsertTextCommand, has_inlines, inlines_of, with_inlines, with_node_at, insert_cmd_result,
    format_all,
};
use crate::editor::edit_commands::{
    DeleteTextCommand, MergeNodesCommand, delete_text_result, merge_result, unmerged,
};
use crate::editor::convert_command::{ConvertNodeTypeCommand, NodeConversionType, convert_content, converted};
use crate::inline::TextFormatting;
use crate::doc_selection::node_selection_ok;
use crate::editor::laws::{
    lemma_insert_node_restores, lemma_delete_node_restores, lemma_move_node_restores, lemma_duplicate_node_restores,
    lemma_convert_restores, lemma_table_op_restores, lemma_create_table_restores, lemma_format_text_restores,
    lemma_delete_text_restores, lemma_merge_restores, lemma_selection_indent_restores, lemma_merge_undo_safe, lemma_delete_text_undo_safe, lemma_find_replace_restores, lemma_insert_text_restores,
};
use crate::editor::task_commands::{same_error, other_error};
use crate::editor::find_replace::{FindReplaceCommand, find_replace_result, restore_in_place};
use crate::editor::selection_format::{SelectionFormatCommand, sel_format_effect, restore_present};
use crate::editor::selection_indent::{SelectionIndentCommand, indent_effect};
use crate::editor::clipboard::{CutSelectionCommand, cut_effect, restore_saved, reinserted};
use crate::editor::table_commands::{
    CreateTableCommand, TableOperation, TableOperationsCommand, table_op_result, table_of, table_node,
};

verus! {

/// A command held in an editor's history.
pub enum EditCommand {
    InsertNode(InsertNodeCommand),
    DeleteNode(DeleteNodeCommand),
    MoveNode(MoveNodeCommand),
    DuplicateNode(DuplicateNodeCommand),
    InsertText(InsertTextCommand),
    FormatText(FormatTextCommand),
    DeleteText(DeleteTextCommand),
    MergeNodes(MergeNodesCommand),
    ConvertNodeType(ConvertNodeTypeCommand),
    CreateTable(CreateTableCommand),
    TableOperations(TableOperationsCommand),
    CutSelection(CutSelectionCommand),
    FindReplace(FindReplaceCommand),
    SelectionFormat(SelectionFormatCommand),
    SelectionIndent(SelectionIndentCommand),
}

/// What inserting a node does: it goes in at the position, unless that is
/// past the end or the node is of a temporary kind.
pub open spec fn insert_node_ran(position: usize, n: NodeV, d: DocumentV, r: Result<(), EditError>, d2: DocumentV) -> bool {
    if position > d.nodes.len() {
        same_error(r, EditError::IndexOutOfBounds) && d2 == d
    } else if is_temp(n) {
        same_error(r, EditError::UnsupportedOperation) && d2 == d
    } else {
        r is Ok && d2 == with_nodes(d, d.nodes.insert(position as int, n))
    }
}

/// What undoing an insertion (of a node or a copy) does: the node at the
/// recorded index goes.
pub open spec fn remove_inserted(inserted: Option<usize>, d: DocumentV, r: Result<(), EditError>, d2: DocumentV) -> bool {
    match inserted {
        None => same_error(r, EditError::OperationFailed) && d2 == d,
        Some(i) => if i >= d.nodes.len() {
            same_error(r, EditError::IndexOutOfBounds) && d2 == d
        } else {
            r is Ok && d2 == with_nodes(d, d.nodes.remove(i as int))
        },
    }
}

pub open spec fn delete_node_ran(index: usize, d: DocumentV, r: Result<(), EditError>, d2: DocumentV) -> bool {
    if index >= d.nodes.len() {
        same_error(r, EditError::IndexOutOfBounds) && d2 == d
    } else {
        r is Ok && d2 == with_nodes(d, d.nodes.remove(index as int))
    }
}

pub open spec fn delete_node_undone(c: DeleteNodeCommand, d: DocumentV, r: Result<(), EditError>, d2: DocumentV) -> bool {
    match c.deleted() {
        None => same_error(r, EditError::OperationFailed) && d2 == d,
        Some(n) => r is Ok && d2 == with_nodes(d,
            if c.index() > d.nodes.len() { d.nodes.push(n) } else { d.nodes.insert(c.index() as int, n) }),
    }
}

pub open spec fn move_node_ran(from: usize, to: usize, d: DocumentV, r: Result<(), EditError>, d2: DocumentV) -> bool {
    if from >= d.nodes.len() || to > d.nodes.len() {
        same_error(r, EditError::IndexOutOfBounds) && d2 == d
    } else {
        r is Ok && d2 == move_effect(d, from as int, to as int)
    }
}

pub open spec fn move_node_undone(c: MoveNodeCommand, d: DocumentV, r: Result<(), EditError>, d2: DocumentV) -> bool {
    let m = move_target(c.from() as int, c.to() as int);
    if m >= d.nodes.len() {
        same_error(r, EditError::IndexOutOfBounds) && d2 == d
    } else {
        r is Ok && d2 == with_nodes(d, d.nodes.remove(m).insert(c.from() as int, d.nodes[m]))
    }
}

pub open spec fn duplicate_node_ran(index: usize, d: DocumentV, r: Result<(), EditError>, d2: DocumentV) -> bool {
    if index >= d.nodes.len() {
        same_error(r, EditError::IndexOutOfBounds) && d2 == d
    } else if is_temp(d.nodes[index as int]) {
        same_error(r, EditError::UnsupportedOperation) && d2 == d
    } else {
        r is Ok && d2 == with_nodes(d, d.nodes.insert(index + 1, d.nodes[index as int]))
    }
}

pub open spec fn insert_text_ran(node: usize, position: usize, text: Seq<char>, d: DocumentV, r: Result<(), EditError>, d2: DocumentV) -> bool {
    if text.len() == 0 {
        r is Ok && d2 == d
    } else if node >= d.nodes.len() {
        same_error(r, EditError::IndexOutOfBounds) && d2 == d
    } else {
        let i = node as int;
        let n = d.nodes[i];
        let p = position as int;
        if has_inlines(n) {
            match insert_cmd_result(inlines_of(n), p, text) {
                Some(ch) => r is Ok && d2 == with_node_at(d, i, with_inlines(n, ch)),
                None => same_error(r, EditError::InvalidRange) && d2 == d,
            }
        } else if n is CodeBlock {
            let code = n->CodeBlock_code;
            if p <= blen(code) {
                let ci = char_at_byte(code, p);
                r is Ok && d2 == with_node_at(d, i, NodeV::CodeBlock {
                    language: n->CodeBlock_language,
                    code: code.take(ci) + text + code.skip(ci),
                })
            } else {
                same_error(r, EditError::InvalidRange) && d2 == d
            }
        } else {
            same_error(r, EditError::UnsupportedOperation) && d2 == d
        }
    }
}

pub open spec fn insert_text_undone(c: InsertTextCommand, d: DocumentV, r: Result<(), EditError>, d2: DocumentV) -> bool {
    if c.text().len() == 0 { r is Ok && d2 == d } else { match c.saved() {
        None => same_error(r, EditError::OperationFailed) && d2 == d,
        Some(saved) => if c.node() >= d.nodes.len() {
            same_error(r, EditError::IndexOutOfBounds) && d2 == d
        } else {
            let i = c.node() as int;
            let n = d.nodes[i];
            if has_inlines(n) {
                r is Ok && d2 == with_node_at(d, i, with_inlines(n, saved))
            } else if n is CodeBlock {
                if saved[0] is Text {
                    r is Ok && d2 == with_node_at(d, i, NodeV::CodeBlock { language: n->CodeBlock_language, code: saved[0]->text })
                } else {
                    same_error(r, EditError::OperationFailed) && d2 == d
                }
            } else {
                same_error(r, EditError::UnsupportedOperation) && d2 == d
            }
        },
    } }
}

pub open spec fn format_text_ran(node: usize, start: usize, end: usize, f: TextFormatting, d: DocumentV, r: Result<(), EditError>, d2: DocumentV) -> bool {
    if node >= d.nodes.len() {
        same_error(r, EditError::IndexOutOfBounds) && d2 == d
    } else if start >= end {
        same_error(r, EditError::InvalidRange) && d2 == d
    } else {
        let i = node as int;
        let n = d.nodes[i];
        if has_inlines(n) {
            let ch = inlines_of(n);
            r is Ok && d2 == with_node_at(d, i, with_inlines(n,
                format_all(ch, start as int, end as int, f, ch.len() as int)))
        } else {
            same_error(r, EditError::UnsupportedOperation) && d2 == d
        }
    }
}

pub open spec fn format_text_undone(c: FormatTextCommand, d: DocumentV, r: Result<(), EditError>, d2: DocumentV) -> bool {
    if c.node() >= d.nodes.len() {
        same_error(r, EditError::IndexOutOfBounds) && d2 == d
    } else {
        let i = c.node() as int;
        let n = d.nodes[i];
        if has_inlines(n) {
            match c.saved() {
                Some(saved) => r is Ok && d2 == with_node_at(d, i, with_inlines(n, saved)),
                None => same_error(r, EditError::OperationFailed) && d2 == d,
            }
        } else {
            same_error(r, EditError::UnsupportedOperation) && d2 == d
        }
    }
}

pub open spec fn delete_text_ran(node: usize, start: usize, end: usize, d: DocumentV, r: Result<(), EditError>, d2: DocumentV) -> bool {
    match delete_text_result(d, node as int, start as int, end as int) {
        Ok((d3, _)) => r is Ok && d2 == d3,
        Err(e) => same_error(r, e) && d2 == d,
    }
}

pub open spec fn delete_text_undone(c: DeleteTextCommand, d: DocumentV, r: Result<(), EditError>, d2: DocumentV) -> bool {
    match c.deleted() {
        None => same_error(r, EditError::OperationFailed) && d2 == d,
        Some(t) => if c.node() >= d.nodes.len() {
            same_error(r, EditError::IndexOutOfBounds) && d2 == d
        } else {
            let i = c.node() as int;
            let st = c.start() as int;
            match d.nodes[i] {
                NodeV::Paragraph { .. } => match c.saved_children() {
                    Some(ch) => r is Ok && d2 == with_node_at(d, i, NodeV::Paragraph { children: ch }),
                    None => same_error(r, EditError::OperationFailed) && d2 == d,
                },
                NodeV::CodeBlock { language, code } => if st <= blen(code) {
                    let ci = char_at_byte(code, st);
                    r is Ok && d2 == with_node_at(d, i, NodeV::CodeBlock { language, code: code.take(ci) + t + code.skip(ci) })
                } else {
                    same_error(r, EditError::InvalidRange) && d2 == d
                },
                _ => same_error(r, EditError::UnsupportedOperation) && d2 == d,
            }
        },
    }
}

pub open spec fn merge_nodes_ran(first: usize, second: usize, d: DocumentV, r: Result<(), EditError>, d2: DocumentV) -> bool {
    match merge_result(d, first as int, second as int) {
        Ok(d3) => r is Ok && d2 == d3,
        Err(e) => same_error(r, e) && d2 == d,
    }
}

pub open spec fn merge_nodes_undone(c: MergeNodesCommand, d: DocumentV, r: Result<(), EditError>, d2: DocumentV) -> bool {
    match c.saved() {
        None => same_error(r, EditError::OperationFailed) && d2 == d,
        Some(n) => if c.first() >= d.nodes.len() {
            same_error(r, EditError::IndexOutOfBounds) && d2 == d
        } else {
            let d3 = with_nodes(d, d.nodes.insert(c.second() as int, n));
            match unmerged(d3.nodes[c.first() as int], n) {
                Some(m) => r is Ok && d2 == with_node_at(d3, c.first() as int, m),
                None => same_error(r, EditError::UnsupportedOperation) && d2 == d3,
            }
        },
    }
}

pub open spec fn convert_ran(node: usize, target: NodeConversionType, d: DocumentV, r: Result<(), EditError>, d2: DocumentV) -> bool {
    if node >= d.nodes.len() {
        same_error(r, EditError::IndexOutOfBounds) && d2 == d
    } else {
        match convert_content(d.nodes[node as int]) {
            Some(ch) => r is Ok && d2 == with_node_at(d, node as int, converted(ch, target)),
            None => same_error(r, EditError::UnsupportedOperation) && d2 == d,
        }
    }
}

pub open spec fn convert_undone(c: ConvertNodeTypeCommand, d: DocumentV, r: Result<(), EditError>, d2: DocumentV) -> bool {
    if c.node() >= d.nodes.len() {
        same_error(r, EditError::IndexOutOfBounds) && d2 == d
    } else {
        match c.saved() {
            Some(n) => r is Ok && d2 == with_node_at(d, c.node() as int, n),
            None => same_error(r, EditError::OperationFailed) && d2 == d,
        }
    }
}

pub open spec fn create_table_ran(c: CreateTableCommand, d: DocumentV, r: Result<(), EditError>, d2: DocumentV) -> bool {
    r is Ok && d2 == with_nodes(d, d.nodes.insert(
        if c.position() < d.nodes.len() { c.position() as int } else { d.nodes.len() as int }, c.table()))
}

pub open spec fn create_table_undone(c: CreateTableCommand, d: DocumentV, r: Result<(), EditError>, d2: DocumentV) -> bool {
    match c.saved() {
        Some(n) => r is Ok && d2 == with_nodes(d, n),
        None => other_error(r, "No original state to restore"@) && d2 == d,
    }
}

pub open spec fn table_op_ran(node: usize, op: TableOperation, d: DocumentV, r: Result<(), EditError>, d2: DocumentV) -> bool {
    if node >= d.nodes.len() {
        same_error(r, EditError::IndexOutOfBounds) && d2 == d
    } else {
        let n = d.nodes[node as int];
        if n is Table {
            match table_op_result(table_of(n), op) {
                Ok(t) => r is Ok && d2 == with_node_at(d, node as int, table_node(t)),
                Err(e) => same_error(r, e) && d2 == d,
            }
        } else {
            other_error(r, "Node is not a table"@) && d2 == d
        }
    }
}

pub open spec fn table_op_undone(c: TableOperationsCommand, d: DocumentV, r: Result<(), EditError>, d2: DocumentV) -> bool {
    match c.saved() {
        Some(n) => if c.node() < d.nodes.len() {
            r is Ok && d2 == with_node_at(d, c.node() as int, n)
        } else {
            same_error(r, EditError::IndexOutOfBounds) && d2 == d
        },
        None => other_error(r, "No original state to restore"@) && d2 == d,
    }
}

pub open spec fn cut_ran(d: DocumentV, r: Result<(), EditError>, d2: DocumentV) -> bool {
    r == cut_effect(d).0 && d2 == cut_effect(d).1
}

pub open spec fn cut_undone(c: CutSelectionCommand, d: DocumentV, r: Result<(), EditError>, d2: DocumentV) -> bool {
    r is Ok && d2 == (DocumentV {
        nodes: if c.removed() {
            reinserted(d.nodes, c.saved(), c.saved().len() as int)
        } else {
            restore_saved(d.nodes, c.saved(), c.saved().len() as int)
        },
        selection: if c.saved_selection() is Some { c.saved_selection() } else { d.selection },
        ..d
    })
}

pub open spec fn find_replace_ran(f: Seq<char>, rep: Seq<char>, cs: bool, d: DocumentV, r: Result<(), EditError>, d2: DocumentV) -> bool {
    match find_replace_result(d.nodes, f, rep, cs) {
        Some((ns, _, _)) => r is Ok && d2 == with_nodes(d, ns),
        None => false,
    }
}

pub open spec fn find_replace_undone(c: FindReplaceCommand, d: DocumentV, r: Result<(), EditError>, d2: DocumentV) -> bool {
    let (ns, ok) = restore_in_place(d.nodes, c.saved(), c.saved().len() as int);
    &&& d2 == with_nodes(d, ns)
    &&& ok ==> r is Ok
    &&& !ok ==> same_error(r, EditError::IndexOutOfBounds)
}

pub open spec fn sel_format_ran(f: TextFormatting, d: DocumentV, r: Result<(), EditError>, d2: DocumentV) -> bool {
    r == sel_format_effect(d, f).0 && d2 == sel_format_effect(d, f).1
}

pub open spec fn sel_format_undone(c: SelectionFormatCommand, d: DocumentV, r: Result<(), EditError>, d2: DocumentV) -> bool {
    r is Ok && d2 == (DocumentV {
        nodes: restore_present(d.nodes, c.saved(), c.saved().len() as int),
        selection: if c.saved_selection() is Some { c.saved_selection() } else { d.selection },
        ..d
    })
}

pub open spec fn sel_indent_undone(c: SelectionIndentCommand, d: DocumentV, r: Result<(), EditError>, d2: DocumentV) -> bool {
    r is Ok && d2 == (DocumentV {
        nodes: match c.saved() { Some(ns) => ns, None => d.nodes },
        selection: if c.saved_selection() is Some { c.saved_selection() } else { d.selection },
        ..d
    })
}

impl EditCommand {
    /// What running the command on `d` gives: the result `r` and the document `d2`.
    pub open spec fn ran(&self, d: DocumentV, r: Result<(), EditError>, d2: DocumentV) -> bool {
        match *self {
            EditCommand::InsertNode(c) => insert_node_ran(c.position(), c.node_v(), d, r, d2),
            EditCommand::DeleteNode(c) => delete_node_ran(c.index(), d, r, d2),
            EditCommand::MoveNode(c) => move_node_ran(c.from(), c.to(), d, r, d2),
            EditCommand::DuplicateNode(c) => duplicate_node_ran(c.index(), d, r, d2),
            EditCommand::InsertText(c) => insert_text_ran(c.node(), c.position(), c.text(), d, r, d2),
            EditCommand::FormatText(c) => format_text_ran(c.node(), c.start(), c.end(), c.formatting(), d, r, d2),
            EditCommand::DeleteText(c) => delete_text_ran(c.node(), c.start(), c.end(), d, r, d2),
            EditCommand::MergeNodes(c) => merge_nodes_ran(c.first(), c.second(), d, r, d2),
            EditCommand::ConvertNodeType(c) => convert_ran(c.node(), c.target(), d, r, d2),
            EditCommand::CreateTable(c) => create_table_ran(c, d, r, d2),
            EditCommand::TableOperations(c) => table_op_ran(c.node(), c.operation(), d, r, d2),
            EditCommand::CutSelection(_) => cut_ran(d, r, d2),
            EditCommand::FindReplace(c) => find_replace_ran(c.find(), c.replacement(), c.is_case_sensitive(), d, r, d2),
            EditCommand::SelectionFormat(c) => sel_format_ran(c.formatting(), d, r, d2),
            EditCommand::SelectionIndent(c) => r is Ok && d2 == indent_effect(d, c.direction()),
        }
    }

    /// What undoing the command on `d` gives: the result `r` and the document `d2`.
    pub open spec fn undone(&self, d: DocumentV, r: Result<(), EditError>, d2: DocumentV) -> bool {
        match *self {
            EditCommand::InsertNode(c) => remove_inserted(c.inserted(), d, r, d2),
            EditCommand::DeleteNode(c) => delete_node_undone(c, d, r, d2),
            EditCommand::MoveNode(c) => move_node_undone(c, d, r, d2),
            EditCommand::DuplicateNode(c) => remove_inserted(c.inserted(), d, r, d2),
            EditCommand::InsertText(c) => insert_text_undone(c, d, r, d2),
            EditCommand::FormatText(c) => format_text_undone(c, d, r, d2),
            EditCommand::DeleteText(c) => delete_text_undone(c, d, r, d2),
            EditCommand::MergeNodes(c) => merge_nodes_undone(c, d, r, d2),
            EditCommand::ConvertNodeType(c) => convert_undone(c, d, r, d2),
            EditCommand::CreateTable(c) => create_table_undone(c, d, r, d2),
            EditCommand::TableOperations(c) => table_op_undone(c, d, r, d2),
            EditCommand::CutSelection(c) => cut_undone(c, d, r, d2),
            EditCommand::FindReplace(c) => find_replace_undone(c, d, r, d2),
            EditCommand::SelectionFormat(c) => sel_format_undone(c, d, r, d2),
            EditCommand::SelectionIndent(c) => sel_indent_undone(c, d, r, d2),
        }
    }

    /// Undoing the command as it now stands, on `after`, succeeds and gives
    /// back `before`.
    pub open spec fn restores(&self, before: DocumentV, after: DocumentV) -> bool {
        forall|r: Result<(), EditError>, d2: DocumentV| #[trigger] self.undone(after, r, d2) ==> r is Ok && d2 == before
    }

    /// The runs from `d` that undo takes back exactly: every command that
    /// changes one node or the node list, inserting and deleting text,
    /// merging nodes, and a find-and-replace or a selection indent that has
    /// saved nothing yet.
    pub open spec fn exact_undo(&self, d: DocumentV) -> bool {
        match *self {
            EditCommand::InsertNode(_) => true,
            EditCommand::DeleteNode(_) => true,
            EditCommand::MoveNode(_) => true,
            EditCommand::DuplicateNode(_) => true,
            EditCommand::InsertText(_) => true,
            EditCommand::FormatText(_) => true,
            EditCommand::DeleteText(c) => c.node() < d.nodes.len()
                && node_selection_ok(d.nodes[c.node() as int], c.start() as int, c.end() as int),
            EditCommand::ConvertNodeType(_) => true,
            EditCommand::CreateTable(_) => true,
            EditCommand::TableOperations(_) => true,
            EditCommand::FindReplace(c) => c.saved().len() == 0,
            EditCommand::MergeNodes(_) => true,
            EditCommand::SelectionIndent(c) => c.saved() is None && c.saved_selection() is None,
            _ => false,
        }
    }

    /// The two commands are of the same kind with the same arguments.
    pub open spec fn same_kind(&self, other: EditCommand) -> bool {
        match (*self, other) {
            (EditCommand::InsertNode(a), EditCommand::InsertNode(b)) => a.position() == b.position() && a.node_v() == b.node_v(),
            (EditCommand::DeleteNode(a), EditCommand::DeleteNode(b)) => a.index() == b.index(),
            (EditCommand::MoveNode(a), EditCommand::MoveNode(b)) => a == b,
            (EditCommand::DuplicateNode(a), EditCommand::DuplicateNode(b)) => a.index() == b.index(),
            (EditCommand::InsertText(a), EditCommand::InsertText(b)) =>
                a.node() == b.node() && a.position() == b.position() && a.text() == b.text(),
            (EditCommand::FormatText(a), EditCommand::FormatText(b)) =>
                a.node() == b.node() && a.start() == b.start() && a.end() == b.end() && a.formatting() == b.formatting(),
            (EditCommand::DeleteText(a), EditCommand::DeleteText(b)) =>
                a.node() == b.node() && a.start() == b.start() && a.end() == b.end(),
            (EditCommand::MergeNodes(a), EditCommand::MergeNodes(b)) => a.first() == b.first() && a.second() == b.second(),
            (EditCommand::ConvertNodeType(a), EditCommand::ConvertNodeType(b)) => a.node() == b.node() && a.target() == b.target(),
            (EditCommand::CreateTable(a), EditCommand::CreateTable(b)) =>
                a.position() == b.position() && a.columns() == b.columns() && a.rows() == b.rows()
                    && a.with_header() == b.with_header() && a.alignments() == b.alignments() && a.data() == b.data(),
            (EditCommand::TableOperations(a), EditCommand::TableOperations(b)) => a.node() == b.node() && a.operation() == b.operation(),
            (EditCommand::CutSelection(_), EditCommand::CutSelection(_)) => true,
            (EditCommand::SelectionFormat(a), EditCommand::SelectionFormat(b)) => a.formatting() == b.formatting(),
            (EditCommand::SelectionIndent(a), EditCommand::SelectionIndent(b)) => a.direction() == b.direction(),
            (EditCommand::FindReplace(a), EditCommand::FindReplace(b)) =>
                a.find() == b.find() && a.replacement() == b.replacement() && a.is_case_sensitive() == b.is_case_sensitive(),
            _ => false,
        }
    }
}

impl Command for EditCommand {
    open spec fn can_execute(&self, document: &Document) -> bool {
        match *self {
            EditCommand::InsertNode(c) => c.can_execute(document),
            EditCommand::DeleteNode(c) => c.can_execute(document),
            EditCommand::MoveNode(c) => c.can_execute(document),
            EditCommand::DuplicateNode(c) => c.can_execute(document),
            EditCommand::InsertText(c) => c.can_execute(document),
            EditCommand::FormatText(c) => c.can_execute(document),
            EditCommand::DeleteText(c) => c.can_execute(document),
            EditCommand::MergeNodes(c) => c.can_execute(document),
            EditCommand::ConvertNodeType(c) => c.can_execute(document),
            EditCommand::CreateTable(c) => c.can_execute(document),
            EditCommand::TableOperations(c) => c.can_execute(document),
            EditCommand::CutSelection(c) => c.can_execute(document),
            EditCommand::FindReplace(c) => c.can_execute(document),
            EditCommand::SelectionFormat(c) => c.can_execute(document),
            EditCommand::SelectionIndent(c) => c.can_execute(document),
        }
    }

    open spec fn can_undo(&self, document: &Document) -> bool {
        match *self {
            EditCommand::InsertNode(c) => c.can_undo(document),
            EditCommand::DeleteNode(c) => c.can_undo(document),
            EditCommand::MoveNode(c) => c.can_undo(document),
            EditCommand::DuplicateNode(c) => c.can_undo(document),
            EditCommand::InsertText(c) => c.can_undo(document),
            EditCommand::FormatText(c) => c.can_undo(document),
            EditCommand::DeleteText(c) => c.can_undo(document),
            EditCommand::MergeNodes(c) => c.can_undo(document),
            EditCommand::ConvertNodeType(c) => c.can_undo(document),
            EditCommand::CreateTable(c) => c.can_undo(document),
            EditCommand::TableOperations(c) => c.can_undo(document),
            EditCommand::CutSelection(c) => c.can_undo(document),
            EditCommand::FindReplace(c) => c.can_undo(document),
            EditCommand::SelectionFormat(c) => c.can_undo(document),
            EditCommand::SelectionIndent(c) => c.can_undo(document),
        }
    }

    /// Runs the command held. After a run that undo takes back exactly
    /// (see `exact_undo`), the command as it now stands restores the
    /// document it ran on.
    fn execute(&mut self, document: &mut Document) -> (r: Result<(), EditError>)
        ensures
            old(self).ran(old(document)@, r, final(document)@),
            final(self).same_kind(*old(self)),
            r is Ok && old(self).exact_undo(old(document)@) ==> final(self).restores(old(document)@, final(document)@),
            r is Ok ==> final(self).can_undo(final(document)),
    {
        proof { crate::node::lemma_nodes_seq_v_index(document.nodes@); }
        let ghost d0 = document@;
        let n0 = document.nodes.len();
        assert(d0.nodes.len() == n0);
        match self {
            EditCommand::InsertNode(c) => {
                let r = c.execute(document);
                proof { if r is Ok { lemma_insert_node_restores(d0, *c, document@); } }
                r
            },
            EditCommand::DeleteNode(c) => {
                let r = c.execute(document);
                proof { if r is Ok { lemma_delete_node_restores(d0, *c, document@); } }
                r
            },
            EditCommand::MoveNode(c) => {
                let r = c.execute(document);
                proof {
                    if r is Ok {
                        lemma_move_node_restores(d0, *c, document@);
                        crate::node::lemma_nodes_seq_v_index(document.nodes@);
                        if c.from() != c.to() {
                            assert(d0.nodes.remove(c.from() as int).insert(move_target(c.from() as int, c.to() as int),
                                d0.nodes[c.from() as int]).len() == d0.nodes.len());
                        }
                        assert(document.nodes.len() == d0.nodes.len());
                    }
                }
                r
            },
            EditCommand::DuplicateNode(c) => {
                let r = c.execute(document);
                proof { if r is Ok { lemma_duplicate_node_restores(d0, *c, document@); } }
                r
            },
            EditCommand::InsertText(c) => {
                let r = c.execute(document);
                proof {
                    if r is Ok {
                        lemma_insert_text_restores(d0, *c, document@);
                        crate::node::lemma_nodes_seq_v_index(document.nodes@);
                    }
                }
                r
            },
            EditCommand::FormatText(c) => {
                let r = c.execute(document);
                proof {
                    if r is Ok {
                        let i = c.node() as int;
                        let ch = inlines_of(d0.nodes[i]);
                        lemma_format_text_restores(d0, *c,
                            format_all(ch, c.start() as int, c.end() as int, c.formatting(), ch.len() as int));
                    }
                }
                r
            },
            EditCommand::DeleteText(c) => {
                let r = c.execute(document);
                proof {
                    if r is Ok && c.node() < d0.nodes.len()
                        && node_selection_ok(d0.nodes[c.node() as int], c.start() as int, c.end() as int) {
                        lemma_delete_text_restores(d0, *c);
                        lemma_delete_text_undo_safe(d0, *c);
                    }
                }
                r
            },
            EditCommand::MergeNodes(c) => {
                let r = c.execute(document);
                proof { if r is Ok { lemma_merge_restores(d0, *c); lemma_merge_undo_safe(d0, *c); } }
                r
            },
            EditCommand::ConvertNodeType(c) => {
                let r = c.execute(document);
                proof {
                    if r is Ok {
                        let i = c.node() as int;
                        lemma_convert_restores(d0, *c, converted(convert_content(d0.nodes[i])->0, c.target()));
                    }
                }
                r
            },
            EditCommand::CreateTable(c) => {
                let r = c.execute(document);
                proof { lemma_create_table_restores(d0, *c, document@); }
                r
            },
            EditCommand::TableOperations(c) => {
                let r = c.execute(document);
                proof {
                    if r is Ok {
                        let i = c.node() as int;
                        lemma_table_op_restores(d0, *c,
                            table_node(table_op_result(table_of(d0.nodes[i]), c.operation())->Ok_0));
                    }
                }
                r
            },
            EditCommand::CutSelection(c) => c.execute(document),
            EditCommand::FindReplace(c) => {
                let ghost s0 = c.saved();
                let r = c.execute(document);
                proof {
                    if s0.len() == 0 && c.find().len() > 0 {
                        assert(s0 + (find_replace_result(d0.nodes, c.find(), c.replacement(), c.is_case_sensitive())->0).2
                            =~= (find_replace_result(d0.nodes, c.find(), c.replacement(), c.is_case_sensitive())->0).2);
                        lemma_find_replace_restores(d0, *c);
                    } else if s0.len() == 0 {
                        assert forall|r2: Result<(), EditError>, d2: DocumentV| #[trigger] EditCommand::FindReplace(*c).undone(document@, r2, d2)
                            implies r2 is Ok && d2 == d0 by {
                            assert(d0.nodes =~= document@.nodes);
                        }
                    }
                }
                r
            },
            EditCommand::SelectionFormat(c) => c.execute(document),
            EditCommand::SelectionIndent(c) => {
                let ghost fresh = c.saved() is None && c.saved_selection() is None;
                let r = c.execute(document);
                proof { if fresh { lemma_selection_indent_restores(d0, *c); } }
                r
            },
        }
    }

    /// Undoes the command held.
    fn undo(&mut self, document: &mut Document) -> (r: Result<(), EditError>)
        ensures
            old(self).undone(old(document)@, r, final(document)@),
            final(self).same_kind(*old(self)),
    {
        proof { crate::node::lemma_nodes_seq_v_index(document.nodes@); }
        match self {
            EditCommand::InsertNode(c) => c.undo(document),
            EditCommand::DeleteNode(c) => c.undo(document),
            EditCommand::MoveNode(c) => c.undo(document),
            EditCommand::DuplicateNode(c) => c.undo(document),
            EditCommand::InsertText(c) => c.undo(document),
            EditCommand::FormatText(c) => c.undo(document),
            EditCommand::DeleteText(c) => c.undo(document),
            EditCommand::MergeNodes(c) => c.undo(document),
            EditCommand::ConvertNodeType(c) => c.undo(document),
            EditCommand::CreateTable(c) => c.undo(document),
            EditCommand::TableOperations(c) => c.undo(document),
            EditCommand::CutSelection(c) => c.undo(document),
            EditCommand::FindReplace(c) => c.undo(document),
            EditCommand::SelectionFormat(c) => c.undo(document),
            EditCommand::SelectionIndent(c) => c.undo(document),
        }
    }
}

} // verus!
