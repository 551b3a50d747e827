//! Transactions: several editing commands applied as one change, or not at
//! all.
use vstd::prelude::*;
use crate::document::{Document, DocumentV};
use crate::error::EditError;
use crate::inline::TextFormatting;
use crate::node::{Node, lemma_nodes_seq_v_index};
use crate::selection::{Position, Selection, SelectionV, selection_v, pos_v, opt_selection_v};
use crate::editor::command::Command;
use crate::editor::history::EditCommand;
use crate::editor::batch::{batch_ran, batch_can_run, same_kinds, run_batch};
use crate::editor::node_commands::{InsertNodeCommand, DeleteNodeCommand, MoveNodeCommand, DuplicateNodeCommand};
use crate::editor::text_commands::{InsertTextCommand, FormatTextCommand};
use crate::editor::edit_commands::{DeleteTextCommand, MergeNodesCommand};
use crate::editor::convert_command::{ConvertNodeTypeCommand, NodeConversionType};
use crate::editor::table_commands::{CreateTableCommand, TableOperation, TableOperationsCommand};
use crate::editor::selection_format::SelectionFormatCommand;
use crate::editor::selection_indent::{IndentDirection, SelectionIndentCommand};

verus! {

/// Whether a command may run depends on the document's model alone.
pub proof fn lemma_can_execute_view(c: EditCommand, a: Document, b: Document)
    requires a@ == b@,
    ensures c.can_execute(&a) == c.can_execute(&b),
{
    lemma_nodes_seq_v_index(a.nodes@);
    lemma_nodes_seq_v_index(b.nodes@);
}

/// Whether a batch may run depends on the document's model alone.
pub proof fn lemma_batch_can_run_view(cmds: Seq<EditCommand>, a: Document, b: Document)
    requires a@ == b@,
    ensures batch_can_run(cmds, a) == batch_can_run(cmds, b),
    decreases cmds.len(),
{
    if cmds.len() > 0 {
        lemma_can_execute_view(cmds[0], a, b);
    }
}

/// A group of editing commands that are applied together when committed.
pub struct Transaction {
    commands: Vec<EditCommand>,
    committed: bool,
    selection: Option<Selection>,
}

impl Transaction {
    /// The commands added so far, in order.
    pub closed spec fn commands(&self) -> Seq<EditCommand> {
        self.commands@
    }

    /// The selection the transaction has set, if any.
    pub closed spec fn selected(&self) -> Option<SelectionV> {
        opt_selection_v(self.selection)
    }

    /// Whether the transaction was committed or discarded.
    pub closed spec fn is_committed(&self) -> bool {
        self.committed
    }

    /// Creates an empty transaction
    pub fn new() -> (r: Self)
        ensures r.commands().len() == 0, r.selected() is None, !r.is_committed(),
    {
        Transaction { commands: Vec::new(), committed: false, selection: None }
    }

    /// Appends a command.
    fn add_command(&mut self, c: EditCommand)
        ensures
            final(self).commands() == old(self).commands().push(c),
            final(self).selected() == old(self).selected(),
            final(self).is_committed() == old(self).is_committed(),
    {
        self.commands.push(c);
    }

    /// Adds inserting `text` at byte `position` of the node at `node_index`.
    pub fn insert_text(&mut self, node_index: usize, position: usize, text: &str) -> (r: &mut Self)
        ensures
            r.commands().len() == old(self).commands().len() + 1,
            r.commands().drop_last() == old(self).commands(),
            r.commands().last() matches EditCommand::InsertText(c)
                && c.node() == node_index && c.position() == position && c.text() == text@ && c.saved() is None,
            r.selected() == old(self).selected(),
            r.is_committed() == old(self).is_committed(),
            *final(r) == *final(self),
    {
        self.add_command(EditCommand::InsertText(InsertTextCommand::new(node_index, position, text.to_owned())));
        self
    }

    /// Adds deleting bytes `start..end` of the node at `node_index`.
    pub fn delete_text(&mut self, node_index: usize, start: usize, end: usize) -> (r: &mut Self)
        ensures
            r.commands().len() == old(self).commands().len() + 1,
            r.commands().drop_last() == old(self).commands(),
            r.commands().last() matches EditCommand::DeleteText(c)
                && c.node() == node_index && c.start() == start && c.end() == end && c.deleted() is None,
            r.selected() == old(self).selected(),
            r.is_committed() == old(self).is_committed(),
            *final(r) == *final(self),
    {
        self.add_command(EditCommand::DeleteText(DeleteTextCommand::new(node_index, start, end)));
        self
    }

    /// Adds formatting bytes `start..end` of the node at `node_index`.
    pub fn format_text(&mut self, node_index: usize, start: usize, end: usize, formatting: TextFormatting) -> (r: &mut Self)
        ensures
            r.commands().len() == old(self).commands().len() + 1,
            r.commands().drop_last() == old(self).commands(),
            r.commands().last() matches EditCommand::FormatText(c)
                && c.node() == node_index && c.start() == start && c.end() == end && c.formatting() == formatting
                && c.saved() is None,
            r.selected() == old(self).selected(),
            r.is_committed() == old(self).is_committed(),
            *final(r) == *final(self),
    {
        self.add_command(EditCommand::FormatText(FormatTextCommand::new(node_index, start, end, formatting)));
        self
    }

    /// Adds inserting `node` at `position`.
    pub fn insert_node(&mut self, position: usize, node: Node) -> (r: &mut Self)
        ensures
            r.commands().len() == old(self).commands().len() + 1,
            r.commands().drop_last() == old(self).commands(),
            r.commands().last() matches EditCommand::InsertNode(c)
                && c.position() == position && c.node_v() == node@ && c.inserted() is None,
            r.selected() == old(self).selected(),
            r.is_committed() == old(self).is_committed(),
            *final(r) == *final(self),
    {
        self.add_command(EditCommand::InsertNode(InsertNodeCommand::new(position, node)));
        self
    }

    /// Adds inserting a paragraph holding `text` at `position`.
    pub fn insert_paragraph(&mut self, position: usize, text: &str) -> (r: &mut Self)
        ensures
            r.commands().len() == old(self).commands().len() + 1,
            r.commands().drop_last() == old(self).commands(),
            r.commands().last() matches EditCommand::InsertNode(c)
                && c.position() == position && c.node_v() == crate::node::para_v(text@) && c.inserted() is None,
            r.selected() == old(self).selected(),
            r.is_committed() == old(self).is_committed(),
            *final(r) == *final(self),
    {
        self.add_command(EditCommand::InsertNode(InsertNodeCommand::new_paragraph(position, text)));
        self
    }

    /// Adds inserting a heading (level clamped to 1..=6) at `position`.
    pub fn insert_heading(&mut self, position: usize, level: u8, text: &str) -> (r: &mut Self)
        ensures
            r.commands().len() == old(self).commands().len() + 1,
            r.commands().drop_last() == old(self).commands(),
            r.commands().last() matches EditCommand::InsertNode(c)
                && c.position() == position && c.inserted() is None
                && c.node_v() == (crate::node::NodeV::Heading {
                    level: crate::node::clamp_level(level),
                    children: seq![crate::inline::plain_text_v(text@)],
                }),
            r.selected() == old(self).selected(),
            r.is_committed() == old(self).is_committed(),
            *final(r) == *final(self),
    {
        self.add_command(EditCommand::InsertNode(InsertNodeCommand::new_heading(position, level, text)));
        self
    }

    /// Adds inserting a code block at `position`.
    pub fn insert_code_block(&mut self, position: usize, code: &str, language: &str) -> (r: &mut Self)
        ensures
            r.commands().len() == old(self).commands().len() + 1,
            r.commands().drop_last() == old(self).commands(),
            r.commands().last() matches EditCommand::InsertNode(c)
                && c.position() == position && c.inserted() is None
                && c.node_v() == (crate::node::NodeV::CodeBlock { language: language@, code: code@ }),
            r.selected() == old(self).selected(),
            r.is_committed() == old(self).is_committed(),
            *final(r) == *final(self),
    {
        self.add_command(EditCommand::InsertNode(InsertNodeCommand::new_code_block(position, code, language)));
        self
    }

    /// Adds deleting the node at `node_index`.
    pub fn delete_node(&mut self, node_index: usize) -> (r: &mut Self)
        ensures
            r.commands().len() == old(self).commands().len() + 1,
            r.commands().drop_last() == old(self).commands(),
            r.commands().last() matches EditCommand::DeleteNode(c)
                && c.index() == node_index && c.deleted() is None,
            r.selected() == old(self).selected(),
            r.is_committed() == old(self).is_committed(),
            *final(r) == *final(self),
    {
        self.add_command(EditCommand::DeleteNode(DeleteNodeCommand::new(node_index)));
        self
    }

    /// Adds moving the node at `from_index` to before `to_index`.
    pub fn move_node(&mut self, from_index: usize, to_index: usize) -> (r: &mut Self)
        ensures
            r.commands().len() == old(self).commands().len() + 1,
            r.commands().drop_last() == old(self).commands(),
            r.commands().last() matches EditCommand::MoveNode(c) && c.from() == from_index && c.to() == to_index,
            r.selected() == old(self).selected(),
            r.is_committed() == old(self).is_committed(),
            *final(r) == *final(self),
    {
        self.add_command(EditCommand::MoveNode(MoveNodeCommand::new(from_index, to_index)));
        self
    }

    /// Adds converting the node at `node_index` to another kind.
    pub fn convert_node_type(&mut self, node_index: usize, target_type: NodeConversionType) -> (r: &mut Self)
        ensures
            r.commands().len() == old(self).commands().len() + 1,
            r.commands().drop_last() == old(self).commands(),
            r.commands().last() matches EditCommand::ConvertNodeType(c)
                && c.node() == node_index && c.target() == target_type && c.saved() is None,
            r.selected() == old(self).selected(),
            r.is_committed() == old(self).is_committed(),
            *final(r) == *final(self),
    {
        self.add_command(EditCommand::ConvertNodeType(ConvertNodeTypeCommand::new(node_index, target_type)));
        self
    }

    /// Adds merging the node at `second_index` into the one at `first_index`.
    pub fn merge_nodes(&mut self, first_index: usize, second_index: usize) -> (r: &mut Self)
        ensures
            r.commands().len() == old(self).commands().len() + 1,
            r.commands().drop_last() == old(self).commands(),
            r.commands().last() matches EditCommand::MergeNodes(c)
                && c.first() == first_index && c.second() == second_index && c.saved() is None,
            r.selected() == old(self).selected(),
            r.is_committed() == old(self).is_committed(),
            *final(r) == *final(self),
    {
        self.add_command(EditCommand::MergeNodes(MergeNodesCommand::new(first_index, second_index)));
        self
    }

    /// Adds duplicating the node at `node_index`.
    pub fn duplicate_node(&mut self, node_index: usize) -> (r: &mut Self)
        ensures
            r.commands().len() == old(self).commands().len() + 1,
            r.commands().drop_last() == old(self).commands(),
            r.commands().last() matches EditCommand::DuplicateNode(c) && c.index() == node_index && c.inserted() is None,
            r.selected() == old(self).selected(),
            r.is_committed() == old(self).is_committed(),
            *final(r) == *final(self),
    {
        self.add_command(EditCommand::DuplicateNode(DuplicateNodeCommand::new(node_index)));
        self
    }

    /// Adds formatting the selected text.
    pub fn format_selection(&mut self, formatting: TextFormatting) -> (r: &mut Self)
        ensures
            r.commands().len() == old(self).commands().len() + 1,
            r.commands().drop_last() == old(self).commands(),
            r.commands().last() matches EditCommand::SelectionFormat(c)
                && c.formatting() == formatting && c.saved().len() == 0 && c.saved_selection() is None,
            r.selected() == old(self).selected(),
            r.is_committed() == old(self).is_committed(),
            *final(r) == *final(self),
    {
        self.add_command(EditCommand::SelectionFormat(SelectionFormatCommand::new(formatting)));
        self
    }

    /// Adds indenting the selected nodes.
    pub fn indent_selection(&mut self) -> (r: &mut Self)
        ensures
            r.commands().len() == old(self).commands().len() + 1,
            r.commands().drop_last() == old(self).commands(),
            r.commands().last() matches EditCommand::SelectionIndent(c)
                && c.direction() == IndentDirection::Increase && c.saved() is None && c.saved_selection() is None,
            r.selected() == old(self).selected(),
            r.is_committed() == old(self).is_committed(),
            *final(r) == *final(self),
    {
        self.add_command(EditCommand::SelectionIndent(SelectionIndentCommand::new(IndentDirection::Increase)));
        self
    }

    /// Adds unindenting the selected nodes.
    pub fn unindent_selection(&mut self) -> (r: &mut Self)
        ensures
            r.commands().len() == old(self).commands().len() + 1,
            r.commands().drop_last() == old(self).commands(),
            r.commands().last() matches EditCommand::SelectionIndent(c)
                && c.direction() == IndentDirection::Decrease && c.saved() is None && c.saved_selection() is None,
            r.selected() == old(self).selected(),
            r.is_committed() == old(self).is_committed(),
            *final(r) == *final(self),
    {
        self.add_command(EditCommand::SelectionIndent(SelectionIndentCommand::new(IndentDirection::Decrease)));
        self
    }

    /// Adds creating an empty table at `position`.
    pub fn create_table(&mut self, position: usize, columns: usize, rows: usize, with_header: bool) -> (r: &mut Self)
        ensures
            r.commands().len() == old(self).commands().len() + 1,
            r.commands().drop_last() == old(self).commands(),
            r.commands().last() matches EditCommand::CreateTable(c)
                && c.position() == position && c.columns() == columns && c.rows() == rows
                && c.with_header() == with_header && c.data() is None && c.saved() is None
                && c.alignments() == Seq::new(columns as nat, |i: int| crate::node::TableAlignment::Unaligned),
            r.selected() == old(self).selected(),
            r.is_committed() == old(self).is_committed(),
            *final(r) == *final(self),
    {
        self.add_command(EditCommand::CreateTable(CreateTableCommand::new(position, columns, rows, with_header)));
        self
    }

    /// Adds an operation on the table at `node_index`.
    pub fn table_operation(&mut self, node_index: usize, operation: TableOperation) -> (r: &mut Self)
        ensures
            r.commands().len() == old(self).commands().len() + 1,
            r.commands().drop_last() == old(self).commands(),
            r.commands().last() matches EditCommand::TableOperations(c)
                && c.node() == node_index && c.operation() == operation && c.saved() is None,
            r.selected() == old(self).selected(),
            r.is_committed() == old(self).is_committed(),
            *final(r) == *final(self),
    {
        self.add_command(EditCommand::TableOperations(TableOperationsCommand::new(node_index, operation)));
        self
    }

    /// Selects the node at `node_index` (to the largest offset), when the
    /// index lies within the document.
    pub fn select_node(&mut self, document: &Document, node_index: usize) -> (r: &mut Self)
        ensures
            r.commands() == old(self).commands(),
            r.is_committed() == old(self).is_committed(),
            r.selected() == if node_index < document.nodes.len() {
                Some(selection_v(pos_v(node_index, 0), pos_v(node_index, usize::MAX)))
            } else {
                old(self).selected()
            },
            *final(r) == *final(self),
    {
        if node_index < document.nodes.len() {
            self.selection = Some(Selection::new(Position::at_node(node_index, 0), Position::at_node(node_index, usize::MAX)));
        }
        self
    }

    /// Selects bytes `start..end` of the node at `node_index`, when the
    /// index lies within the document.
    pub fn select_text_range(&mut self, document: &Document, node_index: usize, start: usize, end: usize) -> (r: &mut Self)
        ensures
            r.commands() == old(self).commands(),
            r.is_committed() == old(self).is_committed(),
            r.selected() == if node_index < document.nodes.len() {
                Some(selection_v(pos_v(node_index, start), pos_v(node_index, end)))
            } else {
                old(self).selected()
            },
            *final(r) == *final(self),
    {
        if node_index < document.nodes.len() {
            self.selection = Some(Selection::new(Position::at_node(node_index, start), Position::at_node(node_index, end)));
        }
        self
    }

    /// Clears the selection.
    pub fn clear_selection(&mut self) -> (r: &mut Self)
        ensures
            r.commands() == old(self).commands(),
            r.is_committed() == old(self).is_committed(),
            r.selected() is None,
            *final(r) == *final(self),
    {
        self.selection = None;
        self
    }

    /// Applies all the commands, in order, to the document. When one fails
    /// the document is left as it was and the error returned; otherwise the
    /// commands, as run, are returned for the undo history.
    pub fn commit(self, document: &mut Document) -> (r: Result<Vec<EditCommand>, EditError>)
        requires
            !self.is_committed() ==> batch_can_run(self.commands(), *old(document)),
        ensures
            self.is_committed() ==> (r matches Err(EditError::Other(m)) && m@ == "Transaction already committed"@)
                && final(document)@ == old(document)@,
            !self.is_committed() ==> match r {
                Ok(cmds) => batch_ran(self.commands(), old(document)@, Ok(()), final(document)@)
                    && same_kinds(cmds@, self.commands()),
                Err(e) => final(document)@ == old(document)@
                    && exists|d2: DocumentV| batch_ran(self.commands(), old(document)@, Err(e), d2),
            },
    {
        if self.committed {
            return Err(EditError::Other("Transaction already committed".to_owned()));
        }
        let mut commands = self.commands;
        if commands.len() == 0 {
            proof { assert(batch_ran(commands@, document@, Ok(()), document@)); }
            return Ok(commands);
        }
        let mut work = document.clone();
        proof { lemma_batch_can_run_view(commands@, *document, work); }
        let ghost c0 = commands@;
        let r = run_batch(&mut commands, &mut work);
        let ghost w = work@;
        match r {
            Ok(u) => {
                assert(u == ());
                *document = work;
                Ok(commands)
            },
            Err(e) => {
                assert(batch_ran(c0, old(document)@, Err(e), w));
                Err(e)
            },
        }
    }

    /// Drops the transaction without applying anything.
    pub fn discard(self)
    {
    }
}

} // verus!
