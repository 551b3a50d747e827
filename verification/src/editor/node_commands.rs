//! Commands that insert, delete, move and duplicate top-level nodes.
use vstd::prelude::*;
use crate::document::{Document, DocumentV, lemma_nodes_insert, lemma_nodes_remove};
use crate::error::EditError;
use crate::inline::{InlineNode, single_inline, plain_text_v};
use crate::node::{Node, NodeV, copy_node, lemma_nodes_seq_v_index, para_v, clamp_level};
use crate::editor::command::{Command, with_nodes};

verus! {

/// Command to insert a node at a position in the document
pub struct InsertNodeCommand {
    position: usize,
    node: Node,
    inserted_index: Option<usize>,
}

/// Command to delete a node
pub struct DeleteNodeCommand {
    node_index: usize,
    deleted_node: Option<Node>,
}

/// Command to move a node to another position
pub struct MoveNodeCommand {
    from_index: usize,
    to_index: usize,
}

/// Command to duplicate a node, placing the copy right after it
pub struct DuplicateNodeCommand {
    node_index: usize,
    new_node_index: Option<usize>,
}

/// Whether a node is one of the temporary kinds used while parsing.
pub open spec fn is_temp(n: NodeV) -> bool {
    n is TempListItem || n is TempTableCell
}

/// Where a moved node lands, once it has been taken out.
pub open spec fn move_target(from: int, to: int) -> int {
    if to > from { to - 1 } else { to }
}

/// The document model after moving the node at `from` to before `to`.
pub open spec fn move_effect(d: DocumentV, from: int, to: int) -> DocumentV {
    if from == to {
        d
    } else {
        with_nodes(d, d.nodes.remove(from).insert(move_target(from, to), d.nodes[from]))
    }
}

impl InsertNodeCommand {
    /// The node this command inserts.
    pub closed spec fn node_v(&self) -> NodeV {
        self.node@
    }

    /// The position this command inserts at.
    pub closed spec fn position(&self) -> usize {
        self.position
    }

    /// Where the last execution inserted the node, if it is in effect.
    pub closed spec fn inserted(&self) -> Option<usize> {
        self.inserted_index
    }

    /// Creates a command that inserts `node` at `position`
    pub fn new(position: usize, node: Node) -> (r: Self)
        ensures r.node_v() == node@, r.position() == position, r.inserted() is None,
    {
        InsertNodeCommand { position, node, inserted_index: None }
    }

    /// Creates a command that inserts a paragraph holding `text`
    pub fn new_paragraph(position: usize, text: &str) -> (r: Self)
        ensures r.node_v() == para_v(text@), r.position() == position, r.inserted() is None,
    {
        Self::new(position, Node::Paragraph { children: single_inline(InlineNode::text(text)) })
    }

    /// Creates a command that inserts a heading; the level is clamped to 1..=6
    pub fn new_heading(position: usize, level: u8, text: &str) -> (r: Self)
        ensures
            r.node_v() == (NodeV::Heading { level: clamp_level(level), children: seq![plain_text_v(text@)] }),
            r.position() == position,
            r.inserted() is None,
    {
        let safe_level = if level < 1 { 1 } else if level > 6 { 6 } else { level };
        Self::new(position, Node::Heading { level: safe_level, children: single_inline(InlineNode::text(text)) })
    }

    /// Creates a command that inserts a code block
    pub fn new_code_block(position: usize, code: &str, language: &str) -> (r: Self)
        ensures
            r.node_v() == (NodeV::CodeBlock { language: language@, code: code@ }),
            r.position() == position,
            r.inserted() is None,
    {
        Self::new(position, Node::CodeBlock { language: language.to_owned(), code: code.to_owned() })
    }

    /// Creates a command that inserts a thematic break
    pub fn new_thematic_break(position: usize) -> (r: Self)
        ensures r.node_v() == NodeV::ThematicBreak, r.position() == position, r.inserted() is None,
    {
        Self::new(position, Node::ThematicBreak)
    }
}

impl Command for InsertNodeCommand {
    open spec fn can_execute(&self, document: &Document) -> bool {
        true
    }

    open spec fn can_undo(&self, document: &Document) -> bool {
        true
    }

    /// Inserts a copy of the node; fails on a position past the end or a
    /// temporary node kind, changing nothing.
    fn execute(&mut self, document: &mut Document) -> (r: Result<(), EditError>)
        ensures
            final(self).node_v() == old(self).node_v(),
            final(self).position() == old(self).position(),
            old(self).position() > old(document).nodes.len() ==> (r matches Err(EditError::IndexOutOfBounds)),
            old(self).position() <= old(document).nodes.len() && is_temp(old(self).node_v())
                ==> (r matches Err(EditError::UnsupportedOperation)),
            r is Ok <==> (old(self).position() <= old(document).nodes.len() && !is_temp(old(self).node_v())),
            r is Ok ==> final(document)@ == with_nodes(old(document)@, old(document)@.nodes.insert(old(self).position() as int, old(self).node_v()))
                && final(self).inserted() == Some(old(self).position()),
            r is Err ==> final(document)@ == old(document)@ && final(self).inserted() == old(self).inserted(),
    {
        if self.position > document.nodes.len() {
            return Err(EditError::IndexOutOfBounds);
        }
        match &self.node {
            Node::TempListItem(_) | Node::TempTableCell(_) => { return Err(EditError::UnsupportedOperation); },
            _ => {},
        }
        let n = copy_node(&self.node);
        proof { lemma_nodes_insert(document.nodes@, self.position as int, n); }
        document.nodes.insert(self.position, n);
        self.inserted_index = Some(self.position);
        Ok(())
    }

    /// Removes the inserted node again.
    fn undo(&mut self, document: &mut Document) -> (r: Result<(), EditError>)
        ensures
            final(self).node_v() == old(self).node_v(),
            final(self).position() == old(self).position(),
            match old(self).inserted() {
                None => (r matches Err(EditError::OperationFailed)) && final(document)@ == old(document)@
                    && final(self).inserted() is None,
                Some(i) => if i >= old(document).nodes.len() {
                    (r matches Err(EditError::IndexOutOfBounds)) && final(document)@ == old(document)@
                        && final(self).inserted() == old(self).inserted()
                } else {
                    r is Ok && final(document)@ == with_nodes(old(document)@, old(document)@.nodes.remove(i as int))
                        && final(self).inserted() is None
                },
            },
    {
        match self.inserted_index {
            Some(index) => {
                if index >= document.nodes.len() {
                    return Err(EditError::IndexOutOfBounds);
                }
                proof { lemma_nodes_remove(document.nodes@, index as int); }
                document.nodes.remove(index);
                self.inserted_index = None;
                Ok(())
            },
            None => Err(EditError::OperationFailed),
        }
    }
}

impl DeleteNodeCommand {
    /// The index of the node to delete.
    pub closed spec fn index(&self) -> usize {
        self.node_index
    }

    /// The node removed by the last execution, if any.
    pub closed spec fn deleted(&self) -> Option<NodeV> {
        match self.deleted_node {
            Some(n) => Some(n@),
            None => None,
        }
    }

    /// Creates a command that deletes the node at `node_index`
    pub fn new(node_index: usize) -> (r: Self)
        ensures r.index() == node_index, r.deleted() is None,
    {
        DeleteNodeCommand { node_index, deleted_node: None }
    }
}

impl Command for DeleteNodeCommand {
    open spec fn can_execute(&self, document: &Document) -> bool {
        true
    }

    open spec fn can_undo(&self, document: &Document) -> bool {
        true
    }

    /// Removes the node, keeping it for undo; fails on an index out of range.
    fn execute(&mut self, document: &mut Document) -> (r: Result<(), EditError>)
        ensures
            final(self).index() == old(self).index(),
            old(self).index() >= old(document).nodes.len() ==> (r matches Err(EditError::IndexOutOfBounds))
                && final(document)@ == old(document)@ && final(self).deleted() == old(self).deleted(),
            old(self).index() < old(document).nodes.len() ==> r is Ok
                && final(document)@ == with_nodes(old(document)@, old(document)@.nodes.remove(old(self).index() as int))
                && final(self).deleted() == Some(old(document)@.nodes[old(self).index() as int]),
    {
        if self.node_index >= document.nodes.len() {
            return Err(EditError::IndexOutOfBounds);
        }
        proof {
            lemma_nodes_remove(document.nodes@, self.node_index as int);
            lemma_nodes_seq_v_index(document.nodes@);
        }
        let n = document.nodes.remove(self.node_index);
        self.deleted_node = Some(n);
        Ok(())
    }

    /// Puts the deleted node back at its index (or at the end, when the
    /// document has become shorter).
    fn undo(&mut self, document: &mut Document) -> (r: Result<(), EditError>)
        ensures
            final(self).index() == old(self).index(),
            final(self).deleted() == old(self).deleted(),
            match old(self).deleted() {
                None => (r matches Err(EditError::OperationFailed)) && final(document)@ == old(document)@,
                Some(n) => r is Ok && final(document)@ == with_nodes(old(document)@,
                    if old(self).index() > old(document).nodes.len() {
                        old(document)@.nodes.push(n)
                    } else {
                        old(document)@.nodes.insert(old(self).index() as int, n)
                    }),
            },
    {
        match &self.deleted_node {
            Some(node) => {
                let c = copy_node(node);
                if self.node_index > document.nodes.len() {
                    proof { crate::node::lemma_nodes_seq_v_push(document.nodes@, c); }
                    document.nodes.push(c);
                } else {
                    proof { lemma_nodes_insert(document.nodes@, self.node_index as int, c); }
                    document.nodes.insert(self.node_index, c);
                }
                Ok(())
            },
            None => Err(EditError::OperationFailed),
        }
    }
}

impl MoveNodeCommand {
    /// Where the node is taken from.
    pub closed spec fn from(&self) -> usize {
        self.from_index
    }

    /// Where the node is moved to (before the node now at that index).
    pub closed spec fn to(&self) -> usize {
        self.to_index
    }

    /// Creates a command that moves the node at `from_index` to `to_index`
    pub fn new(from_index: usize, to_index: usize) -> (r: Self)
        ensures r.from() == from_index, r.to() == to_index,
    {
        MoveNodeCommand { from_index, to_index }
    }
}

impl Command for MoveNodeCommand {
    open spec fn can_execute(&self, document: &Document) -> bool {
        true
    }

    /// Moving the node back needs `from` to lie within the shortened list.
    open spec fn can_undo(&self, document: &Document) -> bool {
        move_target(self.from() as int, self.to() as int) < document.nodes.len()
            ==> self.from() < document.nodes.len()
    }

    /// Moves the node; fails when `from` is out of range or `to` is past the end.
    fn execute(&mut self, document: &mut Document) -> (r: Result<(), EditError>)
        ensures
            *final(self) == *old(self),
            (old(self).from() >= old(document).nodes.len() || old(self).to() > old(document).nodes.len())
                ==> (r matches Err(EditError::IndexOutOfBounds)) && final(document)@ == old(document)@,
            (old(self).from() < old(document).nodes.len() && old(self).to() <= old(document).nodes.len())
                ==> r is Ok && final(document)@ == move_effect(old(document)@, old(self).from() as int, old(self).to() as int),
    {
        if self.from_index >= document.nodes.len() {
            return Err(EditError::IndexOutOfBounds);
        }
        if self.to_index > document.nodes.len() {
            return Err(EditError::IndexOutOfBounds);
        }
        if self.from_index == self.to_index {
            return Ok(());
        }
        proof {
            lemma_nodes_remove(document.nodes@, self.from_index as int);
            lemma_nodes_seq_v_index(document.nodes@);
        }
        let node = document.nodes.remove(self.from_index);
        let adjusted = if self.to_index > self.from_index { self.to_index - 1 } else { self.to_index };
        proof { lemma_nodes_insert(document.nodes@, adjusted as int, node); }
        document.nodes.insert(adjusted, node);
        Ok(())
    }

    /// Moves the node back from where execute put it to `from`.
    fn undo(&mut self, document: &mut Document) -> (r: Result<(), EditError>)
        ensures
            *final(self) == *old(self),
            move_target(old(self).from() as int, old(self).to() as int) >= old(document).nodes.len()
                ==> (r matches Err(EditError::IndexOutOfBounds)) && final(document)@ == old(document)@,
            move_target(old(self).from() as int, old(self).to() as int) < old(document).nodes.len()
                && old(self).from() <= old(document).nodes.len() - 1
                ==> r is Ok && final(document)@ == with_nodes(old(document)@,
                    old(document)@.nodes.remove(move_target(old(self).from() as int, old(self).to() as int))
                        .insert(old(self).from() as int, old(document)@.nodes[move_target(old(self).from() as int, old(self).to() as int)])),
    {
        let current = if self.to_index > self.from_index { self.to_index - 1 } else { self.to_index };
        if current >= document.nodes.len() {
            return Err(EditError::IndexOutOfBounds);
        }
        proof {
            lemma_nodes_remove(document.nodes@, current as int);
            lemma_nodes_seq_v_index(document.nodes@);
        }
        let node = document.nodes.remove(current);
        proof { lemma_nodes_insert(document.nodes@, self.from_index as int, node); }
        document.nodes.insert(self.from_index, node);
        Ok(())
    }
}

impl DuplicateNodeCommand {
    /// The index of the node to duplicate.
    pub closed spec fn index(&self) -> usize {
        self.node_index
    }

    /// Where the copy was inserted, if it is in effect.
    pub closed spec fn inserted(&self) -> Option<usize> {
        self.new_node_index
    }

    /// Creates a command that duplicates the node at `node_index`
    pub fn new(node_index: usize) -> (r: Self)
        ensures r.index() == node_index, r.inserted() is None,
    {
        DuplicateNodeCommand { node_index, new_node_index: None }
    }
}

impl Command for DuplicateNodeCommand {
    open spec fn can_execute(&self, document: &Document) -> bool {
        true
    }

    open spec fn can_undo(&self, document: &Document) -> bool {
        true
    }

    /// Inserts a copy of the node right after it; fails on an index out of
    /// range or a temporary node kind.
    fn execute(&mut self, document: &mut Document) -> (r: Result<(), EditError>)
        ensures
            final(self).index() == old(self).index(),
            old(self).index() >= old(document).nodes.len() ==> (r matches Err(EditError::IndexOutOfBounds)),
            old(self).index() < old(document).nodes.len() && is_temp(old(document)@.nodes[old(self).index() as int])
                ==> (r matches Err(EditError::UnsupportedOperation)),
            r is Ok <==> (old(self).index() < old(document).nodes.len() && !is_temp(old(document)@.nodes[old(self).index() as int])),
            r is Ok ==> final(document)@ == with_nodes(old(document)@, old(document)@.nodes.insert(
                old(self).index() + 1, old(document)@.nodes[old(self).index() as int]))
                && final(self).inserted() == Some((old(self).index() + 1) as usize),
            r is Err ==> final(document)@ == old(document)@ && final(self).inserted() == old(self).inserted(),
    {
        if document.nodes.len() == 0 || self.node_index >= document.nodes.len() {
            return Err(EditError::IndexOutOfBounds);
        }
        proof { lemma_nodes_seq_v_index(document.nodes@); }
        match &document.nodes[self.node_index] {
            Node::TempListItem(_) | Node::TempTableCell(_) => { return Err(EditError::UnsupportedOperation); },
            _ => {},
        }
        let copy = copy_node(&document.nodes[self.node_index]);
        let at = self.node_index + 1;
        proof { lemma_nodes_insert(document.nodes@, at as int, copy); }
        document.nodes.insert(at, copy);
        self.new_node_index = Some(at);
        Ok(())
    }

    /// Removes the copy again.
    fn undo(&mut self, document: &mut Document) -> (r: Result<(), EditError>)
        ensures
            final(self).index() == old(self).index(),
            match old(self).inserted() {
                None => (r matches Err(EditError::OperationFailed)) && final(document)@ == old(document)@
                    && final(self).inserted() is None,
                Some(i) => if i >= old(document).nodes.len() {
                    (r matches Err(EditError::IndexOutOfBounds)) && final(document)@ == old(document)@
                        && final(self).inserted() == old(self).inserted()
                } else {
                    r is Ok && final(document)@ == with_nodes(old(document)@, old(document)@.nodes.remove(i as int))
                        && final(self).inserted() is None
                },
            },
    {
        match self.new_node_index {
            Some(index) => {
                if index >= document.nodes.len() {
                    return Err(EditError::IndexOutOfBounds);
                }
                proof { lemma_nodes_remove(document.nodes@, index as int); }
                document.nodes.remove(index);
                self.new_node_index = None;
                Ok(())
            },
            None => Err(EditError::OperationFailed),
        }
    }
}

} // verus!
