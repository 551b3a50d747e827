use vstd::prelude::*;
use crate::document::{Document, DocumentV};
use crate::error::EditError;
use crate::node::{ListType, NodeV, ListItemV};

verus! {

/// A document editing command that can be executed and undone.
pub trait Command {
    /// Whether executing on `document` stays within what the command can do
    /// without a run-time fault (such as cutting text inside a character).
    spec fn can_execute(&self, document: &Document) -> bool;

    /// Whether undoing on `document` stays within what the command can do
    /// without a run-time fault.
    spec fn can_undo(&self, document: &Document) -> bool;

    /// Execute the command on the document
    fn execute(&mut self, document: &mut Document) -> Result<(), EditError>
        requires old(self).can_execute(old(document));

    /// Undo the command on the document
    fn undo(&mut self, document: &mut Document) -> Result<(), EditError>
        requires old(self).can_undo(old(document));
}

/// The document model with its nodes replaced.
pub open spec fn with_nodes(d: DocumentV, nodes: Seq<NodeV>) -> DocumentV {
    DocumentV { nodes, ..d }
}

/// Whether a node model is a task list.
pub open spec fn is_task_list(n: NodeV) -> bool {
    n matches NodeV::List { list_type, .. } && list_type == ListType::Task
}

/// The document model with the items of the list at `i` replaced.
pub open spec fn with_items(d: DocumentV, i: int, items: Seq<ListItemV>) -> DocumentV {
    with_nodes(d, d.nodes.update(i, NodeV::List { list_type: d.nodes[i]->List_list_type, items }))
}

} // verus!
