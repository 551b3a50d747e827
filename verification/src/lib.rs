//! Core data structures for a structured markdown editor: a document tree of
//! block and inline nodes, editing operations with undo, and serializers.

pub mod inline;
pub mod node;

pub use inline::{InlineNode, InlineV, TextFormatting, TextNode};
pub use node::{
    DefinitionItem, FootnoteDefinition, FootnoteReference, ListItem, ListType, Node, NodeV,
    TableAlignment, TableCell, TableProperties,
};
pub mod text;
pub mod selection;
pub use selection::{Position, Selection};
pub mod document;
pub use document::{Document, DocumentMetadata};
mod doc_selection;
pub mod structure;
pub mod builder;
pub use builder::DocumentBuilder;
pub mod error;
pub use error::{EditError, ParseError};
pub mod editor;
pub use editor::{
    AddTaskItemCommand, Command, ConvertNodeTypeCommand, CopySelectionCommand, CutSelectionCommand, FindReplaceCommand, IndentTaskItemCommand, SelectionFormatCommand, SelectionIndentCommand, SortCriteria, SortTaskListCommand, CreateTOCCommand, GroupNodesCommand, CreateTableCommand, TableOperation, TableOperationsCommand, DeleteTextCommand, EditCommand, Editor, MergeNodesCommand,
    NodeConversionType, Transaction, DeleteNodeCommand, DuplicateNodeCommand, EditTaskItemCommand, FormatTextCommand,
    InsertNodeCommand, InsertTextCommand, MoveNodeCommand, MoveTaskItemCommand, MoveTaskPositionCommand,
    RemoveTaskItemCommand, ToggleTaskCommand,
};
pub mod convert;
