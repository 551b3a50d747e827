//! Editing commands with undo, the editor that runs them, and transactions.
pub mod command;
pub mod node_commands;
pub mod task_commands;
pub mod text_commands;
pub mod edit_commands;
pub mod convert_command;
pub mod history;
pub mod batch;
pub mod session;
pub mod transaction;
pub mod table_commands;
pub mod clipboard;
pub mod find_replace;
pub mod indent_task;
pub mod selection_format;
pub mod selection_indent;
pub mod sort_task;
pub mod toc;
pub mod group_nodes;
pub mod laws;

pub use command::Command;
pub use node_commands::{DeleteNodeCommand, DuplicateNodeCommand, InsertNodeCommand, MoveNodeCommand};
pub use task_commands::{
    AddTaskItemCommand, EditTaskItemCommand, MoveTaskItemCommand, MoveTaskPositionCommand, RemoveTaskItemCommand,
    ToggleTaskCommand,
};

pub use text_commands::{FormatTextCommand, InsertTextCommand};
pub use edit_commands::{DeleteTextCommand, MergeNodesCommand};
pub use convert_command::{ConvertNodeTypeCommand, NodeConversionType};
pub use history::EditCommand;
pub use session::Editor;
pub use transaction::Transaction;
pub use table_commands::{CreateTableCommand, TableOperation, TableOperationsCommand};
pub use clipboard::{CopySelectionCommand, CutSelectionCommand};
pub use find_replace::FindReplaceCommand;
pub use indent_task::{IndentDirection, IndentTaskItemCommand};
pub use selection_format::SelectionFormatCommand;
pub use selection_indent::SelectionIndentCommand;
pub use sort_task::{SortCriteria, SortTaskListCommand};
pub use toc::CreateTOCCommand;
pub use group_nodes::GroupNodesCommand;
