use md_core::{
    AddTaskItemCommand, Command, Document, EditError, EditTaskItemCommand, InlineNode, ListItem, ListType,
    MoveTaskItemCommand, MoveTaskPositionCommand, Node, RemoveTaskItemCommand, ToggleTaskCommand,
};

fn checked_flags(doc: &Document) -> Vec<Option<bool>> {
    match &doc.nodes[0] {
        Node::List { items, .. } => items.iter().map(|i| i.checked).collect(),
        _ => panic!("Expected list node"),
    }
}

fn item_texts(doc: &Document) -> Vec<String> {
    match &doc.nodes[0] {
        Node::List { items, .. } => items.iter().map(|i| i.as_text().unwrap().to_string()).collect(),
        _ => panic!("Expected list node"),
    }
}

fn three_tasks() -> Document {
    let mut doc = Document::new();
    doc.nodes.push(Node::List {
        list_type: ListType::Task,
        items: vec![ListItem::task("Task 1", false), ListItem::task("Task 2", true), ListItem::task("Task 3", false)],
    });
    doc
}

#[test]
fn test_toggle_task() {
    let mut doc = Document::new();
    doc.add_task_list(vec![("Task 1", false), ("Task 2", true)]);

    let mut cmd1 = ToggleTaskCommand::new(0, 0);
    assert!(cmd1.execute(&mut doc).is_ok());
    match &doc.nodes[0] {
        Node::List { list_type, items } => {
            assert_eq!(*list_type, ListType::Task);
            assert_eq!(items.len(), 2);
            assert_eq!(items[0].checked, Some(true));
            assert_eq!(items[1].checked, Some(true));
        }
        _ => panic!("Expected a list node"),
    }

    let mut cmd2 = ToggleTaskCommand::new(0, 1);
    assert!(cmd2.execute(&mut doc).is_ok());
    assert_eq!(checked_flags(&doc), vec![Some(true), Some(false)]);

    assert!(cmd2.undo(&mut doc).is_ok());
    assert_eq!(checked_flags(&doc), vec![Some(true), Some(true)]);

    assert!(cmd1.undo(&mut doc).is_ok());
    assert_eq!(checked_flags(&doc), vec![Some(false), Some(true)]);
}

#[test]
fn test_toggle_task_invalid_node() {
    let mut doc = Document::new();
    doc.add_paragraph_with_text("This is not a task list");
    let mut cmd = ToggleTaskCommand::new(0, 0);
    assert!(matches!(cmd.execute(&mut doc), Err(EditError::UnsupportedOperation)));
}

#[test]
fn test_toggle_task_invalid_index() {
    let mut doc = Document::new();
    doc.add_task_list(vec![("Task 1", false)]);

    let mut cmd = ToggleTaskCommand::new(0, 1);
    assert!(matches!(cmd.execute(&mut doc), Err(EditError::IndexOutOfBounds)));

    let mut cmd = ToggleTaskCommand::new(1, 0);
    assert!(matches!(cmd.execute(&mut doc), Err(EditError::IndexOutOfBounds)));
}

#[test]
fn toggle_twice_restores_state() {
    let mut doc = Document::new();
    doc.add_task_list(vec![("a", false)]);
    let mut cmd = ToggleTaskCommand::new(0, 0);
    assert!(cmd.execute(&mut doc).is_ok());
    let mut again = ToggleTaskCommand::new(0, 0);
    assert!(again.execute(&mut doc).is_ok());
    assert_eq!(checked_flags(&doc), vec![Some(false)]);
}

#[test]
fn test_add_task_item() {
    let mut doc = Document::new();
    doc.add_task_list(vec![("Existing task", false)]);

    let mut cmd = AddTaskItemCommand::new(0, 1, "New task", true);
    assert!(cmd.execute(&mut doc).is_ok());

    match &doc.nodes[0] {
        Node::List { list_type, items } => {
            assert_eq!(*list_type, ListType::Task);
            assert_eq!(items.len(), 2);
            assert_eq!(items[0].checked, Some(false));
            assert_eq!(items[1].checked, Some(true));
            let paragraph = &items[1].children[0];
            if let Node::Paragraph { children } = paragraph {
                if let InlineNode::Text(text_node) = &children[0] {
                    assert_eq!(text_node.text, "New task");
                } else {
                    panic!("Expected text node");
                }
            } else {
                panic!("Expected paragraph node");
            }
        }
        _ => panic!("Expected list node"),
    }

    assert!(cmd.undo(&mut doc).is_ok());
    match &doc.nodes[0] {
        Node::List { items, .. } => {
            assert_eq!(items.len(), 1);
        }
        _ => panic!("Expected list node"),
    }
}

#[test]
fn test_add_task_item_invalid_node() {
    let mut doc = Document::new();
    doc.add_paragraph_with_text("This is not a task list");
    let mut cmd = AddTaskItemCommand::new(0, 0, "New task", false);
    assert!(matches!(cmd.execute(&mut doc), Err(EditError::UnsupportedOperation)));
}

#[test]
fn test_add_task_item_invalid_position() {
    let mut doc = Document::new();
    doc.add_task_list(vec![("Existing task", false)]);
    let mut cmd = AddTaskItemCommand::new(0, 2, "New task", false);
    assert!(matches!(cmd.execute(&mut doc), Err(EditError::IndexOutOfBounds)));
}

#[test]
fn test_remove_task_item() {
    let mut doc = Document::new();
    doc.add_task_list(vec![("Task 1", false), ("Task 2", true), ("Task 3", false)]);

    let mut cmd = RemoveTaskItemCommand::new(0, 1);
    assert!(cmd.execute(&mut doc).is_ok());
    assert_eq!(checked_flags(&doc), vec![Some(false), Some(false)]);

    assert!(cmd.undo(&mut doc).is_ok());
    assert_eq!(checked_flags(&doc), vec![Some(false), Some(true), Some(false)]);
    assert_eq!(item_texts(&doc), vec!["Task 1", "Task 2", "Task 3"]);
}

#[test]
fn test_remove_task_item_last_remaining() {
    let mut doc = Document::new();
    doc.add_task_list(vec![("Only task", false)]);
    let mut cmd = RemoveTaskItemCommand::new(0, 0);
    assert!(matches!(cmd.execute(&mut doc), Err(EditError::UnsupportedOperation)));
}

#[test]
fn test_remove_task_item_invalid_node() {
    let mut doc = Document::new();
    doc.add_paragraph_with_text("This is not a task list");
    let mut cmd = RemoveTaskItemCommand::new(0, 0);
    assert!(matches!(cmd.execute(&mut doc), Err(EditError::UnsupportedOperation)));
}

#[test]
fn test_remove_task_item_invalid_index() {
    let mut doc = Document::new();
    doc.add_task_list(vec![("Task 1", false), ("Task 2", true)]);
    let mut cmd = RemoveTaskItemCommand::new(0, 2);
    assert!(matches!(cmd.execute(&mut doc), Err(EditError::IndexOutOfBounds)));
}

#[test]
fn test_edit_task_item() {
    let mut doc = Document::new();
    doc.nodes.push(Node::List { list_type: ListType::Task, items: vec![ListItem::task("Original text", false)] });

    let mut cmd = EditTaskItemCommand::new(0, 0, "Updated text");
    assert!(cmd.execute(&mut doc).is_ok());
    assert_eq!(item_texts(&doc), vec!["Updated text"]);

    assert!(cmd.undo(&mut doc).is_ok());
    assert_eq!(item_texts(&doc), vec!["Original text"]);
}

#[test]
fn test_edit_task_item_invalid_node() {
    let mut doc = Document::new();
    doc.nodes.push(Node::Paragraph { children: vec![InlineNode::text("This is not a task list")] });

    let mut cmd = EditTaskItemCommand::new(0, 0, "Updated text");
    let result = cmd.execute(&mut doc);
    assert!(result.is_err());
    if let Err(EditError::Other(msg)) = result {
        assert_eq!(msg, "Node is not a list");
    } else {
        panic!("Expected EditError::Other");
    }
}

#[test]
fn test_edit_task_item_invalid_index() {
    let mut doc = Document::new();
    doc.nodes.push(Node::List { list_type: ListType::Task, items: vec![ListItem::task("Task 1", false)] });

    let mut cmd = EditTaskItemCommand::new(0, 1, "Updated text");
    let result = cmd.execute(&mut doc);
    assert!(matches!(result, Err(EditError::IndexOutOfBounds)));

    let mut cmd = EditTaskItemCommand::new(1, 0, "Updated text");
    let result = cmd.execute(&mut doc);
    assert!(matches!(result, Err(EditError::IndexOutOfBounds)));
}

#[test]
fn test_move_task_item_down() {
    let mut doc = three_tasks();
    let mut cmd = MoveTaskItemCommand::move_down(0, 0);
    assert!(cmd.execute(&mut doc).is_ok());
    assert_eq!(item_texts(&doc), vec!["Task 2", "Task 1", "Task 3"]);
    assert!(cmd.undo(&mut doc).is_ok());
    assert_eq!(item_texts(&doc), vec!["Task 1", "Task 2", "Task 3"]);
}

#[test]
fn test_move_task_position() {
    let mut doc = three_tasks();
    let mut cmd = MoveTaskPositionCommand::new(0, 0, 2);
    assert!(cmd.execute(&mut doc).is_ok());
    assert_eq!(item_texts(&doc), vec!["Task 2", "Task 3", "Task 1"]);
    assert!(cmd.undo(&mut doc).is_ok());
    assert_eq!(item_texts(&doc), vec!["Task 1", "Task 2", "Task 3"]);
}

#[test]
fn test_move_task_item_up() {
    let mut doc = three_tasks();
    let mut cmd = MoveTaskItemCommand::move_up(0, 2);
    assert!(cmd.execute(&mut doc).is_ok());
    assert_eq!(item_texts(&doc), vec!["Task 1", "Task 3", "Task 2"]);
    assert!(cmd.undo(&mut doc).is_ok());
    assert_eq!(item_texts(&doc), vec!["Task 1", "Task 2", "Task 3"]);
}

#[test]
fn test_move_task_item_boundaries() {
    let mut doc = Document::new();
    doc.nodes.push(Node::List {
        list_type: ListType::Task,
        items: vec![ListItem::task("Task 1", false), ListItem::task("Task 2", true)],
    });

    let mut cmd_up = MoveTaskItemCommand::move_up(0, 0);
    let result = cmd_up.execute(&mut doc);
    if let Err(EditError::Other(msg)) = result {
        assert_eq!(msg, "Already at the top");
    } else {
        panic!("Expected EditError::Other");
    }

    let mut cmd_down = MoveTaskItemCommand::move_down(0, 1);
    let result = cmd_down.execute(&mut doc);
    if let Err(EditError::Other(msg)) = result {
        assert_eq!(msg, "Already at the bottom");
    } else {
        panic!("Expected EditError::Other");
    }
}

#[test]
fn move_task_position_backwards_and_undo() {
    let mut doc = three_tasks();
    let mut cmd = MoveTaskPositionCommand::new(0, 2, 0);
    assert!(cmd.execute(&mut doc).is_ok());
    assert_eq!(item_texts(&doc), vec!["Task 3", "Task 1", "Task 2"]);
    assert!(cmd.undo(&mut doc).is_ok());
    assert_eq!(item_texts(&doc), vec!["Task 1", "Task 2", "Task 3"]);
}

#[test]
fn edit_task_item_undo_restores_formatted_item() {
    let mut doc = Document::new();
    let idx = doc.add_task_list(vec![("Task 1", false)]);
    if let Node::List { items, .. } = &mut doc.nodes[idx] {
        items[0].children = vec![Node::paragraph_with_inlines(vec![
            InlineNode::bold_text("Bold"),
            InlineNode::text(" plain"),
        ])];
    }
    let before = doc.clone();
    let mut cmd = EditTaskItemCommand::new(idx, 0, "New");
    assert!(cmd.execute(&mut doc).is_ok());
    assert_ne!(doc, before);
    assert!(cmd.undo(&mut doc).is_ok());
    assert_eq!(doc, before);
}
