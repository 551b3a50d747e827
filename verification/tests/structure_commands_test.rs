use md_core::editor::group_nodes::GroupNodesCommand;
use md_core::editor::indent_task::IndentTaskItemCommand;
use md_core::editor::sort_task::{SortCriteria, SortTaskListCommand};
use md_core::editor::toc::CreateTOCCommand;
use md_core::{Command, Document, EditError, InlineNode, ListItem, ListType, Node};

fn item_texts(doc: &Document) -> Vec<String> {
    match &doc.nodes[0] {
        Node::List { items, .. } => items.iter().map(|i| i.as_text().unwrap().to_string()).collect(),
        _ => panic!("Expected a List node"),
    }
}

fn checked_flags(doc: &Document) -> Vec<Option<bool>> {
    match &doc.nodes[0] {
        Node::List { items, .. } => items.iter().map(|i| i.checked).collect(),
        _ => panic!("Expected a List node"),
    }
}

fn sort_test_document() -> Document {
    let mut document = Document::new();
    let items = vec![
        ListItem::task("Buy groceries", true),
        ListItem::task("Call plumber", false),
        ListItem::task("Attend meeting", false),
        ListItem::task("Finish report", true),
        ListItem::task("Book flights", false),
    ];
    document.nodes.push(Node::List { list_type: ListType::Task, items });
    document
}

#[test]
fn test_sort_task_list_alphabetically() {
    let mut document = sort_test_document();
    let mut command = SortTaskListCommand::new(0, SortCriteria::Alphabetical);
    assert!(command.execute(&mut document).is_ok());
    assert_eq!(
        item_texts(&document),
        vec!["Attend meeting", "Book flights", "Buy groceries", "Call plumber", "Finish report"]
    );
    assert!(command.undo(&mut document).is_ok());
    assert_eq!(
        item_texts(&document),
        vec!["Buy groceries", "Call plumber", "Attend meeting", "Finish report", "Book flights"]
    );
}

#[test]
fn test_sort_task_list_unchecked_first() {
    let mut document = sort_test_document();
    let mut command = SortTaskListCommand::new(0, SortCriteria::UncheckedFirst);
    assert!(command.execute(&mut document).is_ok());
    assert_eq!(
        item_texts(&document),
        vec!["Attend meeting", "Book flights", "Call plumber", "Buy groceries", "Finish report"]
    );
    assert_eq!(
        checked_flags(&document),
        vec![Some(false), Some(false), Some(false), Some(true), Some(true)]
    );
}

#[test]
fn test_sort_task_list_checked_first() {
    let mut document = sort_test_document();
    let mut command = SortTaskListCommand::new(0, SortCriteria::CheckedFirst);
    assert!(command.execute(&mut document).is_ok());
    assert_eq!(
        item_texts(&document),
        vec!["Buy groceries", "Finish report", "Attend meeting", "Book flights", "Call plumber"]
    );
    assert_eq!(
        checked_flags(&document),
        vec![Some(true), Some(true), Some(false), Some(false), Some(false)]
    );
}

#[test]
fn test_sort_task_list_invalid_node_idx() {
    let mut document = sort_test_document();
    let mut command = SortTaskListCommand::new(1, SortCriteria::Alphabetical);
    let result = command.execute(&mut document);
    assert!(result.is_err());
    assert!(matches!(result.unwrap_err(), EditError::IndexOutOfBounds));
}

#[test]
fn test_sort_task_list_non_list_node() {
    let mut document = Document::new();
    document.nodes.push(Node::paragraph("Not a list"));
    let mut command = SortTaskListCommand::new(0, SortCriteria::Alphabetical);
    let result = command.execute(&mut document);
    assert!(result.is_err());
    assert!(matches!(result.unwrap_err(), EditError::Other(msg) if msg == "Node is not a list"));
}

#[test]
fn test_sort_task_list_non_task_list() {
    let mut document = Document::new();
    document.nodes.push(Node::unordered_list(vec!["Item 1", "Item 2"]));
    let mut command = SortTaskListCommand::new(0, SortCriteria::Alphabetical);
    let result = command.execute(&mut document);
    assert!(result.is_err());
    assert!(matches!(result.unwrap_err(), EditError::Other(msg) if msg == "Node is not a task list"));
}

#[test]
fn sort_is_case_insensitive_and_stable() {
    let mut document = Document::new();
    document.nodes.push(Node::List {
        list_type: ListType::Task,
        items: vec![
            ListItem::task("beta", false),
            ListItem::task("Alpha", true),
            ListItem::task("alpha", false),
        ],
    });
    let mut command = SortTaskListCommand::new(0, SortCriteria::Alphabetical);
    assert!(command.execute(&mut document).is_ok());
    assert_eq!(item_texts(&document), vec!["Alpha", "alpha", "beta"]);
}

fn three_tasks() -> Document {
    let mut doc = Document::new();
    doc.nodes.push(Node::List {
        list_type: ListType::Task,
        items: vec![ListItem::task("Task 1", false), ListItem::task("Task 2", true), ListItem::task("Task 3", false)],
    });
    doc
}

fn nested_task_list(item: &ListItem) -> Option<&Vec<ListItem>> {
    item.children.iter().find_map(|node| match node {
        Node::List { list_type: ListType::Task, items } => Some(items),
        _ => None,
    })
}

#[test]
fn test_increase_indent() {
    let mut doc = three_tasks();
    let mut cmd = IndentTaskItemCommand::increase_indent(0, 2);
    assert!(cmd.execute(&mut doc).is_ok());
    match &doc.nodes[0] {
        Node::List { items, .. } => {
            assert_eq!(items.len(), 2);
            assert_eq!(items[0].as_text().unwrap(), "Task 1");
            assert_eq!(items[1].as_text().unwrap(), "Task 2");
            let nested = nested_task_list(&items[1]).expect("Task 2 should have a nested task list");
            assert_eq!(nested.len(), 1);
            assert_eq!(nested[0].as_text().unwrap(), "Task 3");
        }
        _ => panic!("Expected list node"),
    }
    assert!(cmd.undo(&mut doc).is_ok());
    assert_eq!(item_texts(&doc), vec!["Task 1", "Task 2", "Task 3"]);
}

#[test]
fn test_indent_first_item() {
    let mut doc = Document::new();
    doc.nodes.push(Node::List {
        list_type: ListType::Task,
        items: vec![ListItem::task("Task 1", false), ListItem::task("Task 2", true)],
    });
    let mut cmd = IndentTaskItemCommand::increase_indent(0, 0);
    let result = cmd.execute(&mut doc);
    assert!(result.is_err());
    if let Err(EditError::Other(msg)) = result {
        assert_eq!(msg, "Cannot indent the first item");
    } else {
        panic!("Expected EditError::Other");
    }
}

#[test]
fn test_decrease_indent() {
    let mut doc = Document::new();
    let mut items = vec![ListItem::task("Task 1", false), ListItem::task("Task 2", true), ListItem::task("Task 3", false)];
    items[1].children.push(Node::List {
        list_type: ListType::Task,
        items: vec![ListItem::task("Nested Task", false)],
    });
    doc.nodes.push(Node::List { list_type: ListType::Task, items });
    let mut cmd = IndentTaskItemCommand::decrease_indent(0, 0);
    assert!(cmd.execute(&mut doc).is_ok());
    match &doc.nodes[0] {
        Node::List { items, .. } => {
            assert_eq!(items.len(), 4);
            assert_eq!(items[0].as_text().unwrap(), "Task 1");
            assert_eq!(items[1].as_text().unwrap(), "Task 2");
            assert_eq!(items[2].as_text().unwrap(), "Nested Task");
            assert_eq!(items[3].as_text().unwrap(), "Task 3");
            assert!(nested_task_list(&items[1]).is_none(), "Task 2 should no longer have a nested task list");
        }
        _ => panic!("Expected list node"),
    }
    assert!(cmd.undo(&mut doc).is_ok());
    match &doc.nodes[0] {
        Node::List { items, .. } => {
            assert_eq!(items.len(), 3);
            let nested = nested_task_list(&items[1]).expect("Task 2 should have a nested task list again");
            assert_eq!(nested.len(), 1);
            assert_eq!(nested[0].as_text().unwrap(), "Nested Task");
        }
        _ => panic!("Expected list node"),
    }
}

#[test]
fn test_dedent_errors() {
    let mut doc = three_tasks();
    let mut cmd = IndentTaskItemCommand::decrease_indent(0, 0);
    let result = cmd.execute(&mut doc);
    assert!(result.is_err());
    if let Err(EditError::Other(msg)) = result {
        assert_eq!(msg, "Item not found in any nested list");
    } else {
        panic!("Expected EditError::Other");
    }
}

#[test]
fn indent_appends_to_existing_nested_list() {
    let mut doc = three_tasks();
    let mut first = IndentTaskItemCommand::increase_indent(0, 1);
    assert!(first.execute(&mut doc).is_ok());
    let mut second = IndentTaskItemCommand::increase_indent(0, 1);
    assert!(second.execute(&mut doc).is_ok());
    match &doc.nodes[0] {
        Node::List { items, .. } => {
            assert_eq!(items.len(), 1);
            let nested = nested_task_list(&items[0]).unwrap();
            let texts: Vec<&str> = nested.iter().map(|i| i.as_text().unwrap()).collect();
            assert_eq!(texts, vec!["Task 2", "Task 3"]);
        }
        _ => panic!("Expected list node"),
    }
}

fn text_of(node: &Node) -> String {
    match node {
        Node::Paragraph { children } | Node::Heading { children, .. } => match &children[0] {
            InlineNode::Text(t) => t.text.clone(),
            _ => panic!("Expected Text node"),
        },
        _ => panic!("Expected paragraph or heading"),
    }
}

#[test]
fn test_create_toc() {
    let mut doc = Document::new();
    doc.add_heading(1, "First Section");
    doc.add_paragraph_with_text("Some content here.");
    doc.add_heading(2, "Subsection 1");
    doc.add_paragraph_with_text("More content here.");
    doc.add_heading(2, "Subsection 2");
    doc.add_paragraph_with_text("Even more content.");
    doc.add_heading(1, "Second Section");
    doc.add_paragraph_with_text("Last paragraph.");

    let mut cmd = CreateTOCCommand::new(0, 2);
    let result = cmd.execute(&mut doc);
    assert!(result.is_ok());
    match &doc.nodes[0] {
        Node::Heading { level, .. } => {
            assert_eq!(*level, 2);
            assert_eq!(text_of(&doc.nodes[0]), "Table of Contents");
        }
        _ => panic!("Expected Heading node"),
    }
    match &doc.nodes[1] {
        Node::List { list_type, items } => {
            assert_eq!(*list_type, ListType::Unordered);
            assert_eq!(items.len(), 4);
            let first = text_of(&items[0].children[0]);
            assert!(first.contains("First Section"));
            let second = text_of(&items[1].children[0]);
            assert!(second.starts_with("  "));
            assert!(second.contains("Subsection 1"));
        }
        _ => panic!("Expected List node"),
    }
    let result = cmd.undo(&mut doc);
    assert!(result.is_ok());
    assert_eq!(doc.nodes.len(), 8);
    match &doc.nodes[0] {
        Node::Heading { level, .. } => {
            assert_eq!(*level, 1);
            assert_eq!(text_of(&doc.nodes[0]), "First Section");
        }
        _ => panic!("Expected Heading node"),
    }
}

#[test]
fn toc_entry_links_and_separator() {
    let mut doc = Document::new();
    doc.add_heading(1, "Hello World!");
    doc.add_heading(3, "Too deep");
    let mut cmd = CreateTOCCommand::new(0, 2);
    assert!(cmd.execute_checked(&mut doc).is_ok());
    assert_eq!(doc.nodes.len(), 5);
    match &doc.nodes[1] {
        Node::List { items, .. } => {
            assert_eq!(items.len(), 1);
            assert_eq!(text_of(&items[0].children[0]), "[Hello World!](#hello-world-)");
        }
        _ => panic!("Expected List node"),
    }
    assert!(matches!(doc.nodes[2], Node::ThematicBreak));
}

#[test]
fn toc_clamps_level_and_places_at_end() {
    let mut doc = Document::new();
    doc.add_heading(2, "Table of Contents");
    doc.add_heading(1, "Intro");
    let mut cmd = CreateTOCCommand::new(5, 0);
    assert!(cmd.execute(&mut doc).is_ok());
    assert_eq!(doc.nodes.len(), 4);
    assert_eq!(text_of(&doc.nodes[2]), "Table of Contents");
    match &doc.nodes[3] {
        Node::List { items, .. } => assert_eq!(text_of(&items[0].children[0]), "[Intro](#intro)"),
        _ => panic!("Expected List node"),
    }
    assert!(cmd.undo(&mut doc).is_ok());
    assert!(matches!(cmd.undo(&mut doc), Err(EditError::Other(m)) if m == "No original state to restore"));
}

#[test]
fn test_group_nodes() {
    let mut doc = Document::new();
    doc.add_paragraph_with_text("First paragraph");
    doc.add_paragraph_with_text("Second paragraph");
    doc.add_paragraph_with_text("Third paragraph");
    assert_eq!(doc.nodes.len(), 3);
    let mut cmd = GroupNodesCommand::new(vec![0, 1], "Test Group".to_string());
    let result = cmd.execute(&mut doc);
    assert!(result.is_ok());
    assert_eq!(doc.nodes.len(), 2);
    match &doc.nodes[0] {
        Node::Group { name, children } => {
            assert_eq!(name, "Test Group");
            assert_eq!(children.len(), 2);
            assert_eq!(text_of(&children[0]), "First paragraph");
            assert_eq!(text_of(&children[1]), "Second paragraph");
        }
        _ => panic!("Expected Group node"),
    }
    let result = cmd.undo(&mut doc);
    assert!(result.is_ok());
    assert_eq!(doc.nodes.len(), 3);
    assert_eq!(text_of(&doc.nodes[0]), "First paragraph");
    assert_eq!(text_of(&doc.nodes[1]), "Second paragraph");
}

#[test]
fn test_group_non_contiguous_nodes() {
    let mut doc = Document::new();
    doc.add_paragraph_with_text("First paragraph");
    doc.add_paragraph_with_text("Second paragraph");
    doc.add_paragraph_with_text("Third paragraph");
    doc.add_paragraph_with_text("Fourth paragraph");
    let mut cmd = GroupNodesCommand::new(vec![0, 2], "Non-Contiguous Group".to_string());
    let result = cmd.execute(&mut doc);
    assert!(result.is_ok());
    assert_eq!(doc.nodes.len(), 3);
    match &doc.nodes[0] {
        Node::Group { name, children } => {
            assert_eq!(name, "Non-Contiguous Group");
            assert_eq!(children.len(), 2);
            assert_eq!(text_of(&children[0]), "First paragraph");
            assert_eq!(text_of(&children[1]), "Third paragraph");
        }
        _ => panic!("Expected Group node"),
    }
    assert_eq!(text_of(&doc.nodes[1]), "Second paragraph");
    assert_eq!(text_of(&doc.nodes[2]), "Fourth paragraph");
}

#[test]
fn group_rejects_index_past_end() {
    let mut doc = Document::new();
    doc.add_paragraph_with_text("Only");
    let mut cmd = GroupNodesCommand::new(vec![0, 3], "G".to_string());
    assert!(matches!(cmd.execute(&mut doc), Err(EditError::IndexOutOfBounds)));
    assert_eq!(doc.nodes.len(), 1);
}

#[test]
fn decrease_indent_undoes_increase() {
    let mut doc = three_tasks();
    let mut indent = IndentTaskItemCommand::increase_indent(0, 2);
    assert!(indent.execute(&mut doc).is_ok());
    let mut dedent = IndentTaskItemCommand::decrease_indent(0, 0);
    assert!(dedent.execute(&mut doc).is_ok());
    assert_eq!(doc.nodes, three_tasks().nodes);
    match &doc.nodes[0] {
        Node::List { items, .. } => assert!(nested_task_list(&items[1]).is_none()),
        _ => panic!("Expected list node"),
    }
}
