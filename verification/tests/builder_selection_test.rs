use md_core::{Document, DocumentBuilder, InlineNode, ListType, Node};

#[test]
fn test_document_builder_basic() {
    let doc = DocumentBuilder::new()
        .title("Test Document")
        .author("Test Author")
        .date("2023-05-01")
        .paragraph("This is a paragraph")
        .build();

    assert_eq!(doc.nodes.len(), 2);

    match &doc.nodes[0] {
        Node::Heading { level, children } => {
            assert_eq!(*level, 1);
            assert_eq!(children.len(), 1);
            match &children[0] {
                InlineNode::Text(text_node) => {
                    assert_eq!(text_node.text, "Test Document");
                }
                _ => panic!("Expected Text node"),
            }
        }
        _ => panic!("Expected Heading node"),
    }

    assert!(doc.metadata.is_some());
    let metadata = doc.metadata.unwrap();
    assert_eq!(metadata.title, Some("Test Document".to_string()));
    assert_eq!(metadata.author, Some("Test Author".to_string()));
    assert_eq!(metadata.date, Some("2023-05-01".to_string()));
}

#[test]
fn test_document_builder_complex() {
    let doc = DocumentBuilder::new()
        .title("Complex Document")
        .heading(2, "Section 1")
        .paragraph("Section 1 content")
        .code_block("fn main() {\n    println!(\"Hello, world!\");\n}", "rust")
        .heading(2, "Section 2")
        .paragraph("Section 2 content")
        .unordered_list(vec!["Item 1", "Item 2", "Item 3"])
        .ordered_list(vec!["First", "Second", "Third"])
        .task_list(vec![("Task 1", true), ("Task 2", false)])
        .horizontal_rule()
        .table(
            vec!["Header 1", "Header 2"],
            vec![vec!["Row 1, Cell 1", "Row 1, Cell 2"], vec!["Row 2, Cell 1", "Row 2, Cell 2"]],
        )
        .build();

    assert_eq!(doc.nodes.len(), 11);

    match &doc.nodes[0] {
        Node::Heading { level, .. } => {
            assert_eq!(*level, 1);
        }
        _ => panic!("Expected Heading node"),
    }

    match &doc.nodes[3] {
        Node::CodeBlock { language, code } => {
            assert_eq!(language, "rust");
            assert!(code.contains("println!"));
        }
        _ => panic!("Expected CodeBlock node"),
    }

    match &doc.nodes[6] {
        Node::List { list_type, items } => {
            assert_eq!(*list_type, ListType::Unordered);
            assert_eq!(items.len(), 3);
        }
        _ => panic!("Expected List node"),
    }

    match &doc.nodes[9] {
        Node::ThematicBreak => {}
        _ => panic!("Expected ThematicBreak node"),
    }

    match &doc.nodes[10] {
        Node::Table { header, rows, .. } => {
            assert_eq!(header.len(), 2);
            assert_eq!(rows.len(), 2);
        }
        _ => panic!("Expected Table node"),
    }
}

#[test]
fn test_document_builder_with_groups() {
    let doc = DocumentBuilder::new()
        .title("Document with Groups")
        .paragraph("Top level paragraph")
        .group("Section", |builder| {
            builder.heading(2, "Section Heading").paragraph("Section content").code_block("let x = 42;", "rust")
        })
        .paragraph("Another top level paragraph")
        .build();

    assert_eq!(doc.nodes.len(), 4);

    match &doc.nodes[2] {
        Node::Group { name, children } => {
            assert_eq!(name, "Section");
            assert_eq!(children.len(), 3);
            match &children[0] {
                Node::Heading { level, .. } => {
                    assert_eq!(*level, 2);
                }
                _ => panic!("Expected Heading node in group"),
            }
        }
        _ => panic!("Expected Group node"),
    }
}

#[test]
fn test_select_all() {
    let mut doc = Document::new();
    doc.add_paragraph_with_text("First paragraph");
    doc.add_paragraph_with_text("Second paragraph");

    assert!(doc.select_all());

    let selection = doc.selection.unwrap();
    assert_eq!(selection.start.path, vec![0]);
    assert_eq!(selection.start.offset, 0);
    assert_eq!(selection.end.path, vec![1]);
    assert!(!selection.is_collapsed);
}

#[test]
fn test_select_node() {
    let mut doc = Document::new();
    doc.add_paragraph_with_text("First paragraph");
    doc.add_paragraph_with_text("Second paragraph");

    assert!(doc.select_node(1));

    let selection = doc.selection.unwrap();
    assert_eq!(selection.start.path, vec![1]);
    assert_eq!(selection.start.offset, 0);
    assert_eq!(selection.end.path, vec![1]);
    assert!(!selection.is_collapsed);
}

#[test]
fn test_select_text_range() {
    let mut doc = Document::new();
    doc.add_paragraph_with_text("First paragraph");

    assert!(doc.select_text_range(0, 6, 15));

    let selection = doc.selection.as_ref().unwrap();
    assert_eq!(selection.start.path, vec![0]);
    assert_eq!(selection.start.offset, 6);
    assert_eq!(selection.end.path, vec![0]);
    assert_eq!(selection.end.offset, 15);

    assert_eq!(doc.get_selected_text(), Some("paragraph".to_string()));
}

#[test]
fn test_collapse_selection() {
    let mut doc = Document::new();
    doc.add_paragraph_with_text("First paragraph");
    doc.add_paragraph_with_text("Second paragraph");

    doc.select_all();

    assert!(doc.collapse_selection_to_start());

    let selection = doc.selection.unwrap();
    assert_eq!(selection.start.path, vec![0]);
    assert_eq!(selection.start.offset, 0);
    assert_eq!(selection.end.path, vec![0]);
    assert_eq!(selection.end.offset, 0);
    assert!(selection.is_collapsed);
}

#[test]
fn test_clear_selection() {
    let mut doc = Document::new();
    doc.add_paragraph_with_text("Paragraph");

    doc.select_node(0);
    assert!(doc.has_selection());

    doc.clear_selection();
    assert!(!doc.has_selection());
}

#[test]
fn test_has_multi_node_selection() {
    let mut doc = Document::new();
    doc.add_paragraph_with_text("First paragraph");
    doc.add_paragraph_with_text("Second paragraph");

    doc.select_node(0);
    assert!(!doc.has_multi_node_selection());

    doc.select_node_range(0, 1);
    assert!(doc.has_multi_node_selection());
}

#[test]
fn multi_node_selection_has_no_selected_text() {
    let mut doc = Document::new();
    doc.add_paragraph_with_text("First paragraph");
    doc.add_paragraph_with_text("Second paragraph");
    assert!(doc.select_range(0, 6, 1, 6));
    assert_eq!(doc.get_selected_text(), None);
    assert!(doc.collapse_selection_to_end());
    let s = doc.selection.as_ref().unwrap();
    assert_eq!(s.start.path, vec![1]);
    assert_eq!(s.start.offset, 6);
}

#[test]
fn selection_out_of_range_is_refused() {
    let mut doc = Document::new();
    doc.add_paragraph_with_text("abc");
    assert!(!doc.select_node(1));
    assert!(!doc.select_text_range(0, 2, 1));
    assert!(!doc.select_text_range(0, 0, 4));
    assert!(!doc.select_node_range(1, 0));
    assert!(!doc.has_selection());
    assert_eq!(doc.get_selected_text(), None);
    let mut empty = Document::new();
    assert!(!empty.select_all());
}

#[test]
fn builder_title_sets_the_metadata_to_the_title_alone() {
    let doc = DocumentBuilder::new().author("A").date("D").title("T").build();
    assert_eq!(doc.nodes, vec![Node::heading(1, "T")]);
    let m = doc.metadata.expect("metadata");
    assert_eq!(m.title.as_deref(), Some("T"));
    assert_eq!(m.author, None);
    assert_eq!(m.date, None);
    assert!(m.custom.is_empty());
}
