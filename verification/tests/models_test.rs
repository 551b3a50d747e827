use md_core::{Document, InlineNode, ListType, Node, Position, Selection, TextFormatting, TextNode};

#[test]
fn test_document_creation() {
    let doc = Document::new();
    assert!(doc.nodes.is_empty());
    assert!(doc.selection.is_none());
    assert!(doc.metadata.is_none());
}

#[test]
fn test_document_with_title() {
    let doc = Document::with_title("Test Document");

    assert_eq!(doc.nodes.len(), 1);

    match &doc.nodes[0] {
        Node::Heading { level, children } => {
            assert_eq!(*level, 1);
            assert_eq!(children.len(), 1);

            match &children[0] {
                InlineNode::Text(TextNode { text, .. }) => {
                    assert_eq!(text, "Test Document");
                }
                _ => panic!("Expected Text node"),
            }
        }
        _ => panic!("Expected Heading node"),
    }

    assert!(doc.metadata.is_some());
    let metadata = doc.metadata.unwrap();
    assert_eq!(metadata.title, Some("Test Document".to_string()));
}

#[test]
fn test_paragraph_operations() {
    let mut doc = Document::new();

    let idx = doc.add_paragraph();
    assert_eq!(idx, 0);
    assert_eq!(doc.nodes.len(), 1);

    match &doc.nodes[0] {
        Node::Paragraph { children } => {
            assert!(children.is_empty());
        }
        _ => panic!("Expected Paragraph node"),
    }

    let result = doc.insert_text(idx, 0, "Hello, world!");
    assert!(result);

    match &doc.nodes[0] {
        Node::Paragraph { children } => {
            assert_eq!(children.len(), 1);

            match &children[0] {
                InlineNode::Text(TextNode { text, .. }) => {
                    assert_eq!(text, "Hello, world!");
                }
                _ => panic!("Expected Text node"),
            }
        }
        _ => panic!("Expected Paragraph node"),
    }

    let result = doc.split_node(idx, 7);
    assert!(result);
    assert_eq!(doc.nodes.len(), 2);

    match &doc.nodes[0] {
        Node::Paragraph { children } => match &children[0] {
            InlineNode::Text(TextNode { text, .. }) => {
                assert_eq!(text, "Hello, ");
            }
            _ => panic!("Expected Text node"),
        },
        _ => panic!("Expected Paragraph node"),
    }

    match &doc.nodes[1] {
        Node::Paragraph { children } => match &children[0] {
            InlineNode::Text(TextNode { text, .. }) => {
                assert_eq!(text, "world!");
            }
            _ => panic!("Expected Text node"),
        },
        _ => panic!("Expected Paragraph node"),
    }
}

#[test]
fn test_list_operations() {
    let mut doc = Document::new();

    let idx = doc.add_unordered_list(vec!["Item 1", "Item 2", "Item 3"]);
    assert_eq!(idx, 0);

    match &doc.nodes[0] {
        Node::List { list_type, items } => {
            assert_eq!(*list_type, ListType::Unordered);
            assert_eq!(items.len(), 3);

            for (i, item) in items.iter().enumerate() {
                match &item.children[0] {
                    Node::Paragraph { children } => match &children[0] {
                        InlineNode::Text(TextNode { text, .. }) => {
                            assert_eq!(text, &format!("Item {}", i + 1));
                        }
                        _ => panic!("Expected Text node"),
                    },
                    _ => panic!("Expected Paragraph node"),
                }
            }
        }
        _ => panic!("Expected List node"),
    }

    let idx = doc.add_task_list(vec![("Task 1", true), ("Task 2", false)]);
    assert_eq!(idx, 1);

    match &doc.nodes[1] {
        Node::List { list_type, items } => {
            assert_eq!(*list_type, ListType::Task);
            assert_eq!(items.len(), 2);

            assert_eq!(items[0].checked, Some(true));
            assert_eq!(items[1].checked, Some(false));
        }
        _ => panic!("Expected List node"),
    }
}

#[test]
fn test_inline_node_creation() {
    let text = InlineNode::text("Plain text");
    match text {
        InlineNode::Text(TextNode { text, formatting }) => {
            assert_eq!(text, "Plain text");
            assert!(!formatting.bold);
            assert!(!formatting.italic);
            assert!(!formatting.code);
            assert!(!formatting.strikethrough);
        }
        _ => panic!("Expected Text node"),
    }

    let bold = InlineNode::bold_text("Bold text");
    match bold {
        InlineNode::Text(TextNode { text, formatting }) => {
            assert_eq!(text, "Bold text");
            assert!(formatting.bold);
            assert!(!formatting.italic);
        }
        _ => panic!("Expected Text node"),
    }

    let link = InlineNode::link("https://example.com", "Example Link");
    match link {
        InlineNode::Link { url, title, children } => {
            assert_eq!(url, "https://example.com");
            assert_eq!(title, None);
            assert_eq!(children.len(), 1);

            match &children[0] {
                InlineNode::Text(TextNode { text, .. }) => {
                    assert_eq!(text, "Example Link");
                }
                _ => panic!("Expected Text node"),
            }
        }
        _ => panic!("Expected Link node"),
    }
}

#[test]
fn test_selection() {
    let start = Position::new(vec![0, 1], 5);
    let end = Position::new(vec![0, 2], 10);

    let selection = Selection::new(start.clone(), end.clone());
    assert_eq!(selection.start, start);
    assert_eq!(selection.end, end);
    assert!(!selection.is_collapsed);

    let collapsed = Selection::collapsed(start.clone());
    assert_eq!(collapsed.start, start);
    assert_eq!(collapsed.end, start);
    assert!(collapsed.is_collapsed);
}

#[test]
fn test_document_methods() {
    let mut doc = Document::new();
    doc.add_heading(1, "Test Document");
    doc.add_paragraph_with_text("This is a paragraph");

    assert_eq!(doc.nodes.len(), 2);
    assert!(matches!(doc.nodes[0], Node::Heading { .. }));
    assert!(matches!(doc.nodes[1], Node::Paragraph { .. }));

    let mut count = 0;
    for node in &doc.nodes {
        match node {
            Node::Heading { .. } | Node::Paragraph { .. } => count += 1,
            _ => {}
        }
    }
    assert_eq!(count, 2);
}

#[test]
fn text_formatting_builders_set_one_flag_each() {
    let f = TextFormatting::new().with_bold().with_code();
    assert!(f.bold && f.code && !f.italic && !f.strikethrough);
    assert_eq!(TextFormatting::default(), TextFormatting::new());
    let t = TextNode::italic("x");
    assert!(t.formatting.italic);
    assert_eq!(t.text, "x");
}

#[test]
fn insert_text_appends_past_the_end_and_rejects_non_paragraphs() {
    let mut doc = Document::new();
    doc.add_paragraph_with_text("abc");
    assert!(doc.insert_text(0, 9, "x"));
    assert!(!doc.insert_text(1, 0, "x"));
    assert!(doc.insert_text(0, 4, "d"));
    assert_eq!(doc.nodes[0].as_paragraph().unwrap()[0].as_text(), Some("abcxd"));
    doc.nodes.push(Node::horizontal_rule());
    assert!(!doc.insert_text(1, 0, "x"));
}

#[test]
fn insert_text_counts_offsets_in_bytes_across_children() {
    let mut doc = Document::new();
    doc.add_paragraph_with_inlines(vec![InlineNode::text("ab"), InlineNode::bold_text("cd")]);
    assert!(doc.insert_text(0, 3, "X"));
    match &doc.nodes[0] {
        Node::Paragraph { children } => {
            assert_eq!(children[0].as_text(), Some("ab"));
            assert_eq!(children[1].as_text(), Some("cXd"));
        }
        _ => panic!("Expected paragraph"),
    }
}

#[test]
fn split_node_at_end_leaves_empty_second_paragraph() {
    let mut doc = Document::new();
    doc.add_paragraph_with_text("abc");
    assert!(doc.split_node(0, 3));
    assert_eq!(doc.nodes.len(), 2);
    assert_eq!(doc.nodes[0].as_paragraph().unwrap()[0].as_text(), Some("abc"));
    assert_eq!(doc.nodes[1], Node::Paragraph { children: vec![] });
    assert!(doc.split_node(0, 10));
    assert_eq!(doc.nodes.len(), 3);
    assert!(!doc.split_node(3, 0));
}

#[test]
fn debug_structure_lists_nodes_and_selection() {
    let mut doc = Document::new();
    doc.add_heading(2, "Title");
    doc.add_paragraph_with_text("Hello");
    doc.add_unordered_list(vec!["a", "b"]);
    doc.add_code_block("x", "rust");
    assert_eq!(
        doc.debug_structure(),
        "0. Heading (level 2)\n1. Paragraph\n2. List (Unordered)\n3. CodeBlock (rust)\n"
    );
    doc.selection = Some(Selection::new(Position::new(vec![1], 0), Position::new(vec![1], 5)));
    let s = doc.debug_structure();
    assert!(s.starts_with("0. Heading (level 2)\n"));
    assert!(s.contains("\nSelection: Selection { start: Position { path: [1], offset: 0 }"));
}

#[test]
fn debug_structure_prints_selection_fields() {
    let mut doc = Document::new();
    doc.add_paragraph_with_text("Hi");
    doc.selection = Some(Selection::new(Position::new(vec![0, 2], 1), Position::new(vec![0], 2)));
    assert_eq!(
        doc.debug_structure(),
        "0. Paragraph\n\nSelection: Selection { start: Position { path: [0, 2], offset: 1 }, end: Position { path: [0], offset: 2 }, is_collapsed: false }"
    );
}
