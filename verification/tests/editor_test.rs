use md_core::{Document, EditError, Editor, InlineNode, Node, NodeConversionType, TextFormatting, Transaction};

fn first_text(doc: &Document, index: usize) -> String {
    match &doc.nodes[index] {
        Node::Paragraph { children } | Node::Heading { children, .. } => match &children[0] {
            InlineNode::Text(t) => t.text.clone(),
            _ => panic!("Expected Text node"),
        },
        _ => panic!("Expected Paragraph node"),
    }
}

#[test]
fn test_delete_text() {
    let mut doc = Document::new();
    let index = doc.add_paragraph_with_text("Hello, world!");
    let mut editor = Editor::new(doc);

    assert!(editor.delete_text(index, 7, 12).is_ok());
    assert_eq!(first_text(editor.document(), index), "Hello, !");

    assert!(editor.undo().is_ok());
    assert_eq!(first_text(editor.document(), index), "Hello, world!");
}

#[test]
fn test_merge_nodes() {
    let mut doc = Document::new();
    let p1 = doc.add_paragraph_with_text("First paragraph.");
    let p2 = doc.add_paragraph_with_text("Second paragraph.");
    let mut editor = Editor::new(doc);

    assert!(editor.merge_nodes(p1, p2).is_ok());
    assert_eq!(editor.document().nodes.len(), 1);
    match &editor.document().nodes[0] {
        Node::Paragraph { children } => assert_eq!(children.len(), 2),
        _ => panic!("Expected Paragraph node"),
    }

    assert!(editor.undo().is_ok());
    assert_eq!(editor.document().nodes.len(), 2);
}

#[test]
fn test_format_text() {
    let mut doc = Document::new();
    let index = doc.add_paragraph_with_text("Hello, world!");
    let mut editor = Editor::new(doc);

    let formatting = TextFormatting { bold: true, ..Default::default() };
    assert!(editor.format_text(index, 7, 12, formatting).is_ok());

    match &editor.document().nodes[index] {
        Node::Paragraph { children } => {
            assert_eq!(children.len(), 3);
            match &children[1] {
                InlineNode::Text(text_node) => {
                    assert_eq!(text_node.text, "world");
                    assert!(text_node.formatting.bold);
                }
                _ => panic!("Expected Text node"),
            }
        }
        _ => panic!("Expected Paragraph node"),
    }

    assert!(editor.undo().is_ok());
    match &editor.document().nodes[index] {
        Node::Paragraph { children } => {
            assert_eq!(children.len(), 1);
            match &children[0] {
                InlineNode::Text(text_node) => {
                    assert_eq!(text_node.text, "Hello, world!");
                    assert!(!text_node.formatting.bold);
                }
                _ => panic!("Expected Text node"),
            }
        }
        _ => panic!("Expected Paragraph node"),
    }
}

#[test]
fn test_delete_node() {
    let mut doc = Document::new();
    doc.add_paragraph_with_text("First paragraph.");
    doc.add_paragraph_with_text("Second paragraph.");
    let mut editor = Editor::new(doc);

    assert!(editor.delete_node(0).is_ok());
    assert_eq!(editor.document().nodes.len(), 1);
    assert_eq!(first_text(editor.document(), 0), "Second paragraph.");

    assert!(editor.undo().is_ok());
    assert_eq!(editor.document().nodes.len(), 2);
}

#[test]
fn test_move_node() {
    let mut doc = Document::new();
    doc.add_paragraph_with_text("First paragraph.");
    doc.add_paragraph_with_text("Second paragraph.");
    doc.add_paragraph_with_text("Third paragraph.");
    let mut editor = Editor::new(doc);

    assert!(editor.move_node(0, 3).is_ok());
    assert_eq!(first_text(editor.document(), 2), "First paragraph.");

    assert!(editor.undo().is_ok());
    assert_eq!(first_text(editor.document(), 0), "First paragraph.");
}

#[test]
fn test_convert_node_type() {
    let mut doc = Document::new();
    let index = doc.add_paragraph_with_text("This is a paragraph");
    let mut editor = Editor::new(doc);

    assert!(editor.convert_node_type(index, NodeConversionType::Heading(2)).is_ok());
    match &editor.document().nodes[index] {
        Node::Heading { level, children } => {
            assert_eq!(*level, 2);
            match &children[0] {
                InlineNode::Text(text_node) => assert_eq!(text_node.text, "This is a paragraph"),
                _ => panic!("Expected Text node"),
            }
        }
        _ => panic!("Expected Heading node"),
    }

    assert!(editor.undo().is_ok());
    match &editor.document().nodes[index] {
        Node::Paragraph { .. } => {}
        _ => panic!("Expected Paragraph node"),
    }
    assert_eq!(first_text(editor.document(), index), "This is a paragraph");
}

#[test]
fn test_insert_text() {
    let mut doc = Document::new();
    let index = doc.add_paragraph_with_text("Hello world!");
    let mut editor = Editor::new(doc);

    assert!(editor.insert_text(index, 5, ", beautiful").is_ok());
    assert_eq!(first_text(editor.document(), index), "Hello, beautiful world!");

    assert!(editor.undo().is_ok());
    assert_eq!(first_text(editor.document(), index), "Hello world!");
}

#[test]
fn test_insert_node() {
    let mut doc = Document::new();
    doc.add_paragraph_with_text("First paragraph.");
    let mut editor = Editor::new(doc);

    assert!(editor.insert_heading(1, 2, "New Heading").is_ok());
    assert_eq!(editor.document().nodes.len(), 2);
    match &editor.document().nodes[1] {
        Node::Heading { level, children } => {
            assert_eq!(*level, 2);
            match &children[0] {
                InlineNode::Text(text_node) => assert_eq!(text_node.text, "New Heading"),
                _ => panic!("Expected Text node"),
            }
        }
        _ => panic!("Expected Heading node"),
    }

    assert!(editor.undo().is_ok());
    assert_eq!(editor.document().nodes.len(), 1);
}

#[test]
fn test_duplicate_node() {
    let mut doc = Document::new();
    let p1 = doc.add_paragraph_with_text("This is a paragraph to duplicate.");
    let mut editor = Editor::new(doc);

    assert!(editor.duplicate_node(p1).is_ok());
    assert_eq!(editor.document().nodes.len(), 2);
    assert_eq!(first_text(editor.document(), 0), "This is a paragraph to duplicate.");
    assert_eq!(first_text(editor.document(), 1), "This is a paragraph to duplicate.");

    assert!(editor.undo().is_ok());
    assert_eq!(editor.document().nodes.len(), 1);
}

#[test]
fn undo_and_redo_on_empty_history_report_errors() {
    let mut editor = Editor::new(Document::new());
    match editor.undo() {
        Err(EditError::Other(m)) => assert_eq!(m, "Nothing to undo"),
        _ => panic!("Expected an error"),
    }
    match editor.redo() {
        Err(EditError::Other(m)) => assert_eq!(m, "Nothing to redo"),
        _ => panic!("Expected an error"),
    }
}

#[test]
fn redo_runs_an_undone_command_again() {
    let mut doc = Document::new();
    doc.add_paragraph_with_text("a");
    let mut editor = Editor::new(doc);
    assert!(editor.insert_paragraph(1, "b").is_ok());
    assert!(editor.undo().is_ok());
    assert_eq!(editor.document().nodes.len(), 1);
    assert!(editor.redo().is_ok());
    assert_eq!(editor.document().nodes.len(), 2);
    assert_eq!(first_text(editor.document(), 1), "b");
    assert!(editor.redo().is_err());
}

#[test]
fn failed_operations_leave_history_alone() {
    let mut editor = Editor::new(Document::new());
    assert!(matches!(editor.delete_node(0), Err(EditError::IndexOutOfBounds)));
    assert!(matches!(editor.merge_nodes(0, 1), Err(EditError::IndexOutOfBounds)));
    assert!(editor.undo().is_err());
}

#[test]
fn history_limit_drops_oldest_batches() {
    let mut editor = Editor::new(Document::new());
    editor.set_max_history(1);
    assert!(editor.insert_paragraph(0, "a").is_ok());
    assert!(editor.insert_paragraph(1, "b").is_ok());
    assert!(editor.undo().is_ok());
    assert_eq!(editor.document().nodes.len(), 1);
    assert!(editor.undo().is_err());
}

#[test]
fn merging_code_blocks_joins_with_newline_and_undo_splits() {
    let mut doc = Document::new();
    doc.add_code_block("a", "rust");
    doc.add_code_block("b", "rust");
    doc.add_code_block("c", "python");
    let mut editor = Editor::new(doc);
    assert!(matches!(editor.merge_nodes(1, 2), Err(EditError::UnsupportedOperation)));
    assert!(matches!(editor.merge_nodes(0, 2), Err(EditError::InvalidRange)));
    assert!(editor.merge_nodes(0, 1).is_ok());
    assert_eq!(editor.document().nodes[0].as_code_block(), Some(("rust", "a\nb")));
    assert!(editor.undo().is_ok());
    assert_eq!(editor.document().nodes[0].as_code_block(), Some(("rust", "a")));
    assert_eq!(editor.document().nodes[1].as_code_block(), Some(("rust", "b")));
}

#[test]
fn delete_text_in_code_block_and_undo() {
    let mut doc = Document::new();
    doc.add_code_block("let x = 42;", "rust");
    let mut editor = Editor::new(doc);
    assert!(matches!(editor.delete_text(0, 3, 3), Err(EditError::InvalidRange)));
    assert!(matches!(editor.delete_text(0, 3, 40), Err(EditError::InvalidRange)));
    assert!(editor.delete_text(0, 3, 5).is_ok());
    assert_eq!(editor.document().nodes[0].as_code_block(), Some(("rust", "let = 42;")));
    assert!(editor.undo().is_ok());
    assert_eq!(editor.document().nodes[0].as_code_block(), Some(("rust", "let x = 42;")));
}

#[test]
fn convert_paragraph_to_code_block_and_task_list() {
    let mut doc = Document::new();
    doc.add_paragraph_with_inlines(vec![InlineNode::text("a "), InlineNode::bold_text("b"), InlineNode::hard_break()]);
    let mut editor = Editor::new(doc);
    assert!(editor.convert_node_type(0, NodeConversionType::CodeBlock("txt".to_string())).is_ok());
    assert_eq!(editor.document().nodes[0].as_code_block(), Some(("txt", "a b\n")));
    assert!(editor.convert_node_type(0, NodeConversionType::List(md_core::ListType::Task)).is_ok());
    match &editor.document().nodes[0] {
        Node::List { items, .. } => {
            assert_eq!(items.len(), 1);
            assert_eq!(items[0].checked, Some(false));
            assert_eq!(items[0].as_text(), Some("a b\n"));
        }
        _ => panic!("Expected list"),
    }
    editor.document_mut().nodes.push(Node::horizontal_rule());
    assert!(matches!(editor.convert_node_type(1, NodeConversionType::Paragraph), Err(EditError::UnsupportedOperation)));
}

#[test]
fn test_transaction_api() {
    let mut doc = Document::new();
    doc.add_paragraph_with_text("Initial text");
    let mut editor = Editor::new(doc);

    let mut transaction = Transaction::new();
    transaction.insert_text(0, 7, " modified").format_text(0, 8, 16, TextFormatting { bold: true, ..Default::default() });

    let commands = transaction.commit(editor.document_mut()).expect("Transaction should commit");
    editor.execute_transaction_commands(commands).expect("Should execute commands");

    match &editor.document().nodes[0] {
        Node::Paragraph { children } => {
            assert_eq!(children.len(), 3);
            match &children[1] {
                InlineNode::Text(text_node) => {
                    assert_eq!(text_node.text, "modified");
                    assert!(text_node.formatting.bold);
                }
                _ => panic!("Expected Text node"),
            }
        }
        _ => panic!("Expected Paragraph node"),
    }

    editor.undo().expect("Undo should succeed");

    match &editor.document().nodes[0] {
        Node::Paragraph { children } => {
            assert_eq!(children.len(), 1);
            match &children[0] {
                InlineNode::Text(text_node) => assert_eq!(text_node.text, "Initial text"),
                _ => panic!("Expected Text node"),
            }
        }
        _ => panic!("Expected Paragraph node"),
    }
}

#[test]
fn test_transaction_rollback() {
    let mut doc = Document::new();
    doc.add_paragraph_with_text("Initial text");
    let editor = Editor::new(doc);
    let original_text = first_text(editor.document(), 0);

    {
        let mut transaction = Transaction::new();
        transaction.insert_text(0, 7, " modified");
    }

    assert_eq!(first_text(editor.document(), 0), original_text);
}

#[test]
fn test_transaction_with_error() {
    let mut doc = Document::new();
    doc.add_paragraph_with_text("Initial text");
    let mut editor = Editor::new(doc);

    let mut transaction = Transaction::new();
    transaction.insert_text(0, 7, " good").delete_node(99);

    let result = transaction.commit(editor.document_mut());
    assert!(result.is_err());

    assert_eq!(first_text(editor.document(), 0), "Initial text");
}

#[test]
fn test_complex_transaction() {
    let mut editor = Editor::new(Document::new());

    let mut transaction = Transaction::new();
    transaction
        .insert_heading(0, 1, "Document Title")
        .insert_paragraph(1, "First paragraph")
        .insert_code_block(2, "let x = 42;", "rust")
        .insert_paragraph(3, "Another paragraph");

    let commands = transaction.commit(editor.document_mut()).expect("Transaction should commit");
    editor.execute_transaction_commands(commands).expect("Should execute commands");

    assert_eq!(editor.document().nodes.len(), 4);

    editor.undo().expect("Undo should succeed");
    assert_eq!(editor.document().nodes.len(), 0);
}

#[test]
fn discarded_transaction_changes_nothing() {
    let mut doc = Document::new();
    doc.add_paragraph_with_text("x");
    let mut editor = Editor::new(doc);
    let mut transaction = Transaction::new();
    transaction.delete_node(0).clear_selection();
    transaction.discard();
    assert_eq!(editor.document_mut().nodes.len(), 1);
    let empty = Transaction::new();
    let cmds = empty.commit(editor.document_mut()).unwrap();
    assert!(cmds.is_empty());
}

#[test]
fn transaction_formats_and_indents_the_document_selection() {
    let mut doc = Document::new();
    doc.add_paragraph_with_text("Hello world");
    doc.select_text_range(0, 0, 5);
    let mut editor = Editor::new(doc);

    let mut transaction = Transaction::new();
    transaction.format_selection(TextFormatting { bold: true, ..Default::default() });
    let commands = transaction.commit(editor.document_mut()).expect("Transaction should commit");
    editor.execute_transaction_commands(commands).expect("Should record commands");
    match &editor.document().nodes[0] {
        Node::Paragraph { children } => match &children[0] {
            InlineNode::Text(t) => {
                assert_eq!(t.text, "Hello");
                assert!(t.formatting.bold);
            }
            _ => panic!("Expected text"),
        },
        _ => panic!("Expected paragraph"),
    }
    editor.undo().expect("Undo should succeed");
    assert_eq!(first_text(editor.document(), 0), "Hello world");

    let mut transaction = Transaction::new();
    transaction.indent_selection().unindent_selection();
    let commands = transaction.commit(editor.document_mut()).expect("Transaction should commit");
    assert_eq!(commands.len(), 2);
}

#[test]
fn editor_undo_then_redo_gives_back_each_document() {
    let mut doc = Document::new();
    doc.add_paragraph_with_text("First");
    doc.add_code_block("let x = 1;", "rust");
    let mut editor = Editor::new(doc);

    let before = editor.document().clone();
    editor.insert_paragraph(1, "Middle").expect("insert");
    let after = editor.document().clone();
    editor.undo().expect("undo");
    assert_eq!(*editor.document(), before);
    editor.redo().expect("redo");
    assert_eq!(*editor.document(), after);

    let before = editor.document().clone();
    editor.delete_text(2, 4, 5).expect("delete in code block");
    editor.undo().expect("undo");
    assert_eq!(*editor.document(), before);

    let before = editor.document().clone();
    editor.move_node(0, 3).expect("move");
    editor.undo().expect("undo");
    assert_eq!(*editor.document(), before);
}

#[test]
fn undo_restores_runs_after_delete_and_empty_insert() {
    let mut doc = Document::new();
    doc.add_paragraph_with_inlines(vec![InlineNode::bold_text("Bold"), InlineNode::text(" and plain")]);
    let mut editor = Editor::new(doc);
    let before = editor.document().clone();
    editor.delete_text(0, 2, 6).expect("delete across runs");
    assert_ne!(*editor.document(), before);
    editor.undo().expect("undo");
    assert_eq!(*editor.document(), before);

    editor.insert_text(0, 0, "").expect("empty insert");
    editor.undo().expect("undo of an empty insert");
    assert_eq!(*editor.document(), before);
}

#[test]
fn undo_after_cut_across_nodes_restores_nodes_and_selection() {
    let mut doc = Document::new();
    doc.add_paragraph_with_text("One");
    doc.add_paragraph_with_text("Two");
    doc.add_paragraph_with_text("Three");
    assert!(doc.select_node_range(0, 1));
    let mut editor = Editor::new(doc);
    let before = editor.document().clone();
    let cut = editor.cut_selection();
    assert_eq!(cut.len(), 2);
    assert_eq!(editor.document().nodes.len(), 1);
    editor.undo().expect("undo");
    assert_eq!(*editor.document(), before);
}

#[test]
fn redo_runs_a_whole_transaction_again() {
    let mut doc = Document::new();
    doc.add_paragraph_with_text("A");
    let mut editor = Editor::new(doc);
    let mut transaction = Transaction::new();
    transaction.insert_paragraph(1, "B").insert_paragraph(2, "C");
    let commands = transaction.commit(editor.document_mut()).expect("Transaction should commit");
    editor.execute_transaction_commands(commands).expect("Should execute commands");
    let after = editor.document().nodes.clone();
    assert_eq!(after, vec![Node::paragraph("A"), Node::paragraph("B"), Node::paragraph("C")]);
    editor.undo().expect("undo");
    assert_eq!(editor.document().nodes, vec![Node::paragraph("A")]);
    editor.redo().expect("redo");
    assert_eq!(editor.document().nodes, after);
}

#[test]
fn inserted_text_lands_in_the_joined_text_at_the_offset() {
    let mut doc = Document::new();
    doc.add_paragraph_with_inlines(vec![InlineNode::text("Hello "), InlineNode::bold_text("world")]);
    let mut editor = Editor::new(doc);
    editor.insert_text(0, 8, "XY").expect("insert");
    let joined: String = match &editor.document().nodes[0] {
        Node::Paragraph { children } => children
            .iter()
            .map(|c| match c {
                InlineNode::Text(t) => t.text.clone(),
                _ => String::new(),
            })
            .collect(),
        _ => panic!("Expected Paragraph node"),
    };
    assert_eq!(joined, "Hello woXYrld");
}

#[test]
fn undo_after_merging_code_blocks_restores_both() {
    let mut doc = Document::new();
    doc.nodes.push(Node::code_block("let a = 1;", "rust"));
    doc.nodes.push(Node::code_block("let b = 2;", "rust"));
    let before = doc.nodes.clone();
    let mut editor = Editor::new(doc);
    editor.merge_nodes(0, 1).expect("merge");
    assert_eq!(editor.document().nodes, vec![Node::code_block("let a = 1;\nlet b = 2;", "rust")]);
    editor.undo().expect("undo");
    assert_eq!(editor.document().nodes, before);
}

fn joined(node: &Node) -> String {
    match node {
        Node::Paragraph { children } => children
            .iter()
            .map(|c| match c {
                InlineNode::Text(t) => t.text.clone(),
                _ => String::new(),
            })
            .collect(),
        _ => panic!("Expected Paragraph node"),
    }
}

#[test]
fn deleting_across_runs_removes_the_bytes_from_the_joined_text() {
    let mut doc = Document::new();
    doc.add_paragraph_with_inlines(vec![InlineNode::text("Hello "), InlineNode::bold_text("big "), InlineNode::text("world")]);
    let mut editor = Editor::new(doc);
    editor.delete_text(0, 3, 12).expect("delete");
    assert_eq!(joined(&editor.document().nodes[0]), "Helrld");
}

#[test]
fn formatting_a_range_keeps_the_joined_text() {
    let mut doc = Document::new();
    doc.add_paragraph_with_inlines(vec![InlineNode::text("Hello "), InlineNode::text("world")]);
    let mut editor = Editor::new(doc);
    editor.format_text(0, 3, 8, TextFormatting { italic: true, ..Default::default() }).expect("format");
    assert_eq!(joined(&editor.document().nodes[0]), "Hello world");
    match &editor.document().nodes[0] {
        Node::Paragraph { children } => {
            let italic: String = children
                .iter()
                .filter_map(|c| match c {
                    InlineNode::Text(t) if t.formatting.italic => Some(t.text.clone()),
                    _ => None,
                })
                .collect();
            assert_eq!(italic, "lo wo");
        }
        _ => panic!("Expected Paragraph node"),
    }
}
