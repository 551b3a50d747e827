use md_core::editor::selection_indent::IndentDirection;
use md_core::{
    Command, CopySelectionCommand, CutSelectionCommand, Document, Editor, EditError, FindReplaceCommand, InlineNode,
    ListType, Node, Position, Selection, SelectionFormatCommand, SelectionIndentCommand, TextFormatting,
};

fn text_of(node: &Node) -> String {
    match node {
        Node::Paragraph { children } | Node::Heading { children, .. } => children
            .iter()
            .map(|c| match c {
                InlineNode::Text(t) => t.text.clone(),
                _ => String::new(),
            })
            .collect(),
        Node::CodeBlock { code, .. } => code.clone(),
        _ => panic!("Expected text node"),
    }
}

fn select(doc: &mut Document, si: usize, s: usize, ei: usize, e: usize) {
    doc.selection = Some(Selection::new(Position::at_node(si, s), Position::at_node(ei, e)));
}

#[test]
fn cut_within_paragraph_and_undo() {
    let mut doc = Document::new();
    doc.add_paragraph_with_text("Hello brave world");
    select(&mut doc, 0, 6, 0, 12);
    let mut cmd = CutSelectionCommand::new();
    assert!(cmd.execute(&mut doc).is_ok());
    assert_eq!(text_of(&doc.nodes[0]), "Hello world");
    assert_eq!(cmd.cut_content().len(), 1);
    assert_eq!(text_of(&cmd.cut_content()[0]), "brave ");
    let sel = doc.selection.clone().unwrap();
    assert!(sel.is_collapsed);
    assert_eq!(sel.start.offset, 6);
    assert!(cmd.undo(&mut doc).is_ok());
    assert_eq!(text_of(&doc.nodes[0]), "Hello brave world");
    assert!(cmd.cut_content().is_empty());
}

#[test]
fn cut_across_nodes_removes_them() {
    let mut doc = Document::new();
    doc.add_paragraph_with_text("One");
    doc.add_paragraph_with_text("Two");
    doc.add_paragraph_with_text("Three");
    select(&mut doc, 0, 0, 1, 0);
    let mut editor = Editor::new(doc);
    let cut = editor.cut_selection();
    assert_eq!(cut.len(), 2);
    assert_eq!(text_of(&cut[0]), "One");
    assert_eq!(editor.document().nodes.len(), 1);
    assert_eq!(text_of(&editor.document().nodes[0]), "Three");
}

#[test]
fn cut_code_block_bad_range_is_refused() {
    let mut doc = Document::new();
    doc.add_code_block("abc", "rust");
    select(&mut doc, 0, 2, 0, 9);
    let mut cmd = CutSelectionCommand::new();
    assert!(matches!(cmd.execute(&mut doc), Err(EditError::InvalidRange)));
    assert!(doc.selection.is_none());
}

#[test]
fn cut_unsupported_node_keeps_selection() {
    let mut doc = Document::new();
    doc.nodes.push(Node::ThematicBreak);
    select(&mut doc, 0, 0, 0, 1);
    let mut cmd = CutSelectionCommand::new();
    assert!(matches!(cmd.execute(&mut doc), Err(EditError::UnsupportedOperation)));
    assert!(doc.selection.is_some());
}

#[test]
fn copy_leaves_document_alone() {
    let mut doc = Document::new();
    doc.add_paragraph_with_text("Alpha");
    doc.add_heading(2, "Beta");
    select(&mut doc, 0, 0, 1, 0);
    let mut cmd = CopySelectionCommand::new();
    assert!(cmd.execute(&mut doc).is_ok());
    assert_eq!(cmd.get_copied_nodes().len(), 2);
    assert_eq!(doc.nodes.len(), 2);
    let mut editor = Editor::new(doc);
    let copied = editor.copy_selection();
    assert_eq!(copied.len(), 2);
    assert_eq!(text_of(&copied[1]), "Beta");
}

#[test]
fn copy_takes_selected_byte_range() {
    let mut doc = Document::new();
    doc.add_paragraph_with_text("Hello world");
    doc.selection = Some(Selection::new(Position::new(vec![0], 6), Position::new(vec![0], 11)));
    let mut cmd = CopySelectionCommand::new();
    assert!(cmd.execute(&mut doc).is_ok());
    assert_eq!(text_of(&cmd.get_copied_nodes()[0]), "world");
}

#[test]
fn editor_copy_gives_what_cut_takes() {
    let mut doc = Document::new();
    doc.add_paragraph_with_text("Hello, world!");
    assert!(doc.select_text_range(0, 7, 12));
    let mut editor = Editor::new(doc);
    let copied = editor.copy_selection();
    assert_eq!(copied, vec![Node::paragraph("world")]);
    assert_eq!(editor.document().nodes, vec![Node::paragraph("Hello, world!")]);
    let cut = editor.cut_selection();
    assert_eq!(cut, copied);
}

#[test]
fn find_replace_case_sensitive_counts() {
    let mut doc = Document::new();
    doc.add_paragraph_with_text("cat Cat cat");
    doc.add_code_block("let cat = 1;", "rust");
    doc.add_heading(1, "cat");
    let mut editor = Editor::new(doc);
    let n = editor.find_replace("cat", "dog", true);
    assert_eq!(n, 3);
    assert_eq!(text_of(&editor.document().nodes[0]), "dog Cat dog");
    assert_eq!(text_of(&editor.document().nodes[1]), "let dog = 1;");
    assert_eq!(text_of(&editor.document().nodes[2]), "cat");
    assert!(editor.undo().is_ok());
    assert_eq!(text_of(&editor.document().nodes[0]), "cat Cat cat");
}

#[test]
fn find_replace_case_insensitive() {
    let mut doc = Document::new();
    doc.add_paragraph_with_text("Cat and CAT");
    let mut cmd = FindReplaceCommand::new("cat", "dog", false);
    assert!(cmd.execute(&mut doc).is_ok());
    assert_eq!(cmd.replacements(), 2);
    assert_eq!(text_of(&doc.nodes[0]), "dog and dog");
    assert!(cmd.undo(&mut doc).is_ok());
    assert_eq!(text_of(&doc.nodes[0]), "Cat and CAT");
    assert_eq!(cmd.replacements(), 0);
}

#[test]
fn find_replace_empty_pattern_changes_nothing() {
    let mut doc = Document::new();
    doc.add_paragraph_with_text("abc");
    let mut editor = Editor::new(doc);
    assert_eq!(editor.find_replace("", "x", true), 0);
    assert_eq!(text_of(&editor.document().nodes[0]), "abc");
}

#[test]
fn selection_format_bolds_range() {
    let mut doc = Document::new();
    doc.add_paragraph_with_text("Hello world");
    select(&mut doc, 0, 6, 0, 11);
    let mut cmd = SelectionFormatCommand::new(TextFormatting { bold: true, ..TextFormatting::default() });
    assert!(cmd.execute(&mut doc).is_ok());
    match &doc.nodes[0] {
        Node::Paragraph { children } => {
            assert_eq!(children.len(), 2);
            match &children[1] {
                InlineNode::Text(t) => {
                    assert_eq!(t.text, "world");
                    assert!(t.formatting.bold);
                }
                _ => panic!("Expected text"),
            }
        }
        _ => panic!("Expected paragraph"),
    }
    assert!(cmd.undo(&mut doc).is_ok());
    assert_eq!(text_of(&doc.nodes[0]), "Hello world");
}

#[test]
fn selection_format_across_nodes_is_unsupported() {
    let mut doc = Document::new();
    doc.add_paragraph_with_text("a");
    doc.add_paragraph_with_text("b");
    select(&mut doc, 0, 0, 1, 1);
    let mut editor = Editor::new(doc);
    assert!(matches!(editor.format_selection(TextFormatting::default()), Err(EditError::UnsupportedOperation)));
}

#[test]
fn indent_selection_merges_lists_and_indents_code() {
    let mut doc = Document::new();
    doc.add_unordered_list(vec!["a"]);
    doc.add_unordered_list(vec!["b"]);
    doc.add_code_block("x\ny", "");
    select(&mut doc, 0, 0, 2, 0);
    let mut editor = Editor::new(doc);
    assert!(editor.indent_selection().is_ok());
    let nodes = &editor.document().nodes;
    assert_eq!(nodes.len(), 2);
    match &nodes[0] {
        Node::List { list_type, items } => {
            assert_eq!(*list_type, ListType::Unordered);
            assert_eq!(items.len(), 2);
        }
        _ => panic!("Expected list"),
    }
    assert_eq!(text_of(&nodes[1]), "    x\n    y");
    assert!(editor.unindent_selection().is_ok());
}

#[test]
fn unindent_code_block_strips_leading_whitespace() {
    let mut doc = Document::new();
    doc.add_code_block("      a\n\tb\n c", "");
    select(&mut doc, 0, 0, 0, 0);
    let mut cmd = SelectionIndentCommand::new(IndentDirection::Decrease);
    assert!(cmd.execute(&mut doc).is_ok());
    assert_eq!(text_of(&doc.nodes[0]), "  a\nb\nc");
    assert!(cmd.undo(&mut doc).is_ok());
    assert_eq!(text_of(&doc.nodes[0]), "      a\n\tb\n c");
}

#[test]
fn find_replace_ignoring_case_replaces_every_match() {
    let mut doc = Document::new();
    doc.add_paragraph_with_text("Hello hello HELLO");
    let mut editor = Editor::new(doc);
    assert_eq!(editor.find_replace("hello", "bye", false), 3);
    assert_eq!(editor.document().nodes, vec![Node::paragraph("bye bye bye")]);
    assert!(editor.undo().is_ok());
    assert_eq!(editor.document().nodes, vec![Node::paragraph("Hello hello HELLO")]);
}

#[test]
fn undo_after_indent_that_merges_lists_restores_all_nodes() {
    let mut doc = Document::new();
    doc.add_unordered_list(vec!["a"]);
    doc.add_unordered_list(vec!["b"]);
    doc.add_code_block("x\ny", "");
    select(&mut doc, 0, 0, 2, 0);
    let before = doc.nodes.clone();
    let mut editor = Editor::new(doc);
    assert!(editor.indent_selection().is_ok());
    assert_eq!(editor.document().nodes.len(), 2);
    assert!(editor.undo().is_ok());
    assert_eq!(editor.document().nodes, before);
}

#[test]
fn unindent_after_indent_gives_code_and_quotes_back() {
    let mut doc = Document::new();
    doc.add_code_block("fn a() {}\n\nlet b = 1;", "rust");
    doc.nodes.push(Node::BlockQuote { children: vec![Node::paragraph("quoted")] });
    doc.add_paragraph_with_text("plain");
    select(&mut doc, 0, 0, 2, 0);
    let before = doc.nodes.clone();
    let mut editor = Editor::new(doc);
    assert!(editor.indent_selection().is_ok());
    assert_ne!(editor.document().nodes, before);
    assert!(editor.unindent_selection().is_ok());
    assert_eq!(editor.document().nodes, before);
}

#[test]
fn case_sensitive_replace_works_run_by_run() {
    let mut doc = Document::new();
    doc.add_paragraph_with_inlines(vec![InlineNode::text("cat Cat "), InlineNode::bold_text("catcat")]);
    let mut editor = Editor::new(doc);
    assert_eq!(editor.find_replace("cat", "dog", true), 3);
    assert_eq!(
        editor.document().nodes,
        vec![Node::Paragraph { children: vec![InlineNode::text("dog Cat "), InlineNode::bold_text("dogdog")] }]
    );
}
