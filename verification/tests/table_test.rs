use md_core::{
    Command, CreateTableCommand, Document, EditError, InlineNode, Node, TableAlignment, TableCell, TableOperation,
    TableOperationsCommand, TableProperties,
};

fn two_by_two() -> Document {
    let mut doc = Document::new();
    let header = vec![TableCell::text("H1"), TableCell::text("H2")];
    let rows = vec![vec![TableCell::text("R1C1"), TableCell::text("R1C2")]];
    let alignments = vec![TableAlignment::default(), TableAlignment::default()];
    doc.nodes.push(Node::Table { header, rows, alignments, properties: TableProperties::default() });
    doc
}

#[test]
fn test_create_empty_table() {
    let mut doc = Document::new();
    doc.add_paragraph_with_text("Test paragraph");

    let mut cmd = CreateTableCommand::new(1, 3, 2, true);
    assert!(cmd.execute(&mut doc).is_ok());
    assert_eq!(doc.nodes.len(), 2);

    match &doc.nodes[1] {
        Node::Table { header, rows, alignments, .. } => {
            assert_eq!(header.len(), 3);
            assert_eq!(header[0].content[0].as_text().unwrap(), "Header 1");
            assert_eq!(rows.len(), 2);
            assert_eq!(rows[0].len(), 3);
            assert_eq!(rows[0][0].content[0].as_text().unwrap(), "Cell 1");
            assert_eq!(alignments.len(), 3);
            assert_eq!(alignments[0], TableAlignment::Unaligned);
        }
        _ => panic!("Expected Table node"),
    }

    assert!(cmd.undo(&mut doc).is_ok());
    assert_eq!(doc.nodes.len(), 1);
    match &doc.nodes[0] {
        Node::Paragraph { children } => {
            if let InlineNode::Text(text_node) = &children[0] {
                assert_eq!(text_node.text, "Test paragraph");
            } else {
                panic!("Expected Text node");
            }
        }
        _ => panic!("Expected Paragraph node"),
    }
}

#[test]
fn test_create_table_with_data() {
    let mut doc = Document::new();
    let data = vec![
        vec!["Name".to_string(), "Age".to_string(), "Role".to_string()],
        vec!["Alice".to_string(), "30".to_string(), "Developer".to_string()],
        vec!["Bob".to_string(), "28".to_string(), "Designer".to_string()],
    ];

    let mut cmd = CreateTableCommand::with_data(
        0,
        data,
        true,
        Some(vec![TableAlignment::Left, TableAlignment::Center, TableAlignment::Right]),
    );
    assert!(cmd.execute(&mut doc).is_ok());
    assert_eq!(doc.nodes.len(), 1);

    match &doc.nodes[0] {
        Node::Table { header, rows, alignments, .. } => {
            assert_eq!(header.len(), 3);
            assert_eq!(header[0].content[0].as_text().unwrap(), "Name");
            assert_eq!(header[1].content[0].as_text().unwrap(), "Age");
            assert_eq!(header[2].content[0].as_text().unwrap(), "Role");
            assert_eq!(rows.len(), 2);
            assert_eq!(rows[0][0].content[0].as_text().unwrap(), "Alice");
            assert_eq!(rows[0][1].content[0].as_text().unwrap(), "30");
            assert_eq!(rows[1][0].content[0].as_text().unwrap(), "Bob");
            assert_eq!(alignments.len(), 3);
            assert_eq!(alignments[0], TableAlignment::Left);
            assert_eq!(alignments[1], TableAlignment::Center);
            assert_eq!(alignments[2], TableAlignment::Right);
        }
        _ => panic!("Expected Table node"),
    }
}

#[test]
fn test_add_row() {
    let mut doc = two_by_two();
    let mut cmd = TableOperationsCommand::new(0, TableOperation::AddRow(1));
    assert!(cmd.execute(&mut doc).is_ok());
    match &doc.nodes[0] {
        Node::Table { rows, .. } => {
            assert_eq!(rows.len(), 2);
            assert_eq!(rows[1].len(), 2);
        }
        _ => panic!("Expected Table node"),
    }
    assert!(cmd.undo(&mut doc).is_ok());
    match &doc.nodes[0] {
        Node::Table { rows, .. } => assert_eq!(rows.len(), 1),
        _ => panic!("Expected Table node"),
    }
}

#[test]
fn test_add_column() {
    let mut doc = two_by_two();
    let mut cmd = TableOperationsCommand::new(0, TableOperation::AddColumn(1));
    assert!(cmd.execute(&mut doc).is_ok());
    match &doc.nodes[0] {
        Node::Table { header, rows, alignments, .. } => {
            assert_eq!(header.len(), 3);
            assert_eq!(rows[0].len(), 3);
            assert_eq!(alignments.len(), 3);
            assert_eq!(header[1].content[0].as_text().unwrap(), "Column 3");
        }
        _ => panic!("Expected Table node"),
    }
}

#[test]
fn test_set_cell_content() {
    let mut doc = two_by_two();
    let mut cmd = TableOperationsCommand::new(
        0,
        TableOperation::SetCell { row: 0, column: 1, content: "Updated".to_string(), is_header: false },
    );
    assert!(cmd.execute(&mut doc).is_ok());
    match &doc.nodes[0] {
        Node::Table { rows, .. } => assert_eq!(rows[0][1].content[0].as_text().unwrap(), "Updated"),
        _ => panic!("Expected Table node"),
    }
}

#[test]
fn test_set_alignment() {
    let mut doc = two_by_two();
    let mut cmd =
        TableOperationsCommand::new(0, TableOperation::SetAlignment { column: 1, alignment: TableAlignment::Center });
    assert!(cmd.execute(&mut doc).is_ok());
    match &doc.nodes[0] {
        Node::Table { alignments, .. } => assert_eq!(alignments[1], TableAlignment::Center),
        _ => panic!("Expected Table node"),
    }
}

#[test]
fn table_operation_errors_and_texts() {
    let mut doc = two_by_two();
    doc.add_paragraph_with_text("not a table");
    let mut cmd = TableOperationsCommand::new(1, TableOperation::RemoveRow(0));
    match cmd.execute(&mut doc) {
        Err(EditError::Other(m)) => assert_eq!(m, "Node is not a table"),
        _ => panic!("Expected an error"),
    }
    let mut cmd = TableOperationsCommand::new(5, TableOperation::RemoveRow(0));
    assert!(matches!(cmd.execute(&mut doc), Err(EditError::IndexOutOfBounds)));
    let mut cmd = TableOperationsCommand::new(0, TableOperation::RemoveRow(3));
    assert!(matches!(cmd.execute(&mut doc), Err(EditError::IndexOutOfBounds)));
    let mut cmd = TableOperationsCommand::new(0, TableOperation::AddRow(0));
    assert!(cmd.execute(&mut doc).is_ok());
    match &doc.nodes[0] {
        Node::Table { rows, .. } => {
            assert_eq!(rows[0][0].content[0].as_text().unwrap(), "Row 2, Col 1");
            assert_eq!(rows[0][1].content[0].as_text().unwrap(), "Row 2, Col 2");
        }
        _ => panic!("Expected Table node"),
    }
    let mut cmd = TableOperationsCommand::new(0, TableOperation::RemoveColumn(0));
    assert!(cmd.execute(&mut doc).is_ok());
    match &doc.nodes[0] {
        Node::Table { header, rows, alignments, .. } => {
            assert_eq!(header.len(), 1);
            assert_eq!(rows[1][0].content[0].as_text().unwrap(), "R1C2");
            assert_eq!(alignments.len(), 1);
        }
        _ => panic!("Expected Table node"),
    }
    let mut undo_twice = TableOperationsCommand::new(0, TableOperation::RemoveRow(0));
    assert!(undo_twice.execute(&mut doc).is_ok());
    assert!(undo_twice.undo(&mut doc).is_ok());
    match undo_twice.undo(&mut doc) {
        Err(EditError::Other(m)) => assert_eq!(m, "No original state to restore"),
        _ => panic!("Expected an error"),
    }
}

#[test]
fn cell_attribute_operations() {
    let mut doc = two_by_two();
    let mut c1 = TableOperationsCommand::new(
        0,
        TableOperation::SetCellSpan { row: 0, column: 0, colspan: 2, rowspan: 3, is_header: true },
    );
    assert!(c1.execute(&mut doc).is_ok());
    let mut c2 = TableOperationsCommand::new(
        0,
        TableOperation::SetCellBackground { row: 0, column: 1, color: "red".to_string(), is_header: false },
    );
    assert!(c2.execute(&mut doc).is_ok());
    let mut c3 = TableOperationsCommand::new(
        0,
        TableOperation::SetCellStyle { row: 0, column: 2, style: "x".to_string(), is_header: false },
    );
    assert!(matches!(c3.execute(&mut doc), Err(EditError::IndexOutOfBounds)));
    match &doc.nodes[0] {
        Node::Table { header, rows, .. } => {
            assert_eq!(header[0].colspan, 2);
            assert_eq!(header[0].rowspan, 3);
            assert_eq!(rows[0][1].background_color, Some("red".to_string()));
        }
        _ => panic!("Expected Table node"),
    }
    let mut c4 = TableOperationsCommand::new(0, TableOperation::SetTableProperties(TableProperties::new().with_hover(true)));
    assert!(c4.execute(&mut doc).is_ok());
    match &doc.nodes[0] {
        Node::Table { properties, .. } => assert!(properties.hoverable),
        _ => panic!("Expected Table node"),
    }
}
