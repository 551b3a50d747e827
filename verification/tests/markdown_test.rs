use md_core::convert::markdown::{inline_to_markdown, node_to_markdown, to_markdown};
use md_core::convert::{html_escape, Markdown, Text};
use md_core::{
    DefinitionItem, Document, FootnoteDefinition, InlineNode, ListItem, ListType, Node, TableAlignment, TableCell,
    TableProperties, TextFormatting, TextNode,
};

fn create_test_document() -> Document {
    let mut doc = Document::new();
    doc.add_heading(1, "Test Doc");
    doc.add_paragraph_with_text("This is **bold** and *italic*.");
    doc.add_code_block("let x = 5;", "rust");
    doc.add_unordered_list(vec!["Item 1", "Item 2 with `code`"]);
    doc.add_task_list(vec![("Task A", true), ("Task B", false)]);
    doc
}

fn create_math_test_document() -> Document {
    let mut doc = Document::new();
    doc.nodes.push(Node::paragraph_with_inlines(vec![
        InlineNode::Text(TextNode { text: "Inline formula: ".to_string(), formatting: TextFormatting::default() }),
        InlineNode::Math { math: "e^{i\\pi} + 1 = 0".to_string() },
        InlineNode::Text(TextNode { text: ".".to_string(), formatting: TextFormatting::default() }),
    ]));
    doc.nodes.push(Node::MathBlock { math: "\\sum_{n=1}^{\\infty} \\frac{1}{n^2} = \\frac{\\pi^2}{6}".to_string() });
    doc
}

#[test]
fn test_markdown_serialization_basic() {
    let doc = create_test_document();
    let md = to_markdown(&doc);

    assert!(md.contains("# Test Doc"));
    assert!(md.contains("This is **bold** and *italic*."));
    assert!(md.contains("```rust\nlet x = 5;\n```"));
    assert!(md.contains("* Item 1"));
    assert!(md.contains("* Item 2 with `code`"));
    assert!(md.contains("- [x] Task A"));
    assert!(md.contains("- [ ] Task B"));
}

#[test]
fn test_markdown_serialization_math() {
    let doc = create_math_test_document();
    let md = to_markdown(&doc);

    assert!(
        md.contains("$e^{i\\pi} + 1 = 0$") || md.contains("<span class=\"math-inline\">$e^{i\\pi} + 1 = 0$</span>"),
        "Inline math mismatch"
    );
    assert!(
        md.contains("$$\n\\sum_{n=1}^{\\infty} \\frac{1}{n^2} = \\frac{\\pi^2}{6}\n$$"),
        "Block math mismatch"
    );
}

#[test]
fn test_markdown_table() {
    let mut doc = Document::new();
    let header = vec![TableCell::text("Header 1"), TableCell::text("Header 2")];
    let rows = vec![vec![TableCell::text("Row 1, Col 1"), TableCell::text("Row 1, Col 2")]];
    let alignments = vec![TableAlignment::Left, TableAlignment::Center];
    doc.nodes.push(Node::Table { header, rows, alignments, properties: TableProperties::default() });

    let md = to_markdown(&doc);

    let md_lines: Vec<&str> = md.lines().map(|l| l.trim()).filter(|l| !l.is_empty()).collect();

    let expected = r#"
Header 1 | Header 2
|:-------|:-------:|
| Row 1, Col 1 | Row 1, Col 2 |
"#
    .trim();

    let expected_lines: Vec<&str> = expected.lines().map(|l| l.trim()).filter(|l| !l.is_empty()).collect();

    assert_eq!(md_lines, expected_lines, "Table markdown did not match expected output");
}

#[test]
fn test_footnote_serialization() {
    let mut doc = Document::new();
    doc.nodes.push(Node::Paragraph {
        children: vec![
            InlineNode::text("Here is a footnote reference"),
            InlineNode::FootnoteRef { label: "1".to_string() },
            InlineNode::text("."),
        ],
    });
    doc.nodes.push(Node::FootnoteDefinition(FootnoteDefinition {
        label: "1".to_string(),
        content: vec![Node::paragraph("This is the footnote definition.")],
    }));
    let md = to_markdown(&doc);
    assert!(
        md.contains("Here is a footnote reference[^1].") || md.contains("Here is a footnote reference\\[\\^1\\]."),
        "Footnote reference mismatch"
    );
    assert!(
        md.contains("[^1]: This is the footnote definition.")
            || md.contains("\\[\\^1\\]\\: This is the footnote definition\\."),
        "Footnote definition mismatch"
    );
}

#[test]
fn test_markdown_serialization() {
    let mut doc = Document::new();
    doc.add_heading(1, "Test Document");
    doc.add_paragraph_with_text("This is a paragraph");
    doc.add_code_block("fn main() {}", "rust");

    let markdown = Text::<Markdown>::from_string(to_markdown(&doc));

    assert!(markdown.as_str().contains("# Test Document"));
    assert!(markdown.as_str().contains("This is a paragraph"));
    assert!(markdown.as_str().contains("```rust"));
    assert!(markdown.as_str().contains("fn main() {}"));
}

#[test]
fn test_html_escape() {
    assert_eq!(html_escape("<script>"), "&lt;script&gt;");
    assert_eq!(html_escape("a & b"), "a &amp; b");
    assert_eq!(html_escape("\"quoted\""), "&quot;quoted&quot;");
    assert_eq!(html_escape("'single'"), "&#39;single&#39;");
}

#[test]
fn markdown_of_whole_documents_is_exact() {
    let doc = create_test_document();
    assert_eq!(
        to_markdown(&doc),
        "# Test Doc\n\nThis is **bold** and *italic*.\n\n```rust\nlet x = 5;\n```\n\n* Item 1\n* Item 2 with `code`\n\n\n- [x] Task A\n- [ ] Task B"
    );
    assert_eq!(to_markdown(&Document::new()), "");
}

#[test]
fn inline_markdown_forms() {
    let f = TextFormatting { bold: true, italic: true, strikethrough: true, code: true };
    assert_eq!(inline_to_markdown(&InlineNode::Text(TextNode { text: "x".to_string(), formatting: f })), "`~~***x***~~`");
    assert_eq!(inline_to_markdown(&InlineNode::link_with_title("u", "t", "a")), "[a](u \"t\")");
    assert_eq!(inline_to_markdown(&InlineNode::image("u", "alt")), "![alt](u)");
    assert_eq!(inline_to_markdown(&InlineNode::user_mention("bob")), "@bob");
    assert_eq!(inline_to_markdown(&InlineNode::issue_mention("12")), "#12");
    assert_eq!(inline_to_markdown(&InlineNode::autolink_url("http://a")), "<http://a>");
    assert_eq!(inline_to_markdown(&InlineNode::emoji("smile")), ":smile:");
    assert_eq!(inline_to_markdown(&InlineNode::hard_break()), "  \n");
    assert_eq!(inline_to_markdown(&InlineNode::math("a<b")), "<span class=\"math-inline\">$a&lt;b$</span>");
}

#[test]
fn block_markdown_forms() {
    assert_eq!(node_to_markdown(&Node::heading(3, "T")), "### T");
    assert_eq!(node_to_markdown(&Node::horizontal_rule()), "---");
    assert_eq!(node_to_markdown(&Node::code_block("x", "")), "```\nx\n```");
    assert_eq!(node_to_markdown(&Node::ordered_list(vec!["a", "b"])), "1. a\n2. b\n");
    let quote = Node::BlockQuote { children: vec![Node::paragraph("one"), Node::paragraph("two")] };
    assert_eq!(node_to_markdown(&quote), "> one\n> \n> two\n>");
    let nested = Node::List {
        list_type: ListType::Unordered,
        items: vec![ListItem::new(vec![Node::paragraph("top"), Node::ordered_list(vec!["in"])])],
    };
    assert_eq!(node_to_markdown(&nested), "* top\n  1. in\n\n");
    let defs = Node::DefinitionList { items: vec![DefinitionItem::single("Term", "Meaning")] };
    assert_eq!(node_to_markdown(&defs), "Term\n:   Meaning\n");
    let empty_header = Node::Table {
        header: vec![],
        rows: vec![vec![TableCell::text("a"), TableCell::text("b")]],
        alignments: vec![TableAlignment::Right, TableAlignment::Unaligned],
        properties: TableProperties::default(),
    };
    assert_eq!(node_to_markdown(&empty_header), "Header 1 | Header 2\n|-------:|--------|\n| a | b |\n");
    let text = Text::<Markdown>::new("# x");
    assert_eq!(text.into_inner(), "# x");
}
