use md_core::convert::from_html::html_to_markdown;
use md_core::convert::parser::{parse_events, MdEvent};
use md_core::DocumentBuilder;
use md_core::convert::html::{inlines_to_html, to_html};
use md_core::convert::markdown::{inlines_to_markdown, to_markdown};
use md_core::{Document, InlineNode, ListType, Node, TableAlignment, TextFormatting, TextNode};

fn parse_markdown(markdown: &str) -> Document {
    md_core::convert::parser::parse_markdown(markdown).expect("markdown parses")
}

fn from_html(html: &str) -> Document {
    md_core::convert::from_html::from_html(html).expect("html parses")
}

fn create_test_document() -> Document {
    let mut doc = Document::new();
    doc.add_heading(1, "Test Document");
    doc.add_paragraph_with_text("This is a test paragraph.");
    doc
}

#[test]
fn test_markdown_conversion() {
    let doc = create_test_document();
    let md = to_markdown(&doc);
    assert!(md.contains("# Test Document"));
    let doc2 = parse_markdown(&md);
    assert_eq!(doc2.nodes.len(), doc.nodes.len());
}

#[test]
fn test_html_conversion() {
    let doc = create_test_document();
    let html = to_html(&doc);
    assert!(html.contains("<h1>Test Document</h1>"));
    let doc2 = from_html(&html);
    assert_eq!(doc2.nodes.len(), doc.nodes.len());
}

#[test]
fn test_markdown_parsing_basic() {
    let markdown = "# Title\n\nThis is a paragraph with **bold** text.\n\n* Item 1\n* Item 2";
    let doc = parse_markdown(markdown);
    assert_eq!(doc.nodes.len(), 3);
    match &doc.nodes[0] {
        Node::Heading { level, .. } => assert_eq!(*level, 1),
        _ => panic!("Expected heading"),
    }
    match &doc.nodes[1] {
        Node::Paragraph { .. } => {}
        _ => panic!("Expected paragraph"),
    }
    match &doc.nodes[2] {
        Node::List { list_type, .. } => assert_eq!(*list_type, ListType::Unordered),
        _ => panic!("Expected list"),
    }
}

#[test]
fn test_blockquote_serialization_parsing() {
    let mut doc = Document::new();
    doc.nodes.push(Node::BlockQuote {
        children: vec![Node::paragraph("This is a blockquote."), Node::paragraph("With multiple paragraphs.")],
    });
    let md = to_markdown(&doc);
    assert!(md.contains("> This is a blockquote."));
    assert!(md.contains("> With multiple paragraphs."));
    let parsed_doc = parse_markdown(&md);
    assert_eq!(parsed_doc.nodes.len(), 1);
    match &parsed_doc.nodes[0] {
        Node::BlockQuote { children } => {
            assert_eq!(children.len(), 2);
            match &children[0] {
                Node::Paragraph { children } => {
                    assert_eq!(inlines_to_markdown(children), "This is a blockquote.");
                }
                _ => panic!("Expected paragraph in blockquote"),
            }
        }
        _ => panic!("Expected blockquote"),
    }
}

#[test]
fn test_list_serialization_parsing() {
    let markdown = r#"
* Item 1
* Item 2
  * Nested Item 1
  * Nested Item 2
* Item 3

1. Ordered 1
2. Ordered 2
   * Mixed nested 1
   * Mixed nested 2
3. Ordered 3
"#;
    let doc = parse_markdown(markdown);
    assert!(doc.nodes.len() >= 2, "Should have at least two lists");
    if let Node::List { list_type, items } = &doc.nodes[0] {
        assert_eq!(*list_type, ListType::Unordered);
        assert_eq!(items.len(), 3);
        let has_nested_list = items[1]
            .children
            .iter()
            .any(|node| matches!(node, Node::List { list_type, .. } if *list_type == ListType::Unordered));
        assert!(has_nested_list, "Second item should contain a nested list");
    } else {
        panic!("Expected unordered list");
    }
    if let Node::List { list_type, items } = &doc.nodes[1] {
        assert_eq!(*list_type, ListType::Ordered);
        assert_eq!(items.len(), 3);
        let has_nested_list = items[1]
            .children
            .iter()
            .any(|node| matches!(node, Node::List { list_type, .. } if *list_type == ListType::Unordered));
        assert!(has_nested_list, "Second ordered item should have nested unordered list");
    } else {
        panic!("Expected ordered list");
    }
    let md = to_markdown(&doc);
    let reparsed = parse_markdown(&md);
    assert_eq!(reparsed.nodes.len(), doc.nodes.len());
}

#[test]
fn test_complex_inline_formatting() {
    let markdown = r#"This paragraph has **bold**, *italic*, ***bold and italic***, ~~strikethrough~~, and `code` formatting."#;
    let doc = parse_markdown(markdown);
    assert_eq!(doc.nodes.len(), 1);
    if let Node::Paragraph { children } = &doc.nodes[0] {
        let mut has_bold = false;
        let mut has_italic = false;
        let mut has_strikethrough = false;
        let mut has_code = false;
        for inline in children {
            if let InlineNode::Text(text_node) = inline {
                if text_node.formatting.bold && !text_node.formatting.italic {
                    has_bold = true;
                }
                if text_node.formatting.italic && !text_node.formatting.bold {
                    has_italic = true;
                }
                if text_node.formatting.strikethrough {
                    has_strikethrough = true;
                }
            } else if let InlineNode::CodeSpan { .. } = inline {
                has_code = true;
            }
        }
        assert!(has_bold, "Should have bold text");
        assert!(has_italic, "Should have italic text");
        assert!(has_strikethrough, "Should have strikethrough text");
        assert!(has_code, "Should have code text");
    } else {
        panic!("Expected paragraph");
    }
    let md = to_markdown(&doc);
    assert!(md.contains("**bold**"));
    assert!(md.contains("*italic*"));
    assert!(md.contains("~~strikethrough~~"));
    assert!(md.contains("`code`"));
}

#[test]
fn test_links_and_images() {
    let markdown = r#"
Here's [a link](https://example.com) and [a link with title](https://example.com "Example").

And an image: ![alt text](https://example.com/image.jpg "Image title")
"#;
    let doc = parse_markdown(markdown);
    let mut found_link = false;
    let mut found_link_with_title = false;
    let mut found_image = false;
    for node in &doc.nodes {
        if let Node::Paragraph { children } = node {
            for inline in children {
                match inline {
                    InlineNode::Link { url, title, .. } => {
                        if url == "https://example.com" {
                            if title.is_none() {
                                found_link = true;
                            } else if title.as_ref().is_some_and(|t| t == "Example") {
                                found_link_with_title = true;
                            }
                        }
                    }
                    InlineNode::Image { url, alt, title } => {
                        if url == "https://example.com/image.jpg"
                            && alt == "alt text"
                            && title.as_ref().is_some_and(|t| t == "Image title")
                        {
                            found_image = true;
                        }
                    }
                    _ => {}
                }
            }
        }
    }
    assert!(found_link, "Should have a link without title");
    assert!(found_link_with_title, "Should have a link with title");
    assert!(found_image, "Should have an image with alt text and title");
    let md = to_markdown(&doc);
    assert!(md.contains("[a link](https://example.com)"));
    assert!(md.contains("[a link with title](https://example.com \"Example\")"));
    assert!(md.contains("![alt text](https://example.com/image.jpg \"Image title\")"));
}

#[test]
fn test_horizontal_rule() {
    let markdown = "Before rule\n\n---\n\nAfter rule";
    let doc = parse_markdown(markdown);
    assert!(doc.nodes.len() >= 3, "Should have at least 3 nodes");
    let found_hr = doc.nodes.iter().any(|n| matches!(n, Node::ThematicBreak));
    assert!(found_hr, "Should have a horizontal rule");
    let md = to_markdown(&doc);
    assert!(md.contains("---"));
}

#[test]
fn test_code_blocks_with_languages() {
    let markdown = "\n```rust\nfn main() {\n    println!(\"Hello, world!\");\n}\n```\n\n```python\ndef hello():\n    print(\"Hello, world!\")\n```\n\n```\nNo language specified\n```\n";
    let doc = parse_markdown(markdown);
    assert_eq!(doc.nodes.len(), 3, "Should have three code blocks");
    let langs = ["rust", "python", ""];
    let codes = [
        "fn main() {\n    println!(\"Hello, world!\");\n}",
        "def hello():\n    print(\"Hello, world!\")",
        "No language specified",
    ];
    for (i, (expected_lang, expected_code)) in langs.iter().zip(codes.iter()).enumerate() {
        match &doc.nodes[i] {
            Node::CodeBlock { language, code } => {
                assert_eq!(language, expected_lang);
                assert_eq!(code, expected_code);
            }
            _ => panic!("Expected code block for node {}", i),
        }
    }
    let md = to_markdown(&doc);
    assert!(md.contains("```rust"));
    assert!(md.contains("```python"));
    assert!(md.contains("```\nNo language specified"));
}

#[test]
fn test_task_list_parsing() {
    let markdown = "\n- [ ] Unchecked task\n- [x] Checked task\n- [ ] Another unchecked task with **bold** text\n";
    let doc = parse_markdown(markdown);
    assert_eq!(doc.nodes.len(), 1, "Should have one list");
    if let Node::List { list_type, items } = &doc.nodes[0] {
        assert_eq!(*list_type, ListType::Task);
        assert_eq!(items.len(), 3, "Should have three tasks");
        assert_eq!(items[0].checked, Some(false));
        assert_eq!(items[1].checked, Some(true));
        assert_eq!(items[2].checked, Some(false));
        if let Node::Paragraph { children } = &items[2].children[0] {
            let has_bold = children.iter().any(|node| matches!(node, InlineNode::Text(t) if t.formatting.bold));
            assert!(has_bold, "Third task should contain bold text");
        }
    } else {
        panic!("Expected task list");
    }
    let md = to_markdown(&doc);
    assert!(md.contains("- [ ] Unchecked task"));
    assert!(md.contains("- [x] Checked task"));
    assert!(md.contains("- [ ] Another unchecked task with"));
    assert!(md.contains("**bold**"));
}

fn kind(node: &Node) -> &'static str {
    match node {
        Node::Heading { .. } => "heading",
        Node::Paragraph { .. } => "paragraph",
        Node::BlockQuote { .. } => "blockquote",
        Node::List { list_type: ListType::Unordered, .. } => "unordered_list",
        Node::List { list_type: ListType::Ordered, .. } => "ordered_list",
        Node::CodeBlock { .. } => "code_block",
        Node::ThematicBreak => "thematic_break",
        Node::Table { .. } => "table",
        _ => "other",
    }
}

#[test]
fn test_markdown_round_trip() {
    let markdown = "\n# Heading 1\n\n## Heading 2\n\nThis is a paragraph with **bold** and *italic* text.\n\n> This is a blockquote\n> With multiple lines\n\n* List item 1\n* List item 2\n  * Nested item\n* List item 3\n\n1. Ordered item 1\n2. Ordered item 2\n\n```rust\nfn main() {\n    println!(\"Hello\");\n}\n```\n\n[Link](https://example.com)\n\n![Image](https://example.com/image.jpg)\n\n---\n\n| Header 1 | Header 2 |\n|:---------|:--------:|\n| Cell 1   | Cell 2   |\n";
    let doc1 = parse_markdown(markdown);
    let md = to_markdown(&doc1);
    let doc2 = parse_markdown(&md);
    assert_eq!(doc1.nodes.len(), doc2.nodes.len(), "Node count should match after round trip");
    for (node1, node2) in doc1.nodes.iter().zip(doc2.nodes.iter()) {
        assert_eq!(kind(node1), kind(node2));
    }
}

#[test]
fn test_from_html_basic() {
    let doc = from_html("<h1>Title</h1><p>Some <b>bold</b> text.</p>");
    assert_eq!(doc.nodes.len(), 2);
    match &doc.nodes[0] {
        Node::Heading { level, children } => {
            assert_eq!(*level, 1);
            assert!(inlines_to_html(children).contains("Title"));
        }
        _ => panic!("Expected heading"),
    }
    match &doc.nodes[1] {
        Node::Paragraph { children } => {
            assert!(inlines_to_html(children).contains("Some <strong>bold</strong> text."));
        }
        _ => panic!("Expected paragraph"),
    }
}

#[test]
fn test_from_html_list() {
    let doc = from_html("<ul><li>Item 1</li><li>Item 2</li></ul><ol><li>Step 1</li></ol>");
    assert_eq!(doc.nodes.len(), 2);
    match &doc.nodes[0] {
        Node::List { list_type, items } => {
            assert_eq!(*list_type, ListType::Unordered);
            assert_eq!(items.len(), 2);
        }
        _ => panic!("Expected unordered list"),
    }
    match &doc.nodes[1] {
        Node::List { list_type, items } => {
            assert_eq!(*list_type, ListType::Ordered);
            assert_eq!(items.len(), 1);
        }
        _ => panic!("Expected ordered list"),
    }
}

#[test]
fn parse_events_closes_open_blocks_and_drops_empty_text() {
    let events = vec![
        MdEvent::StartParagraph,
        MdEvent::Text(String::new()),
        MdEvent::StartStrong,
        MdEvent::Text("x".to_string()),
        MdEvent::EndStrong,
        MdEvent::SoftBreak,
    ];
    let doc = parse_events(&events);
    assert_eq!(doc.nodes.len(), 1);
    match &doc.nodes[0] {
        Node::Paragraph { children } => {
            assert_eq!(children.len(), 2);
            match (&children[0], &children[1]) {
                (InlineNode::Text(a), InlineNode::Text(b)) => {
                    assert_eq!(a.text, "x");
                    assert!(a.formatting.bold);
                    assert_eq!(b.text, " ");
                    assert!(!b.formatting.bold);
                }
                _ => panic!("Expected text runs"),
            }
        }
        _ => panic!("Expected paragraph"),
    }
}

#[test]
fn parse_events_builds_table() {
    let md = "| A | B |\n|:--|--:|\n| 1 | 2 |\n";
    let doc = parse_markdown(md);
    assert_eq!(doc.nodes.len(), 1);
    match &doc.nodes[0] {
        Node::Table { header, rows, alignments, .. } => {
            // The header cells come inside the head block, whose cells are
            // not kept; the body rows are.
            assert_eq!(header.len(), 0);
            assert_eq!(rows.len(), 1);
            assert_eq!(rows[0].len(), 2);
            assert_eq!(alignments, &vec![TableAlignment::Left, TableAlignment::Right]);
        }
        _ => panic!("Expected table"),
    }
}

#[test]
fn html_to_markdown_collapses_blank_lines() {
    let md = html_to_markdown("<p>a</p><p>b</p>");
    assert!(!md.contains("\n\n\n"));
    assert!(md.contains('a') && md.contains('b'));
}

#[test]
fn test_from_html_table() {
    let html = r#"<table>
            <thead>
              <tr><th>Name</th><th>Age</th></tr>
            </thead>
            <tbody>
              <tr><td>Alice</td><td>25</td></tr>
              <tr><td>Bob</td><td>30</td></tr>
            </tbody>
          </table>"#;
    let doc = from_html(html);
    assert!(!doc.nodes.is_empty(), "Document should have at least one node");
    let mut found_table = false;
    for node in &doc.nodes {
        if let Node::Table { rows, .. } = node {
            found_table = true;
            assert!(!rows.is_empty(), "Table should have rows");
            break;
        }
    }
    assert!(found_table, "Should have found a table node");
}

#[test]
fn test_html_roundtrip() {
    let mut doc = Document::new();
    doc.add_heading(1, "Roundtrip Test");
    doc.add_paragraph_with_text("This is a paragraph with **bold** and *italic* text.");
    doc.add_unordered_list(vec!["Item 1", "Item 2"]);
    doc.add_code_block("console.log('test');", "javascript");
    let html = to_html(&doc);
    let doc2 = from_html(&html);
    let html2 = to_html(&doc2);
    assert_eq!(doc.nodes.len(), doc2.nodes.len(), "Node count should be preserved in roundtrip");
    assert!(html2.contains("Roundtrip Test"));
    assert!(html2.contains("<li>"));
    assert!(html2.contains("javascript"));
}

#[test]
fn test_from_html_blockquote() {
    let html = "<blockquote><p>This is a quote.</p><p>With multiple paragraphs.</p></blockquote>";
    let doc = from_html(html);
    assert!(!doc.nodes.is_empty(), "Document should have at least one node");
    let mut found_blockquote = false;
    for node in &doc.nodes {
        if let Node::BlockQuote { children } = node {
            found_blockquote = true;
            assert!(!children.is_empty(), "Blockquote should have children");
            break;
        }
    }
    assert!(found_blockquote, "Should have found a blockquote node");
}

#[test]
fn from_html_reads_code_block_language() {
    let html = "<pre><code class=\"language-python\">print(\"Hello\")</code></pre>";
    let doc = from_html(html);
    assert_eq!(doc.nodes.len(), 1);
    match &doc.nodes[0] {
        Node::CodeBlock { language, code } => {
            assert_eq!(language, "python");
            assert!(code.contains("print(\"Hello\")"));
        }
        _ => panic!("Expected code block"),
    }
}

#[test]
fn test_all_heading_levels() {
    let mut doc = Document::new();
    for level in 1..=6u8 {
        let heading_text = format!("Heading Level {}", level);
        doc.add_heading(level, &heading_text);
    }
    assert_eq!(doc.nodes.len(), 6);
    for i in 0..6 {
        let level = i + 1;
        match &doc.nodes[i] {
            Node::Heading { level: node_level, children } => {
                assert_eq!(*node_level, level as u8);
                match &children[0] {
                    InlineNode::Text(TextNode { text, .. }) => {
                        assert_eq!(text, &format!("Heading Level {}", level));
                    }
                    _ => panic!("Expected text node in heading"),
                }
            }
            _ => panic!("Expected heading node"),
        }
    }
    let markdown = to_markdown(&doc);
    for level in 1..=6 {
        let heading_marker = "#".repeat(level);
        assert!(markdown.contains(&format!("{} Heading Level {}", heading_marker, level)));
    }
    let html = to_html(&doc);
    for level in 1..=6 {
        assert!(html.contains(&format!("<h{}>Heading Level {}</h{}>", level, level, level)));
    }
}

#[test]
fn test_text_formatting() {
    let mut doc = Document::new();
    let mut para = Node::paragraph("hello");
    if let Node::Paragraph { children } = &mut para {
        children.push(InlineNode::bold_text("Bold text"));
        children.push(InlineNode::text(" and "));
        children.push(InlineNode::italic_text("italic text"));
        children.push(InlineNode::text(" and "));
        let mut text = TextNode { text: "bold italic text".to_string(), formatting: TextFormatting::default() };
        text.formatting.bold = true;
        text.formatting.italic = true;
        children.push(InlineNode::Text(text));
        children.push(InlineNode::text(" and "));
        let mut strikethrough = TextNode { text: "strikethrough text".to_string(), formatting: TextFormatting::default() };
        strikethrough.formatting.strikethrough = true;
        children.push(InlineNode::Text(strikethrough));
        children.push(InlineNode::text(" and "));
        let mut code_text = TextNode { text: "code text".to_string(), formatting: TextFormatting::default() };
        code_text.formatting.code = true;
        children.push(InlineNode::Text(code_text));
        children.push(InlineNode::text(" and "));
        children.push(InlineNode::CodeSpan { code: "inline code".to_string() });
    }
    doc.nodes.push(para);
    assert_eq!(doc.nodes.len(), 1);
    match &doc.nodes[0] {
        Node::Paragraph { children } => {
            assert_eq!(children.len(), 12);
            assert_eq!(children[0].as_text(), Some("hello"));
            match &children[1] {
                InlineNode::Text(TextNode { text, formatting }) => {
                    assert_eq!(text, "Bold text");
                    assert!(formatting.bold);
                    assert!(!formatting.italic);
                }
                _ => panic!("Expected bold text node"),
            }
            match &children[3] {
                InlineNode::Text(TextNode { text, formatting }) => {
                    assert_eq!(text, "italic text");
                    assert!(!formatting.bold);
                    assert!(formatting.italic);
                }
                _ => panic!("Expected italic text node"),
            }
            match &children[5] {
                InlineNode::Text(TextNode { text, formatting }) => {
                    assert_eq!(text, "bold italic text");
                    assert!(formatting.bold);
                    assert!(formatting.italic);
                }
                _ => panic!("Expected bold italic text node"),
            }
            match &children[7] {
                InlineNode::Text(TextNode { text, formatting }) => {
                    assert_eq!(text, "strikethrough text");
                    assert!(formatting.strikethrough);
                }
                _ => panic!("Expected strikethrough text node"),
            }
            match &children[9] {
                InlineNode::Text(TextNode { text, formatting }) => {
                    assert_eq!(text, "code text");
                    assert!(formatting.code);
                }
                _ => panic!("Expected code text node"),
            }
            match &children[11] {
                InlineNode::CodeSpan { code } => assert_eq!(code, "inline code"),
                _ => panic!("Expected code span node"),
            }
        }
        _ => panic!("Expected paragraph node"),
    }
    let markdown = to_markdown(&doc);
    assert!(markdown.contains("**Bold text**"));
    assert!(markdown.contains("*italic text*"));
    assert!(
        markdown.contains("**_bold italic text_**")
            || markdown.contains("_**bold italic text**_")
            || markdown.contains("***bold italic text***")
    );
    assert!(markdown.contains("~~strikethrough text~~"));
    assert!(markdown.contains("`code text`"));
    assert!(markdown.contains("`inline code`"));
    let html = to_html(&doc);
    assert!(html.contains("<strong>Bold text</strong>"));
    assert!(html.contains("<em>italic text</em>"));
    assert!(
        html.contains("<strong><em>bold italic text</em></strong>")
            || html.contains("<em><strong>bold italic text</strong></em>")
    );
    assert!(html.contains("<del>strikethrough text</del>"));
    assert!(html.contains("<code>code text</code>"));
    assert!(html.contains("<code>inline code</code>"));
}

#[test]
fn test_list_types_and_nesting() {
    let text = r#"
- Item 1
    1. Subitem 1
    2. Subitem 2
- Item 2
- Item 3
    1. Subitem 3
    2. Subitem 4
"#;
    let doc = parse_markdown(text);
    assert_eq!(doc.nodes.len(), 1);
    let (list_type, items) = doc.nodes[0].as_list().unwrap();
    assert_eq!(*list_type, ListType::Unordered);
    assert_eq!(items.len(), 3);
    let item1 = items[0].clone();
    assert_eq!(item1.as_text(), Some("Item 1"));
    let item2 = items[1].clone();
    assert_eq!(item2.as_text(), Some("Item 2"));
    let item3 = items[2].clone();
    assert_eq!(item3.as_text(), Some("Item 3"));
    let item1_children = &item1.children;
    assert_eq!(item1_children.len(), 2);
    if let Node::List { list_type, items } = &item1_children[1] {
        assert_eq!(*list_type, ListType::Ordered);
        assert_eq!(items.len(), 2);
        assert_eq!(items[0].as_text(), Some("Subitem 1"));
        assert_eq!(items[1].as_text(), Some("Subitem 2"));
    } else {
        panic!("Expected nested list in item 1");
    }
    let item3_children = &item3.children;
    assert_eq!(item3_children.len(), 2);
    if let Node::List { list_type, items } = &item3_children[1] {
        assert_eq!(*list_type, ListType::Ordered);
        assert_eq!(items.len(), 2);
        assert_eq!(items[0].as_text(), Some("Subitem 3"));
        assert_eq!(items[1].as_text(), Some("Subitem 4"));
    } else {
        panic!("Expected nested list in item 3");
    }
    let doc2 = parse_markdown(&to_markdown(&doc));
    assert_eq!(doc, doc2);
    let doc3 = from_html(&to_html(&doc));
    assert_eq!(doc, doc3);
}

#[test]
fn builder_from_markdown_continues_the_parsed_document() {
    let doc = DocumentBuilder::from_markdown("# Title\n\nSome text").expect("parses").paragraph("More").build();
    assert_eq!(doc.nodes.len(), 3);
    assert_eq!(doc.nodes[2], Node::paragraph("More"));
    match &doc.nodes[0] {
        Node::Heading { level, .. } => assert_eq!(*level, 1),
        _ => panic!("Expected heading"),
    }
}


#[test]
fn blank_line_runs_collapse_to_one_blank_line() {
    assert_eq!(md_core::convert::from_html::collapse_blank_runs("a\n\n\n\nb\nc\n\nd"), "a\n\nb\nc\n\nd");
}

#[test]
fn parse_markdown_reads_tables_and_task_lists() {
    let doc = parse_markdown("| a | b |\n|:--|--:|\n| 1 | 2 |\n\n- [x] done\n- [ ] todo");
    assert_eq!(doc.nodes.len(), 2);
    match &doc.nodes[1] {
        Node::List { list_type, items } => {
            assert_eq!(*list_type, ListType::Task);
            assert_eq!(items[0].checked, Some(true));
            assert_eq!(items[1].checked, Some(false));
        }
        _ => panic!("Expected task list"),
    }
}
