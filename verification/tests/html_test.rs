use md_core::convert::html::{inline_node_to_html, node_to_html, to_html};
use md_core::{
    Document, FootnoteDefinition, FootnoteReference, InlineNode, Node, TableAlignment, TableCell, TableProperties,
    TextFormatting, TextNode,
};

fn create_test_document() -> Document {
    let mut doc = Document::new();
    doc.add_heading(1, "Test Document");
    doc.add_paragraph_with_text("Simple paragraph.");
    doc.add_code_block("println!(\"Hello\");", "rust");
    doc.add_unordered_list(vec!["Item 1", "Item 2"]);
    doc.add_task_list(vec![("Task A", true), ("Task B", false)]);
    doc
}

fn create_math_test_document() -> Document {
    let mut doc = Document::new();
    doc.nodes.push(Node::paragraph_with_inlines(vec![
        InlineNode::Text(TextNode { text: "Inline math: ".to_string(), formatting: TextFormatting::default() }),
        InlineNode::Math { math: "a^2 + b^2 = c^2".to_string() },
        InlineNode::Text(TextNode { text: ".".to_string(), formatting: TextFormatting::default() }),
    ]));
    doc.nodes.push(Node::MathBlock { math: "E = mc^2".to_string() });
    doc
}

#[test]
fn test_html_serialization_basic() {
    let doc = create_test_document();
    let html = to_html(&doc);

    assert!(html.contains("<h1>Test Document</h1>"));
    assert!(html.contains("<p>Simple paragraph.</p>"));
    assert!(html.contains("<pre><code class=\"language-rust\" data-copy-button=\"true\">"));
    assert!(html.contains("println!(&quot;Hello&quot;);"));

    assert!(html.contains("<ul>"));
    assert!(html.contains("<li><p>Item 1</p></li>"));
    assert!(html.contains("<li><p>Item 2</p></li>"));
    assert!(html.contains("</ul>"));

    assert!(html.contains("<ul class=\"task-list\">"));
    assert!(html.contains("<li><p><input type=\"checkbox\"  checked> Task A</p></li>"));
    assert!(html.contains("<li><p><input type=\"checkbox\" > Task B</p></li>"));
}

#[test]
fn test_html_serialization_math() {
    let doc = create_math_test_document();
    let html = to_html(&doc);

    assert!(html.contains("<span class=\"math-inline\">$a^2 + b^2 = c^2$</span>"));
    assert!(html.contains("<div class=\"math-block\">$E = mc^2$</div>"));
}

#[test]
fn test_html_serialization_links_and_images() {
    let mut doc = Document::new();
    let link_para = Node::paragraph_with_inlines(vec![
        InlineNode::text("Here's a "),
        InlineNode::Link { url: "https://example.com".to_string(), title: None, children: vec![InlineNode::text("link")] },
        InlineNode::text(" and a "),
        InlineNode::Link {
            url: "https://example.org".to_string(),
            title: Some("Example title".to_string()),
            children: vec![InlineNode::text("link with title")],
        },
    ]);
    let image_para = Node::paragraph_with_inlines(vec![
        InlineNode::text("And an image: "),
        InlineNode::Image {
            url: "https://example.com/image.jpg".to_string(),
            alt: "Alt text".to_string(),
            title: Some("Image title".to_string()),
        },
    ]);
    doc.nodes.push(link_para);
    doc.nodes.push(image_para);

    let html = to_html(&doc);

    assert!(html.contains("<a href=\"https://example.com\">link"));
    assert!(html.contains("<a href=\"https://example.org\" title=\"Example title\">link with title"));
    assert!(html.contains("<img src=\"https://example.com/image.jpg\" alt=\"Alt text\" title=\"Image title\">"));
}

#[test]
fn test_html_serialization_table() {
    let mut doc = Document::new();
    let header = vec![TableCell::text("Left"), TableCell::text("Center"), TableCell::text("Right")];
    let rows = vec![
        vec![TableCell::text("Data 1"), TableCell::text("Data 2"), TableCell::text("Data 3")],
        vec![
            TableCell::text("More data"),
            TableCell::text("More stuff"),
            TableCell::with_colspan(vec![InlineNode::text("Spans two columns")], 2),
        ],
    ];
    let alignments = vec![TableAlignment::Left, TableAlignment::Center, TableAlignment::Right];
    doc.nodes.push(Node::Table { header, rows, alignments, properties: TableProperties::default() });

    let html = to_html(&doc);

    assert!(html.contains("<table class=\"bordered\">"));
    assert!(html.contains("<thead>"));
    assert!(html.contains("<tbody>"));
    assert!(html.contains("class=\"align-left\""));
    assert!(html.contains("class=\"align-center\""));
    assert!(html.contains("class=\"align-right\""));
    assert!(html.contains("colspan=\"2\""));
}

#[test]
fn test_html_serialization_footnotes() {
    let mut doc = Document::new();
    doc.nodes.push(Node::paragraph_with_inlines(vec![
        InlineNode::text("Here is text with a footnote"),
        InlineNode::FootnoteRef { label: "1".to_string() },
        InlineNode::text("."),
    ]));
    doc.nodes.push(Node::FootnoteDefinition(FootnoteDefinition {
        label: "1".to_string(),
        content: vec![Node::paragraph("This is a footnote.")],
    }));

    let html = to_html(&doc);

    assert!(html.contains("<sup class=\"footnote-ref\"><a href=\"#fn-1\" id=\"fnref-1\">1</a></sup>"));
    assert!(html.contains("<div class=\"footnote\" id=\"fn-1\">"));
    assert!(html.contains("<p>1: <p>This is a footnote.</p></p>"));
}

#[test]
fn test_html_serialization_blockquote() {
    let mut doc = Document::new();
    doc.nodes.push(Node::BlockQuote {
        children: vec![
            Node::paragraph("First blockquote paragraph."),
            Node::paragraph("Second blockquote paragraph with **bold** text."),
        ],
    });

    let html = to_html(&doc);

    assert!(html.contains("<blockquote>"));
    assert!(html.contains("<p>First blockquote paragraph.</p>"));
    assert!(html.contains("<p>Second blockquote paragraph with **bold** text.</p>"));
    assert!(html.contains("</blockquote>"));
}

#[test]
fn test_html_serialization() {
    let mut doc = Document::new();
    doc.add_heading(1, "Test Document");
    doc.add_paragraph_with_text("This is a paragraph");

    let html = to_html(&doc);

    assert!(html.contains("<h1>Test Document</h1>"));
    assert!(html.contains("<p>This is a paragraph</p>"));
}

#[test]
fn html_of_inline_forms_is_exact() {
    let f = TextFormatting { bold: true, italic: true, strikethrough: true, code: true };
    assert_eq!(
        inline_node_to_html(&InlineNode::Text(TextNode { text: "a<b".to_string(), formatting: f })),
        "<code><del><em><strong>a&lt;b</strong></em></del></code>"
    );
    assert_eq!(inline_node_to_html(&InlineNode::autolink_email("me@x.org")), "<a href=\"mailto:me@x.org\">me@x.org</a>");
    assert_eq!(
        inline_node_to_html(&InlineNode::AutoLink { url: "mailto:me@x.org".to_string(), is_email: true }),
        "<a href=\"mailto:me@x.org\">mailto:me@x.org</a>"
    );
    assert_eq!(inline_node_to_html(&InlineNode::user_mention("bob")), "<span class=\"mention mention-user\">@bob</span>");
    assert_eq!(
        inline_node_to_html(&InlineNode::Mention { name: "x".to_string(), mention_type: "team".to_string() }),
        "<span class=\"mention mention-team\">x</span>"
    );
    assert_eq!(inline_node_to_html(&InlineNode::SoftBreak), "<br/>\n");
    assert_eq!(inline_node_to_html(&InlineNode::emoji("ok")), "<span class=\"emoji emoji-ok\">ok</span>");
}

#[test]
fn html_of_block_forms_is_exact() {
    assert_eq!(node_to_html(&Node::heading(2, "T")), "<h2>T</h2>");
    assert_eq!(node_to_html(&Node::horizontal_rule()), "<hr>");
    assert_eq!(node_to_html(&Node::ordered_list(vec!["a"])), "<ol><li><p>a</p></li></ol>");
    assert_eq!(
        node_to_html(&Node::code_block("x<y", "")),
        "<pre><code data-copy-button=\"true\">x&lt;y</code></pre>"
    );
    assert_eq!(
        node_to_html(&Node::Group { name: "g&h".to_string(), children: vec![Node::paragraph("p")] }),
        "<div class=\"group\" data-name=\"g&amp;h\"><p>p</p></div>"
    );
    let r = Node::FootnoteReference(FootnoteReference::with_identifier("1", "id"));
    assert_eq!(node_to_html(&r), "<sup class=\"footnote-ref\"><a href=\"#fn-id\" id=\"fnref-id\">1</a></sup>");
    let props = TableProperties::new().with_striped_rows(true).with_caption("Cap", true);
    let t = Node::Table {
        header: vec![TableCell::text("h")],
        rows: vec![vec![TableCell::text("c").with_background_color("red").with_style("x: y")]],
        alignments: vec![],
        properties: props,
    };
    assert_eq!(
        node_to_html(&t),
        "<table class=\"bordered striped\">\n<thead>\n<tr><th>h</th></tr>\n</thead>\n<tbody>\n<tr><td style=\"background-color: red\"; x: y>c</td></tr>\n</tbody>\n<caption>Cap</caption>\n</table>"
    );
    assert_eq!(to_html(&Document::new()), "");
}

#[test]
fn link_element_is_closed() {
    let link = InlineNode::link_with_title("https://example.org", "Example title", "link with title");
    assert_eq!(
        inline_node_to_html(&link),
        "<a href=\"https://example.org\" title=\"Example title\">link with title</a>"
    );
}
