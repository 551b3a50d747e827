//! A fluent builder for documents.
use vstd::prelude::*;
use crate::inline::{plain_text_v};
use crate::node::{ListType, Node, NodeV, TableAlignment, para_v, text_item_v, task_item_v, clamp_level, cells_from_strs_v, rows_from_strs_v, default_props_v};
use crate::document::{Document, DocumentMetadata, DocumentV, MetadataV, empty_metadata_v};
use crate::error::ParseError;
use crate::convert::parser::{parse_markdown, parse_result, markdown_events_of, ALL_OPTIONS};

verus! {

/// A builder for creating documents with a fluent API
pub struct DocumentBuilder {
    /// The document being built
    document: Document,
}

impl View for DocumentBuilder {
    type V = DocumentV;

    closed spec fn view(&self) -> DocumentV {
        self.document@
    }
}

/// The document model with `n` appended.
pub open spec fn with_node(d: DocumentV, n: NodeV) -> DocumentV {
    DocumentV { nodes: d.nodes.push(n), ..d }
}

/// Metadata with one field set: on the existing metadata, or on empty
/// metadata when there is none.
pub open spec fn meta_or_empty(m: Option<MetadataV>) -> MetadataV {
    match m {
        Some(x) => x,
        None => empty_metadata_v(),
    }
}

impl DocumentBuilder {
    /// The nodes built so far.
    pub closed spec fn nodes(&self) -> Seq<Node> {
        self.document.nodes@
    }

    /// Creates a new document builder
    pub fn new() -> (r: Self)
        ensures r@ == (DocumentV { nodes: Seq::empty(), selection: None, metadata: None }),
    {
        DocumentBuilder { document: Document::new() }
    }

    /// Creates a builder that continues the given document.
    pub fn from_document(document: Document) -> (r: Self)
        ensures r@ == document@,
    {
        DocumentBuilder { document }
    }

    /// Creates a builder that continues the document that the Markdown
    /// text describes (see `parse_markdown`). It always succeeds.
    pub fn from_markdown(markdown: &str) -> (r: Result<Self, ParseError>)
        ensures r is Ok && r->Ok_0@ == parse_result(markdown_events_of(markdown@, ALL_OPTIONS)),
    {
        match parse_markdown(markdown) {
            Ok(document) => Ok(DocumentBuilder { document }),
            Err(e) => Err(e),
        }
    }

    fn push(self, n: Node) -> (r: Self)
        ensures r@ == with_node(self@, n@), r.nodes() == self.nodes().push(n),
    {
        let mut b = self;
        b.document.push_node_pub(n);
        b
    }

    /// Adds a level-one heading with the title, and sets the metadata to
    /// the title alone (no author, date or custom fields).
    pub fn title(self, title: &str) -> (r: Self)
        ensures r@ == (DocumentV {
            nodes: self@.nodes.push(NodeV::Heading { level: 1, children: seq![plain_text_v(title@)] }),
            metadata: Some(MetadataV { title: Some(title@), ..empty_metadata_v() }),
            ..self@
        }),
    {
        let mut b = self.push(Node::heading(1, title));
        let mut m = DocumentMetadata::default();
        m.title = Some(title.to_owned());
        b.document.metadata = Some(m);
        b
    }

    /// Sets the author metadata
    pub fn author(self, author: &str) -> (r: Self)
        ensures r@ == (DocumentV {
            metadata: Some(MetadataV { author: Some(author@), ..meta_or_empty(self@.metadata) }),
            ..self@
        }),
    {
        let mut b = self;
        let mut m = match b.document.metadata.take() {
            Some(m) => m,
            None => DocumentMetadata::default(),
        };
        m.author = Some(author.to_owned());
        b.document.metadata = Some(m);
        b
    }

    /// Sets the date metadata
    pub fn date(self, date: &str) -> (r: Self)
        ensures r@ == (DocumentV {
            metadata: Some(MetadataV { date: Some(date@), ..meta_or_empty(self@.metadata) }),
            ..self@
        }),
    {
        let mut b = self;
        let mut m = match b.document.metadata.take() {
            Some(m) => m,
            None => DocumentMetadata::default(),
        };
        m.date = Some(date.to_owned());
        b.document.metadata = Some(m);
        b
    }

    /// Adds a custom key-value pair to the metadata
    pub fn metadata(self, key: &str, value: &str) -> (r: Self)
        ensures r@ == (DocumentV {
            metadata: Some(MetadataV {
                custom: meta_or_empty(self@.metadata).custom.push((key@, value@)),
                ..meta_or_empty(self@.metadata)
            }),
            ..self@
        }),
    {
        let mut b = self;
        let mut m = match b.document.metadata.take() {
            Some(m) => m,
            None => DocumentMetadata::default(),
        };
        let ghost c0 = m.custom@;
        m.custom.push((key.to_owned(), value.to_owned()));
        proof {
            assert(m.custom@.map_values(|kv: (String, String)| (kv.0@, kv.1@))
                =~= c0.map_values(|kv: (String, String)| (kv.0@, kv.1@)).push((key@, value@)));
        }
        b.document.metadata = Some(m);
        b
    }

    /// Adds a heading
    pub fn heading(self, level: u8, text: &str) -> (r: Self)
        ensures r@ == with_node(self@, NodeV::Heading { level: clamp_level(level), children: seq![plain_text_v(text@)] }),
    {
        self.push(Node::heading(level, text))
    }

    /// Adds an empty paragraph
    pub fn empty_paragraph(self) -> (r: Self)
        ensures r@ == with_node(self@, NodeV::Paragraph { children: Seq::empty() }),
    {
        let p = Node::Paragraph { children: Vec::new() };
        proof { assert(crate::inline::inlines_seq_v(Seq::<crate::inline::InlineNode>::empty()) =~= Seq::empty()); }
        self.push(p)
    }

    /// Adds a paragraph with text
    pub fn paragraph(self, text: &str) -> (r: Self)
        ensures r@ == with_node(self@, para_v(text@)),
    {
        self.push(Node::paragraph(text))
    }

    /// Adds a code block
    pub fn code_block(self, code: &str, language: &str) -> (r: Self)
        ensures r@ == with_node(self@, NodeV::CodeBlock { language: language@, code: code@ }),
    {
        self.push(Node::code_block(code, language))
    }

    /// Adds a blockquote
    pub fn blockquote(self, text: &str) -> (r: Self)
        ensures r@ == with_node(self@, NodeV::BlockQuote { children: seq![para_v(text@)] }),
    {
        self.push(Node::blockquote(text))
    }

    /// Adds an unordered list
    pub fn unordered_list(self, items: Vec<&str>) -> (r: Self)
        ensures r@ == with_node(self@, NodeV::List {
            list_type: ListType::Unordered,
            items: items@.map_values(|t: &str| text_item_v(t@)),
        }),
    {
        self.push(Node::unordered_list(items))
    }

    /// Adds an ordered list
    pub fn ordered_list(self, items: Vec<&str>) -> (r: Self)
        ensures r@ == with_node(self@, NodeV::List {
            list_type: ListType::Ordered,
            items: items@.map_values(|t: &str| text_item_v(t@)),
        }),
    {
        self.push(Node::ordered_list(items))
    }

    /// Adds a task list
    pub fn task_list(self, items: Vec<(&str, bool)>) -> (r: Self)
        ensures r@ == with_node(self@, NodeV::List {
            list_type: ListType::Task,
            items: items@.map_values(|t: (&str, bool)| task_item_v(t.0@, t.1)),
        }),
    {
        self.push(Node::task_list(items))
    }

    /// Adds a horizontal rule
    pub fn horizontal_rule(self) -> (r: Self)
        ensures r@ == with_node(self@, NodeV::ThematicBreak),
    {
        self.push(Node::horizontal_rule())
    }

    /// Adds a simple table
    pub fn table(self, headers: Vec<&str>, rows: Vec<Vec<&str>>) -> (r: Self)
        ensures r@ == with_node(self@, NodeV::Table {
            header: cells_from_strs_v(headers@, false),
            rows: rows_from_strs_v(rows@),
            alignments: Seq::new(headers@.len(), |i: int| TableAlignment::Unaligned),
            properties: default_props_v(),
        }),
    {
        self.push(Node::simple_table(headers, rows))
    }

    /// Adds a table with column alignments
    pub fn table_with_alignments(self, headers: Vec<&str>, rows: Vec<Vec<&str>>, alignments: Vec<TableAlignment>) -> (r: Self)
        ensures r@ == with_node(self@, NodeV::Table {
            header: cells_from_strs_v(headers@, false),
            rows: rows_from_strs_v(rows@),
            alignments: alignments@,
            properties: default_props_v(),
        }),
    {
        self.push(Node::table_with_alignments(headers, rows, alignments))
    }

    /// Adds a math block
    pub fn math_block(self, math: &str) -> (r: Self)
        ensures r@ == with_node(self@, NodeV::MathBlock { math: math@ }),
    {
        self.push(Node::math_block(math))
    }

    /// Adds a footnote reference
    pub fn footnote_reference(self, label: &str) -> (r: Self)
        ensures r@ == with_node(self@, NodeV::FootnoteReference { label: label@, identifier: None }),
    {
        self.push(Node::footnote_reference(label))
    }

    /// Adds a footnote definition
    pub fn footnote_definition(self, label: &str, text: &str) -> (r: Self)
        ensures r@ == with_node(self@, NodeV::FootnoteDefinition { label: label@, content: seq![para_v(text@)] }),
    {
        self.push(Node::footnote_definition(label, text))
    }

    /// Adds a group whose children are the nodes that `builder` adds to a
    /// fresh builder
    pub fn group<F: FnOnce(DocumentBuilder) -> DocumentBuilder>(self, name: &str, builder: F) -> (r: Self)
        requires
            forall|b: DocumentBuilder| b@.nodes.len() == 0 ==> call_requires(builder, (b,)),
        ensures
            exists|b: DocumentBuilder, out: DocumentBuilder| {
                &&& b@ == (DocumentV { nodes: Seq::empty(), selection: None, metadata: None })
                &&& call_ensures(builder, (b,), out)
                &&& r@ == with_node(self@, NodeV::Group { name: name@, children: out@.nodes })
            },
    {
        let fresh = DocumentBuilder::new();
        let out = builder(fresh);
        let children = out.document.nodes;
        let g = Node::group(name, children);
        self.push(g)
    }

    /// Builds the document
    pub fn build(self) -> (r: Document)
        ensures r@ == self@,
    {
        self.document
    }
}

impl Default for DocumentBuilder {
    fn default() -> (r: Self)
        ensures r@ == (DocumentV { nodes: Seq::empty(), selection: None, metadata: None }),
    {
        Self::new()
    }
}

} // verus!
