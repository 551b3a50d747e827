use vstd::prelude::*;
use crate::inline::{InlineNode, InlineV, inlines_seq_v, opt_str_v, copy_inlines, copy_opt_string, plain_text_v, single_inline, plain, lemma_inlines_seq_v_index};

verus! {

/// Alignment options for table columns
#[derive(Debug, Clone, Copy, PartialEq, Eq, Structural)]
pub enum TableAlignment {
    /// Left-aligned column
    Left,
    /// Center-aligned column
    Center,
    /// Right-aligned column
    Right,
    /// Default alignment
    Unaligned,
    /// Text justify alignment
    Justify,
    /// Top vertical alignment
    Top,
    /// Middle vertical alignment
    Middle,
    /// Bottom vertical alignment
    Bottom,
}

impl Default for TableAlignment {
    fn default() -> (r: Self)
        ensures r == TableAlignment::Unaligned,
    {
        TableAlignment::Unaligned
    }
}

/// Type of list: ordered, unordered, or task
#[derive(Debug, Clone, Copy, PartialEq, Eq, Structural)]
pub enum ListType {
    /// Ordered list (1. 2. 3. etc.)
    Ordered,
    /// Unordered list (*, -, + etc.)
    Unordered,
    /// Task list (- [ ], - [x] etc.)
    Task,
}

/// Properties for table styling and behavior
#[derive(Debug, PartialEq, Eq)]
pub struct TableProperties {
    /// Whether the table has a header
    pub has_header: bool,
    /// Whether to render the table with borders
    pub has_borders: bool,
    /// Whether rows should have alternating background colors
    pub striped_rows: bool,
    /// Whether table cells should be highlighted on hover
    pub hoverable: bool,
    /// Custom CSS class for the table
    pub css_class: Option<String>,
    /// Custom CSS style for the table
    pub style: Option<String>,
    /// Caption for the table
    pub caption: Option<String>,
    /// Whether the caption should be displayed at the bottom
    pub caption_at_bottom: bool,
}

/// Represents a list item with children nodes
#[derive(Debug, PartialEq, Eq)]
pub struct ListItem {
    /// Child nodes of this list item
    pub children: Vec<Node>,
    /// Whether this item is checked (for task lists)
    pub checked: Option<bool>,
}

/// Represents a table cell
#[derive(Debug, PartialEq, Eq)]
pub struct TableCell {
    /// Content of the cell
    pub content: Vec<InlineNode>,
    /// Number of columns this cell spans
    pub colspan: u32,
    /// Number of rows this cell spans
    pub rowspan: u32,
    /// Background color in hex format (e.g., "#f5f5f5")
    pub background_color: Option<String>,
    /// Custom CSS class names
    pub css_class: Option<String>,
    /// Custom styles as CSS properties
    pub style: Option<String>,
    /// Whether this is a header cell (th vs td)
    pub is_header: bool,
}

/// A footnote reference in the document
#[derive(Debug, PartialEq, Eq)]
pub struct FootnoteReference {
    /// The label of the footnote
    pub label: String,
    /// Optional identifier for the footnote
    pub identifier: Option<String>,
}

/// A footnote definition in the document
#[derive(Debug, PartialEq, Eq)]
pub struct FootnoteDefinition {
    /// The label of the footnote
    pub label: String,
    /// The content of the footnote
    pub content: Vec<Node>,
}

/// Definition term and descriptions
#[derive(Debug, PartialEq, Eq)]
pub struct DefinitionItem {
    /// The term being defined
    pub term: Vec<InlineNode>,
    /// The descriptions/definitions of the term
    pub descriptions: Vec<Vec<Node>>,
}

/// Represents a block-level node in the document
#[derive(Debug, PartialEq, Eq)]
pub enum Node {
    /// A heading (h1-h6)
    Heading { level: u8, children: Vec<InlineNode> },
    /// A paragraph
    Paragraph { children: Vec<InlineNode> },
    /// A list (ordered, unordered, or tasks)
    List { list_type: ListType, items: Vec<ListItem> },
    /// A code block
    CodeBlock { language: String, code: String },
    /// A block quote
    BlockQuote { children: Vec<Node> },
    /// A horizontal rule (thematic break)
    ThematicBreak,
    /// A table
    Table {
        header: Vec<TableCell>,
        rows: Vec<Vec<TableCell>>,
        alignments: Vec<TableAlignment>,
        properties: TableProperties,
    },
    /// A group of nodes treated as a single unit
    Group { name: String, children: Vec<Node> },
    /// A footnote reference
    FootnoteReference(FootnoteReference),
    /// A footnote definition
    FootnoteDefinition(FootnoteDefinition),
    /// A definition list
    DefinitionList { items: Vec<DefinitionItem> },
    /// A mathematical expression
    MathBlock { math: String },
    /// Temporary list item used while parsing
    TempListItem(ListItem),
    /// Temporary table cell used while parsing
    TempTableCell(TableCell),
}

// ---------------------------------------------------------------------------
// Models
// ---------------------------------------------------------------------------

pub struct TablePropertiesV {
    pub has_header: bool,
    pub has_borders: bool,
    pub striped_rows: bool,
    pub hoverable: bool,
    pub css_class: Option<Seq<char>>,
    pub style: Option<Seq<char>>,
    pub caption: Option<Seq<char>>,
    pub caption_at_bottom: bool,
}

pub struct TableCellV {
    pub content: Seq<InlineV>,
    pub colspan: u32,
    pub rowspan: u32,
    pub background_color: Option<Seq<char>>,
    pub css_class: Option<Seq<char>>,
    pub style: Option<Seq<char>>,
    pub is_header: bool,
}

pub struct ListItemV {
    pub children: Seq<NodeV>,
    pub checked: Option<bool>,
}

pub struct DefinitionItemV {
    pub term: Seq<InlineV>,
    pub descriptions: Seq<Seq<NodeV>>,
}

/// Mathematical model of a block node.
pub enum NodeV {
    Heading { level: u8, children: Seq<InlineV> },
    Paragraph { children: Seq<InlineV> },
    List { list_type: ListType, items: Seq<ListItemV> },
    CodeBlock { language: Seq<char>, code: Seq<char> },
    BlockQuote { children: Seq<NodeV> },
    ThematicBreak,
    Table {
        header: Seq<TableCellV>,
        rows: Seq<Seq<TableCellV>>,
        alignments: Seq<TableAlignment>,
        properties: TablePropertiesV,
    },
    Group { name: Seq<char>, children: Seq<NodeV> },
    FootnoteReference { label: Seq<char>, identifier: Option<Seq<char>> },
    FootnoteDefinition { label: Seq<char>, content: Seq<NodeV> },
    DefinitionList { items: Seq<DefinitionItemV> },
    MathBlock { math: Seq<char> },
    TempListItem(ListItemV),
    TempTableCell(TableCellV),
}

pub open spec fn props_v(p: &TableProperties) -> TablePropertiesV {
    TablePropertiesV {
        has_header: p.has_header,
        has_borders: p.has_borders,
        striped_rows: p.striped_rows,
        hoverable: p.hoverable,
        css_class: opt_str_v(p.css_class),
        style: opt_str_v(p.style),
        caption: opt_str_v(p.caption),
        caption_at_bottom: p.caption_at_bottom,
    }
}

impl View for TableProperties {
    type V = TablePropertiesV;

    open spec fn view(&self) -> TablePropertiesV {
        props_v(self)
    }
}

pub open spec fn cell_v(c: &TableCell) -> TableCellV {
    TableCellV {
        content: inlines_seq_v(c.content@),
        colspan: c.colspan,
        rowspan: c.rowspan,
        background_color: opt_str_v(c.background_color),
        css_class: opt_str_v(c.css_class),
        style: opt_str_v(c.style),
        is_header: c.is_header,
    }
}

impl View for TableCell {
    type V = TableCellV;

    open spec fn view(&self) -> TableCellV {
        cell_v(self)
    }
}

pub open spec fn cells_seq_v(s: Seq<TableCell>) -> Seq<TableCellV>
    decreases s, 0int,
{
    if s.len() == 0 {
        Seq::empty()
    } else {
        cells_seq_v(s.drop_last()).push(cell_v(&s.last()))
    }
}

pub proof fn lemma_cells_seq_v_push(s: Seq<TableCell>, x: TableCell)
    ensures cells_seq_v(s.push(x)) == cells_seq_v(s).push(cell_v(&x)),
{
    assert(s.push(x).drop_last() =~= s);
}

pub open spec fn rows_seq_v(s: Seq<Vec<TableCell>>) -> Seq<Seq<TableCellV>>
    decreases s, 0int,
{
    if s.len() == 0 {
        Seq::empty()
    } else {
        rows_seq_v(s.drop_last()).push(cells_seq_v(s.last()@))
    }
}

pub proof fn lemma_rows_seq_v_push(s: Seq<Vec<TableCell>>, x: Vec<TableCell>)
    ensures rows_seq_v(s.push(x)) == rows_seq_v(s).push(cells_seq_v(x@)),
{
    assert(s.push(x).drop_last() =~= s);
}

pub open spec fn nodes_seq_v(s: Seq<Node>) -> Seq<NodeV>
    decreases s, 0int,
{
    if s.len() == 0 {
        Seq::empty()
    } else {
        nodes_seq_v(s.drop_last()).push(node_v(&s.last()))
    }
}

pub proof fn lemma_nodes_seq_v_push(s: Seq<Node>, x: Node)
    ensures nodes_seq_v(s.push(x)) == nodes_seq_v(s).push(node_v(&x)),
{
    assert(s.push(x).drop_last() =~= s);
}

pub open spec fn list_items_seq_v(s: Seq<ListItem>) -> Seq<ListItemV>
    decreases s, 0int,
{
    if s.len() == 0 {
        Seq::empty()
    } else {
        list_items_seq_v(s.drop_last()).push(list_item_v(&s.last()))
    }
}

pub proof fn lemma_list_items_seq_v_push(s: Seq<ListItem>, x: ListItem)
    ensures list_items_seq_v(s.push(x)) == list_items_seq_v(s).push(list_item_v(&x)),
{
    assert(s.push(x).drop_last() =~= s);
}

pub open spec fn def_items_seq_v(s: Seq<DefinitionItem>) -> Seq<DefinitionItemV>
    decreases s, 0int,
{
    if s.len() == 0 {
        Seq::empty()
    } else {
        def_items_seq_v(s.drop_last()).push(def_item_v(&s.last()))
    }
}

pub proof fn lemma_def_items_seq_v_push(s: Seq<DefinitionItem>, x: DefinitionItem)
    ensures def_items_seq_v(s.push(x)) == def_items_seq_v(s).push(def_item_v(&x)),
{
    assert(s.push(x).drop_last() =~= s);
}

pub open spec fn descs_seq_v(s: Seq<Vec<Node>>) -> Seq<Seq<NodeV>>
    decreases s, 0int,
{
    if s.len() == 0 {
        Seq::empty()
    } else {
        descs_seq_v(s.drop_last()).push(nodes_seq_v(s.last()@))
    }
}

pub proof fn lemma_descs_seq_v_push(s: Seq<Vec<Node>>, x: Vec<Node>)
    ensures descs_seq_v(s.push(x)) == descs_seq_v(s).push(nodes_seq_v(x@)),
{
    assert(s.push(x).drop_last() =~= s);
}

pub open spec fn list_item_v(li: &ListItem) -> ListItemV
    decreases li, 1int,
{
    ListItemV { children: nodes_seq_v(li.children@), checked: li.checked }
}

pub open spec fn def_item_v(d: &DefinitionItem) -> DefinitionItemV
    decreases d, 1int,
{
    DefinitionItemV { term: inlines_seq_v(d.term@), descriptions: descs_seq_v(d.descriptions@) }
}

pub open spec fn node_v(n: &Node) -> NodeV
    decreases n, 1int,
{
    match n {
        Node::Heading { level, children } => NodeV::Heading { level: *level, children: inlines_seq_v(children@) },
        Node::Paragraph { children } => NodeV::Paragraph { children: inlines_seq_v(children@) },
        Node::List { list_type, items } => NodeV::List { list_type: *list_type, items: list_items_seq_v(items@) },
        Node::CodeBlock { language, code } => NodeV::CodeBlock { language: language@, code: code@ },
        Node::BlockQuote { children } => NodeV::BlockQuote { children: nodes_seq_v(children@) },
        Node::ThematicBreak => NodeV::ThematicBreak,
        Node::Table { header, rows, alignments, properties } => NodeV::Table {
            header: cells_seq_v(header@),
            rows: rows_seq_v(rows@),
            alignments: alignments@,
            properties: props_v(properties),
        },
        Node::Group { name, children } => NodeV::Group { name: name@, children: nodes_seq_v(children@) },
        Node::FootnoteReference(r) => NodeV::FootnoteReference { label: r.label@, identifier: opt_str_v(r.identifier) },
        Node::FootnoteDefinition(d) => NodeV::FootnoteDefinition { label: d.label@, content: nodes_seq_v(d.content@) },
        Node::DefinitionList { items } => NodeV::DefinitionList { items: def_items_seq_v(items@) },
        Node::MathBlock { math } => NodeV::MathBlock { math: math@ },
        Node::TempListItem(li) => NodeV::TempListItem(list_item_v(li)),
        Node::TempTableCell(c) => NodeV::TempTableCell(cell_v(c)),
    }
}

impl View for Node {
    type V = NodeV;

    open spec fn view(&self) -> NodeV {
        node_v(self)
    }
}

impl View for ListItem {
    type V = ListItemV;

    open spec fn view(&self) -> ListItemV {
        list_item_v(self)
    }
}

impl View for DefinitionItem {
    type V = DefinitionItemV;

    open spec fn view(&self) -> DefinitionItemV {
        def_item_v(self)
    }
}

pub proof fn lemma_cells_seq_v_index(s: Seq<TableCell>)
    ensures
        cells_seq_v(s).len() == s.len(),
        forall|i: int| 0 <= i < s.len() ==> #[trigger] cells_seq_v(s)[i] == cell_v(&s[i]),
    decreases s.len(),
{
    if s.len() > 0 {
        lemma_cells_seq_v_index(s.drop_last());
        assert forall|i: int| 0 <= i < s.len() implies #[trigger] cells_seq_v(s)[i] == cell_v(&s[i]) by {
            if i < s.len() - 1 {
                assert(s.drop_last()[i] == s[i]);
            }
        }
    }
}

pub proof fn lemma_rows_seq_v_index(s: Seq<Vec<TableCell>>)
    ensures
        rows_seq_v(s).len() == s.len(),
        forall|i: int| 0 <= i < s.len() ==> #[trigger] rows_seq_v(s)[i] == cells_seq_v(s[i]@),
    decreases s.len(),
{
    if s.len() > 0 {
        lemma_rows_seq_v_index(s.drop_last());
        assert forall|i: int| 0 <= i < s.len() implies #[trigger] rows_seq_v(s)[i] == cells_seq_v(s[i]@) by {
            if i < s.len() - 1 {
                assert(s.drop_last()[i] == s[i]);
            }
        }
    }
}

pub proof fn lemma_nodes_seq_v_index(s: Seq<Node>)
    ensures
        nodes_seq_v(s).len() == s.len(),
        forall|i: int| 0 <= i < s.len() ==> #[trigger] nodes_seq_v(s)[i] == node_v(&s[i]),
    decreases s.len(),
{
    if s.len() > 0 {
        lemma_nodes_seq_v_index(s.drop_last());
        assert forall|i: int| 0 <= i < s.len() implies #[trigger] nodes_seq_v(s)[i] == node_v(&s[i]) by {
            if i < s.len() - 1 {
                assert(s.drop_last()[i] == s[i]);
            }
        }
    }
}

pub proof fn lemma_list_items_seq_v_index(s: Seq<ListItem>)
    ensures
        list_items_seq_v(s).len() == s.len(),
        forall|i: int| 0 <= i < s.len() ==> #[trigger] list_items_seq_v(s)[i] == list_item_v(&s[i]),
    decreases s.len(),
{
    if s.len() > 0 {
        lemma_list_items_seq_v_index(s.drop_last());
        assert forall|i: int| 0 <= i < s.len() implies #[trigger] list_items_seq_v(s)[i] == list_item_v(&s[i]) by {
            if i < s.len() - 1 {
                assert(s.drop_last()[i] == s[i]);
            }
        }
    }
}

pub proof fn lemma_def_items_seq_v_index(s: Seq<DefinitionItem>)
    ensures
        def_items_seq_v(s).len() == s.len(),
        forall|i: int| 0 <= i < s.len() ==> #[trigger] def_items_seq_v(s)[i] == def_item_v(&s[i]),
    decreases s.len(),
{
    if s.len() > 0 {
        lemma_def_items_seq_v_index(s.drop_last());
        assert forall|i: int| 0 <= i < s.len() implies #[trigger] def_items_seq_v(s)[i] == def_item_v(&s[i]) by {
            if i < s.len() - 1 {
                assert(s.drop_last()[i] == s[i]);
            }
        }
    }
}

pub proof fn lemma_descs_seq_v_index(s: Seq<Vec<Node>>)
    ensures
        descs_seq_v(s).len() == s.len(),
        forall|i: int| 0 <= i < s.len() ==> #[trigger] descs_seq_v(s)[i] == nodes_seq_v(s[i]@),
    decreases s.len(),
{
    if s.len() > 0 {
        lemma_descs_seq_v_index(s.drop_last());
        assert forall|i: int| 0 <= i < s.len() implies #[trigger] descs_seq_v(s)[i] == nodes_seq_v(s[i]@) by {
            if i < s.len() - 1 {
                assert(s.drop_last()[i] == s[i]);
            }
        }
    }
}

/// The model after replacing the element at `j`.
pub proof fn lemma_list_items_update(v: Seq<ListItem>, j: int, x: ListItem)
    requires 0 <= j < v.len(),
    ensures list_items_seq_v(v.update(j, x)) == list_items_seq_v(v).update(j, list_items_seq_v(seq![x])[0]),
{
    lemma_list_items_seq_v_index(v);
    lemma_list_items_seq_v_index(v.update(j, x));
    lemma_list_items_seq_v_index(seq![x]);
    assert(list_items_seq_v(v.update(j, x)) =~= list_items_seq_v(v).update(j, list_items_seq_v(seq![x])[0]));
}

/// The model after inserting an element at `j`.
pub proof fn lemma_list_items_insert(v: Seq<ListItem>, j: int, x: ListItem)
    requires 0 <= j <= v.len(),
    ensures list_items_seq_v(v.insert(j, x)) == list_items_seq_v(v).insert(j, list_items_seq_v(seq![x])[0]),
{
    lemma_list_items_seq_v_index(v);
    lemma_list_items_seq_v_index(v.insert(j, x));
    lemma_list_items_seq_v_index(seq![x]);
    assert(list_items_seq_v(v.insert(j, x)) =~= list_items_seq_v(v).insert(j, list_items_seq_v(seq![x])[0]));
}

/// The model after removing the element at `j`.
pub proof fn lemma_list_items_remove(v: Seq<ListItem>, j: int)
    requires 0 <= j < v.len(),
    ensures list_items_seq_v(v.remove(j)) == list_items_seq_v(v).remove(j),
{
    lemma_list_items_seq_v_index(v);
    lemma_list_items_seq_v_index(v.remove(j));
    assert(list_items_seq_v(v.remove(j)) =~= list_items_seq_v(v).remove(j));
}

/// The model after replacing the element at `j`.
pub proof fn lemma_cells_update(v: Seq<TableCell>, j: int, x: TableCell)
    requires 0 <= j < v.len(),
    ensures cells_seq_v(v.update(j, x)) == cells_seq_v(v).update(j, cells_seq_v(seq![x])[0]),
{
    lemma_cells_seq_v_index(v);
    lemma_cells_seq_v_index(v.update(j, x));
    lemma_cells_seq_v_index(seq![x]);
    assert(cells_seq_v(v.update(j, x)) =~= cells_seq_v(v).update(j, cells_seq_v(seq![x])[0]));
}

/// The model after inserting an element at `j`.
pub proof fn lemma_cells_insert(v: Seq<TableCell>, j: int, x: TableCell)
    requires 0 <= j <= v.len(),
    ensures cells_seq_v(v.insert(j, x)) == cells_seq_v(v).insert(j, cells_seq_v(seq![x])[0]),
{
    lemma_cells_seq_v_index(v);
    lemma_cells_seq_v_index(v.insert(j, x));
    lemma_cells_seq_v_index(seq![x]);
    assert(cells_seq_v(v.insert(j, x)) =~= cells_seq_v(v).insert(j, cells_seq_v(seq![x])[0]));
}

/// The model after removing the element at `j`.
pub proof fn lemma_cells_remove(v: Seq<TableCell>, j: int)
    requires 0 <= j < v.len(),
    ensures cells_seq_v(v.remove(j)) == cells_seq_v(v).remove(j),
{
    lemma_cells_seq_v_index(v);
    lemma_cells_seq_v_index(v.remove(j));
    assert(cells_seq_v(v.remove(j)) =~= cells_seq_v(v).remove(j));
}

/// The model after replacing the element at `j`.
pub proof fn lemma_rows_update(v: Seq<Vec<TableCell>>, j: int, x: Vec<TableCell>)
    requires 0 <= j < v.len(),
    ensures rows_seq_v(v.update(j, x)) == rows_seq_v(v).update(j, rows_seq_v(seq![x])[0]),
{
    lemma_rows_seq_v_index(v);
    lemma_rows_seq_v_index(v.update(j, x));
    lemma_rows_seq_v_index(seq![x]);
    assert(rows_seq_v(v.update(j, x)) =~= rows_seq_v(v).update(j, rows_seq_v(seq![x])[0]));
}

/// The model after inserting an element at `j`.
pub proof fn lemma_rows_insert(v: Seq<Vec<TableCell>>, j: int, x: Vec<TableCell>)
    requires 0 <= j <= v.len(),
    ensures rows_seq_v(v.insert(j, x)) == rows_seq_v(v).insert(j, rows_seq_v(seq![x])[0]),
{
    lemma_rows_seq_v_index(v);
    lemma_rows_seq_v_index(v.insert(j, x));
    lemma_rows_seq_v_index(seq![x]);
    assert(rows_seq_v(v.insert(j, x)) =~= rows_seq_v(v).insert(j, rows_seq_v(seq![x])[0]));
}

/// The model after removing the element at `j`.
pub proof fn lemma_rows_remove(v: Seq<Vec<TableCell>>, j: int)
    requires 0 <= j < v.len(),
    ensures rows_seq_v(v.remove(j)) == rows_seq_v(v).remove(j),
{
    lemma_rows_seq_v_index(v);
    lemma_rows_seq_v_index(v.remove(j));
    assert(rows_seq_v(v.remove(j)) =~= rows_seq_v(v).remove(j));
}

// ---------------------------------------------------------------------------
// Copies
// ---------------------------------------------------------------------------

pub fn copy_props(p: &TableProperties) -> (r: TableProperties)
    ensures r@ == p@,
{
    TableProperties {
        has_header: p.has_header,
        has_borders: p.has_borders,
        striped_rows: p.striped_rows,
        hoverable: p.hoverable,
        css_class: copy_opt_string(&p.css_class),
        style: copy_opt_string(&p.style),
        caption: copy_opt_string(&p.caption),
        caption_at_bottom: p.caption_at_bottom,
    }
}

pub fn copy_cell(c: &TableCell) -> (r: TableCell)
    ensures r@ == c@,
{
    TableCell {
        content: copy_inlines(&c.content),
        colspan: c.colspan,
        rowspan: c.rowspan,
        background_color: copy_opt_string(&c.background_color),
        css_class: copy_opt_string(&c.css_class),
        style: copy_opt_string(&c.style),
        is_header: c.is_header,
    }
}

pub fn copy_alignments(v: &Vec<TableAlignment>) -> (r: Vec<TableAlignment>)
    ensures r@ == v@,
{
    let mut r: Vec<TableAlignment> = Vec::new();
    let mut i: usize = 0;
    while i < v.len()
        invariant
            i <= v.len(),
            r@ == v@.take(i as int),
        decreases v.len() - i,
    {
        r.push(v[i]);
        proof { assert(v@.take(i + 1) =~= v@.take(i as int).push(v@[i as int])); }
        i = i + 1;
    }
    proof { assert(v@.take(i as int) =~= v@); }
    r
}

pub fn copy_list_item(li: &ListItem) -> (r: ListItem)
    ensures r@ == li@,
    decreases li, 1int,
{
    ListItem { children: copy_nodes(&li.children), checked: li.checked }
}

pub fn copy_def_item(d: &DefinitionItem) -> (r: DefinitionItem)
    ensures r@ == d@,
    decreases d, 1int,
{
    DefinitionItem { term: copy_inlines(&d.term), descriptions: copy_descs(&d.descriptions) }
}

pub fn copy_node(n: &Node) -> (r: Node)
    ensures r@ == n@,
    decreases n, 1int,
{
    match n {
        Node::Heading { level, children } => Node::Heading { level: *level, children: copy_inlines(children) },
        Node::Paragraph { children } => Node::Paragraph { children: copy_inlines(children) },
        Node::List { list_type, items } => Node::List { list_type: *list_type, items: copy_list_items(items) },
        Node::CodeBlock { language, code } => Node::CodeBlock { language: language.clone(), code: code.clone() },
        Node::BlockQuote { children } => Node::BlockQuote { children: copy_nodes(children) },
        Node::ThematicBreak => Node::ThematicBreak,
        Node::Table { header, rows, alignments, properties } => Node::Table {
            header: copy_cells(header),
            rows: copy_rows(rows),
            alignments: copy_alignments(alignments),
            properties: copy_props(properties),
        },
        Node::Group { name, children } => Node::Group { name: name.clone(), children: copy_nodes(children) },
        Node::FootnoteReference(r) => Node::FootnoteReference(
            FootnoteReference { label: r.label.clone(), identifier: copy_opt_string(&r.identifier) },
        ),
        Node::FootnoteDefinition(d) => Node::FootnoteDefinition(
            FootnoteDefinition { label: d.label.clone(), content: copy_nodes(&d.content) },
        ),
        Node::DefinitionList { items } => Node::DefinitionList { items: copy_def_items(items) },
        Node::MathBlock { math } => Node::MathBlock { math: math.clone() },
        Node::TempListItem(li) => Node::TempListItem(copy_list_item(li)),
        Node::TempTableCell(c) => Node::TempTableCell(copy_cell(c)),
    }
}

pub fn copy_cells(v: &Vec<TableCell>) -> (r: Vec<TableCell>)
    ensures cells_seq_v(r@) == cells_seq_v(v@), r.len() == v.len(),
{
    let mut r: Vec<TableCell> = Vec::new();
    let mut i: usize = 0;
    while i < v.len()
        invariant
            i <= v.len(),
            r.len() == i,
            cells_seq_v(r@) == cells_seq_v(v@.take(i as int)),
        decreases v.len() - i,
    {
        let c = copy_cell(&v[i]);
        let ghost r0 = r@;
        r.push(c);
        proof {
            lemma_cells_seq_v_push(r0, c);
            assert(r@ =~= r0.push(c));
            assert(v@.take(i + 1) =~= v@.take(i as int).push(v@[i as int]));
            lemma_cells_seq_v_push(v@.take(i as int), v@[i as int]);
        }
        i = i + 1;
    }
    proof { assert(v@.take(i as int) =~= v@); }
    r
}

pub fn copy_rows(v: &Vec<Vec<TableCell>>) -> (r: Vec<Vec<TableCell>>)
    ensures rows_seq_v(r@) == rows_seq_v(v@), r.len() == v.len(),
{
    let mut r: Vec<Vec<TableCell>> = Vec::new();
    let mut i: usize = 0;
    while i < v.len()
        invariant
            i <= v.len(),
            r.len() == i,
            rows_seq_v(r@) == rows_seq_v(v@.take(i as int)),
        decreases v.len() - i,
    {
        let c = copy_cells(&v[i]);
        let ghost r0 = r@;
        r.push(c);
        proof {
            lemma_rows_seq_v_push(r0, c);
            assert(r@ =~= r0.push(c));
            assert(v@.take(i + 1) =~= v@.take(i as int).push(v@[i as int]));
            lemma_rows_seq_v_push(v@.take(i as int), v@[i as int]);
        }
        i = i + 1;
    }
    proof { assert(v@.take(i as int) =~= v@); }
    r
}

pub fn copy_nodes(v: &Vec<Node>) -> (r: Vec<Node>)
    ensures nodes_seq_v(r@) == nodes_seq_v(v@), r.len() == v.len(),
    decreases v, 0int,
{
    let mut r: Vec<Node> = Vec::new();
    let mut i: usize = 0;
    while i < v.len()
        invariant
            i <= v.len(),
            r.len() == i,
            nodes_seq_v(r@) == nodes_seq_v(v@.take(i as int)),
        decreases v.len() - i,
    {
        proof { vstd::std_specs::vec::axiom_vec_index_decreases(*v, i as int); }
        let c = copy_node(&v[i]);
        let ghost r0 = r@;
        r.push(c);
        proof {
            lemma_nodes_seq_v_push(r0, c);
            assert(r@ =~= r0.push(c));
            assert(v@.take(i + 1) =~= v@.take(i as int).push(v@[i as int]));
            lemma_nodes_seq_v_push(v@.take(i as int), v@[i as int]);
        }
        i = i + 1;
    }
    proof { assert(v@.take(i as int) =~= v@); }
    r
}

pub fn copy_list_items(v: &Vec<ListItem>) -> (r: Vec<ListItem>)
    ensures list_items_seq_v(r@) == list_items_seq_v(v@), r.len() == v.len(),
    decreases v, 0int,
{
    let mut r: Vec<ListItem> = Vec::new();
    let mut i: usize = 0;
    while i < v.len()
        invariant
            i <= v.len(),
            r.len() == i,
            list_items_seq_v(r@) == list_items_seq_v(v@.take(i as int)),
        decreases v.len() - i,
    {
        proof { vstd::std_specs::vec::axiom_vec_index_decreases(*v, i as int); }
        let c = copy_list_item(&v[i]);
        let ghost r0 = r@;
        r.push(c);
        proof {
            lemma_list_items_seq_v_push(r0, c);
            assert(r@ =~= r0.push(c));
            assert(v@.take(i + 1) =~= v@.take(i as int).push(v@[i as int]));
            lemma_list_items_seq_v_push(v@.take(i as int), v@[i as int]);
        }
        i = i + 1;
    }
    proof { assert(v@.take(i as int) =~= v@); }
    r
}

pub fn copy_def_items(v: &Vec<DefinitionItem>) -> (r: Vec<DefinitionItem>)
    ensures def_items_seq_v(r@) == def_items_seq_v(v@), r.len() == v.len(),
    decreases v, 0int,
{
    let mut r: Vec<DefinitionItem> = Vec::new();
    let mut i: usize = 0;
    while i < v.len()
        invariant
            i <= v.len(),
            r.len() == i,
            def_items_seq_v(r@) == def_items_seq_v(v@.take(i as int)),
        decreases v.len() - i,
    {
        proof { vstd::std_specs::vec::axiom_vec_index_decreases(*v, i as int); }
        let c = copy_def_item(&v[i]);
        let ghost r0 = r@;
        r.push(c);
        proof {
            lemma_def_items_seq_v_push(r0, c);
            assert(r@ =~= r0.push(c));
            assert(v@.take(i + 1) =~= v@.take(i as int).push(v@[i as int]));
            lemma_def_items_seq_v_push(v@.take(i as int), v@[i as int]);
        }
        i = i + 1;
    }
    proof { assert(v@.take(i as int) =~= v@); }
    r
}

pub fn copy_descs(v: &Vec<Vec<Node>>) -> (r: Vec<Vec<Node>>)
    ensures descs_seq_v(r@) == descs_seq_v(v@), r.len() == v.len(),
    decreases v, 0int,
{
    let mut r: Vec<Vec<Node>> = Vec::new();
    let mut i: usize = 0;
    while i < v.len()
        invariant
            i <= v.len(),
            r.len() == i,
            descs_seq_v(r@) == descs_seq_v(v@.take(i as int)),
        decreases v.len() - i,
    {
        proof { vstd::std_specs::vec::axiom_vec_index_decreases(*v, i as int); }
        let c = copy_nodes(&v[i]);
        let ghost r0 = r@;
        r.push(c);
        proof {
            lemma_descs_seq_v_push(r0, c);
            assert(r@ =~= r0.push(c));
            assert(v@.take(i + 1) =~= v@.take(i as int).push(v@[i as int]));
            lemma_descs_seq_v_push(v@.take(i as int), v@[i as int]);
        }
        i = i + 1;
    }
    proof { assert(v@.take(i as int) =~= v@); }
    r
}


impl Clone for Node {
    fn clone(&self) -> (r: Self)
        ensures r@ == self@,
    {
        copy_node(self)
    }
}

impl Clone for ListItem {
    fn clone(&self) -> (r: Self)
        ensures r@ == self@,
    {
        copy_list_item(self)
    }
}

impl Clone for TableCell {
    fn clone(&self) -> (r: Self)
        ensures r@ == self@,
    {
        copy_cell(self)
    }
}

impl Clone for TableProperties {
    fn clone(&self) -> (r: Self)
        ensures r@ == self@,
    {
        copy_props(self)
    }
}

impl Clone for DefinitionItem {
    fn clone(&self) -> (r: Self)
        ensures r@ == self@,
    {
        copy_def_item(self)
    }
}


// ---------------------------------------------------------------------------
// Shapes built by the constructors
// ---------------------------------------------------------------------------

/// A paragraph holding one plain text run.
pub open spec fn para_v(t: Seq<char>) -> NodeV {
    NodeV::Paragraph { children: seq![plain_text_v(t)] }
}

/// A list item holding one plain paragraph.
pub open spec fn text_item_v(t: Seq<char>) -> ListItemV {
    ListItemV { children: seq![para_v(t)], checked: None }
}

/// A task list item holding one plain paragraph.
pub open spec fn task_item_v(t: Seq<char>, checked: bool) -> ListItemV {
    ListItemV { children: seq![para_v(t)], checked: Some(checked) }
}

/// A table cell holding one plain text run.
pub open spec fn text_cell_v(t: Seq<char>, is_header: bool) -> TableCellV {
    TableCellV {
        content: seq![plain_text_v(t)],
        colspan: 1,
        rowspan: 1,
        background_color: None,
        css_class: None,
        style: None,
        is_header,
    }
}

/// Table properties: header and borders on, everything else off.
pub open spec fn default_props_v() -> TablePropertiesV {
    TablePropertiesV {
        has_header: true,
        has_borders: true,
        striped_rows: false,
        hoverable: false,
        css_class: None,
        style: None,
        caption: None,
        caption_at_bottom: false,
    }
}

pub open spec fn cells_from_strs_v(s: Seq<&str>, is_header: bool) -> Seq<TableCellV> {
    s.map_values(|t: &str| text_cell_v(t@, is_header))
}

pub open spec fn rows_from_strs_v(rows: Seq<Vec<&str>>) -> Seq<Seq<TableCellV>> {
    rows.map_values(|r: Vec<&str>| cells_from_strs_v(r@, false))
}

pub open spec fn clamp_level(level: u8) -> u8 {
    if level < 1 { 1 } else if level > 6 { 6 } else { level }
}

/// The text of a list item: the first text run of its first child, when that
/// child is a paragraph starting with text.
pub open spec fn item_text_v(li: ListItemV) -> Option<Seq<char>> {
    if li.children.len() > 0 {
        match li.children[0] {
            NodeV::Paragraph { children } => if children.len() > 0 {
                match children[0] {
                    InlineV::Text { text, .. } => Some(text),
                    _ => None,
                }
            } else {
                None
            },
            _ => None,
        }
    } else {
        None
    }
}

/// A vector holding exactly one node.
pub fn single_node(n: Node) -> (v: Vec<Node>)
    ensures v@ == seq![n], nodes_seq_v(v@) == seq![n@],
{
    let mut v = Vec::new();
    v.push(n);
    proof {
        assert(v@ =~= seq![n]);
        lemma_nodes_seq_v_push(Seq::empty(), n);
        assert(Seq::<Node>::empty().push(n) =~= seq![n]);
        assert(Seq::<NodeV>::empty().push(n@) =~= seq![n@]);
    }
    v
}

fn text_cells(texts: &Vec<&str>, is_header: bool) -> (r: Vec<TableCell>)
    ensures cells_seq_v(r@) == cells_from_strs_v(texts@, is_header),
{
    let mut r: Vec<TableCell> = Vec::new();
    let mut i: usize = 0;
    while i < texts.len()
        invariant
            i <= texts.len(),
            cells_seq_v(r@) =~= cells_from_strs_v(texts@.take(i as int), is_header),
        decreases texts.len() - i,
    {
        let c = if is_header { TableCell::header(texts[i]) } else { TableCell::text(texts[i]) };
        let ghost r0 = r@;
        r.push(c);
        proof {
            lemma_cells_seq_v_push(r0, c);
            assert(r@ =~= r0.push(c));
            assert(texts@.take(i + 1) =~= texts@.take(i as int).push(texts@[i as int]));
        }
        i = i + 1;
    }
    proof { assert(texts@.take(i as int) =~= texts@); }
    r
}

fn text_rows(rows: &Vec<Vec<&str>>) -> (r: Vec<Vec<TableCell>>)
    ensures rows_seq_v(r@) == rows_from_strs_v(rows@),
{
    let mut r: Vec<Vec<TableCell>> = Vec::new();
    let mut i: usize = 0;
    while i < rows.len()
        invariant
            i <= rows.len(),
            rows_seq_v(r@) =~= rows_from_strs_v(rows@.take(i as int)),
        decreases rows.len() - i,
    {
        let c = text_cells(&rows[i], false);
        let ghost r0 = r@;
        r.push(c);
        proof {
            lemma_rows_seq_v_push(r0, c);
            assert(r@ =~= r0.push(c));
            assert(rows@.take(i + 1) =~= rows@.take(i as int).push(rows@[i as int]));
        }
        i = i + 1;
    }
    proof { assert(rows@.take(i as int) =~= rows@); }
    r
}

fn unaligned_columns(n: usize) -> (r: Vec<TableAlignment>)
    ensures r@ == Seq::new(n as nat, |i: int| TableAlignment::Unaligned),
{
    let mut r: Vec<TableAlignment> = Vec::new();
    let mut i: usize = 0;
    while i < n
        invariant
            i <= n,
            r@ =~= Seq::new(i as nat, |j: int| TableAlignment::Unaligned),
        decreases n - i,
    {
        r.push(TableAlignment::Unaligned);
        i = i + 1;
    }
    r
}

impl Default for TableProperties {
    fn default() -> (r: Self)
        ensures r@ == default_props_v(),
    {
        TableProperties {
            has_header: true,
            has_borders: true,
            striped_rows: false,
            hoverable: false,
            css_class: None,
            style: None,
            caption: None,
            caption_at_bottom: false,
        }
    }
}

impl TableProperties {
    /// Create a new TableProperties with default values
    pub fn new() -> (r: Self)
        ensures r@ == default_props_v(),
    {
        Self::default()
    }

    /// Set whether the table has a header row
    pub fn with_header(self, has_header: bool) -> (r: Self)
        ensures r@ == (TablePropertiesV { has_header, ..self@ }),
    {
        let mut p = self;
        p.has_header = has_header;
        p
    }

    /// Set whether the table has visible borders
    pub fn with_borders(self, has_borders: bool) -> (r: Self)
        ensures r@ == (TablePropertiesV { has_borders, ..self@ }),
    {
        let mut p = self;
        p.has_borders = has_borders;
        p
    }

    /// Set whether the table has striped rows
    pub fn with_striped_rows(self, striped_rows: bool) -> (r: Self)
        ensures r@ == (TablePropertiesV { striped_rows, ..self@ }),
    {
        let mut p = self;
        p.striped_rows = striped_rows;
        p
    }

    /// Set whether the table has hover effects
    pub fn with_hover(self, hoverable: bool) -> (r: Self)
        ensures r@ == (TablePropertiesV { hoverable, ..self@ }),
    {
        let mut p = self;
        p.hoverable = hoverable;
        p
    }

    /// Set the CSS class for the table
    pub fn with_css_class(self, css_class: &str) -> (r: Self)
        ensures r@ == (TablePropertiesV { css_class: Some(css_class@), ..self@ }),
    {
        let mut p = self;
        p.css_class = Some(css_class.to_owned());
        p
    }

    /// Set custom CSS style for the table
    pub fn with_style(self, style: &str) -> (r: Self)
        ensures r@ == (TablePropertiesV { style: Some(style@), ..self@ }),
    {
        let mut p = self;
        p.style = Some(style.to_owned());
        p
    }

    /// Set the caption for the table
    pub fn with_caption(self, caption: &str, at_bottom: bool) -> (r: Self)
        ensures r@ == (TablePropertiesV { caption: Some(caption@), caption_at_bottom: at_bottom, ..self@ }),
    {
        let mut p = self;
        p.caption = Some(caption.to_owned());
        p.caption_at_bottom = at_bottom;
        p
    }
}

impl ListItem {
    /// Creates a new list item with the given children
    pub fn new(children: Vec<Node>) -> (r: Self)
        ensures r.children == children, r.checked.is_none(),
    {
        ListItem { children, checked: None }
    }

    /// Creates a new list item with a single paragraph
    pub fn paragraph(text: &str) -> (r: Self)
        ensures r@ == text_item_v(text@),
    {
        ListItem { children: single_node(Node::paragraph(text)), checked: None }
    }

    /// Creates a new task list item (with checkbox)
    pub fn task(text: &str, checked: bool) -> (r: Self)
        ensures r@ == task_item_v(text@, checked),
    {
        ListItem { children: single_node(Node::paragraph(text)), checked: Some(checked) }
    }

    /// The text of the first text run of the first child paragraph, if any.
    pub fn as_text(&self) -> (r: Option<&str>)
        ensures
            r is Some == item_text_v(self@) is Some,
            r is Some ==> r->0@ == item_text_v(self@)->0,
    {
        if self.children.len() == 0 {
            return None;
        }
        proof { lemma_nodes_seq_v_index(self.children@); }
        match &self.children[0] {
            Node::Paragraph { children } => {
                if children.len() == 0 {
                    return None;
                }
                proof { lemma_inlines_seq_v_index(children@); }
                children[0].as_text()
            },
            _ => None,
        }
    }
}

impl TableCell {
    /// Creates a new table cell with the given content
    pub fn new(content: Vec<InlineNode>) -> (r: Self)
        ensures
            r.content == content, r.colspan == 1, r.rowspan == 1, r.background_color.is_none(),
            r.css_class.is_none(), r.style.is_none(), !r.is_header,
    {
        TableCell {
            content,
            colspan: 1,
            rowspan: 1,
            background_color: None,
            css_class: None,
            style: None,
            is_header: false,
        }
    }

    /// Creates a new table cell with text content
    pub fn text(text: &str) -> (r: Self)
        ensures r@ == text_cell_v(text@, false),
    {
        TableCell {
            content: single_inline(InlineNode::text(text)),
            colspan: 1,
            rowspan: 1,
            background_color: None,
            css_class: None,
            style: None,
            is_header: false,
        }
    }

    /// Creates a new table cell with the given content and column span
    pub fn with_colspan(content: Vec<InlineNode>, colspan: u32) -> (r: Self)
        ensures
            r.content == content, r.colspan == colspan, r.rowspan == 1, r.background_color.is_none(),
            r.css_class.is_none(), r.style.is_none(), !r.is_header,
    {
        TableCell {
            content,
            colspan,
            rowspan: 1,
            background_color: None,
            css_class: None,
            style: None,
            is_header: false,
        }
    }

    /// Creates a new table cell with the given content and row span
    pub fn with_rowspan(content: Vec<InlineNode>, rowspan: u32) -> (r: Self)
        ensures
            r.content == content, r.colspan == 1, r.rowspan == rowspan, r.background_color.is_none(),
            r.css_class.is_none(), r.style.is_none(), !r.is_header,
    {
        TableCell {
            content,
            colspan: 1,
            rowspan,
            background_color: None,
            css_class: None,
            style: None,
            is_header: false,
        }
    }

    /// Creates a new table cell with the given content and spans
    pub fn with_spans(content: Vec<InlineNode>, colspan: u32, rowspan: u32) -> (r: Self)
        ensures
            r.content == content, r.colspan == colspan, r.rowspan == rowspan,
            r.background_color.is_none(), r.css_class.is_none(), r.style.is_none(), !r.is_header,
    {
        TableCell {
            content,
            colspan,
            rowspan,
            background_color: None,
            css_class: None,
            style: None,
            is_header: false,
        }
    }

    /// Creates a header cell with text content
    pub fn header(text: &str) -> (r: Self)
        ensures r@ == text_cell_v(text@, true),
    {
        TableCell {
            content: single_inline(InlineNode::text(text)),
            colspan: 1,
            rowspan: 1,
            background_color: None,
            css_class: None,
            style: None,
            is_header: true,
        }
    }

    /// Set background color for the cell
    pub fn with_background_color(self, color: &str) -> (r: Self)
        ensures r@ == (TableCellV { background_color: Some(color@), ..self@ }),
    {
        let mut c = self;
        c.background_color = Some(color.to_owned());
        c
    }

    /// Set CSS class for the cell
    pub fn with_css_class(self, class: &str) -> (r: Self)
        ensures r@ == (TableCellV { css_class: Some(class@), ..self@ }),
    {
        let mut c = self;
        c.css_class = Some(class.to_owned());
        c
    }

    /// Set custom CSS style for the cell
    pub fn with_style(self, style: &str) -> (r: Self)
        ensures r@ == (TableCellV { style: Some(style@), ..self@ }),
    {
        let mut c = self;
        c.style = Some(style.to_owned());
        c
    }

    /// Set whether this is a header cell
    pub fn with_header(self, is_header: bool) -> (r: Self)
        ensures r@ == (TableCellV { is_header, ..self@ }),
    {
        let mut c = self;
        c.is_header = is_header;
        c
    }
}

impl Default for TableCell {
    fn default() -> (r: Self)
        ensures r@ == text_cell_v(Seq::empty(), false),
    {
        let r = TableCell::text("");
        proof {
            reveal_strlit("");
            assert(""@ =~= Seq::<char>::empty());
        }
        r
    }
}

impl FootnoteReference {
    /// Creates a new footnote reference
    pub fn new(label: &str) -> (r: Self)
        ensures r.label@ == label@, r.identifier.is_none(),
    {
        FootnoteReference { label: label.to_owned(), identifier: None }
    }

    /// Creates a new footnote reference with an identifier
    pub fn with_identifier(label: &str, identifier: &str) -> (r: Self)
        ensures r.label@ == label@, opt_str_v(r.identifier) == Some(identifier@),
    {
        FootnoteReference { label: label.to_owned(), identifier: Some(identifier.to_owned()) }
    }
}

impl FootnoteDefinition {
    /// Creates a new footnote definition
    pub fn new(label: &str, content: Vec<Node>) -> (r: Self)
        ensures r.label@ == label@, r.content == content,
    {
        FootnoteDefinition { label: label.to_owned(), content }
    }

    /// Creates a new footnote definition with a single paragraph
    pub fn paragraph(label: &str, text: &str) -> (r: Self)
        ensures r.label@ == label@, nodes_seq_v(r.content@) == seq![para_v(text@)],
    {
        FootnoteDefinition { label: label.to_owned(), content: single_node(Node::paragraph(text)) }
    }
}

impl DefinitionItem {
    /// Creates a new definition item
    pub fn new(term: Vec<InlineNode>, descriptions: Vec<Vec<Node>>) -> (r: Self)
        ensures r.term == term, r.descriptions == descriptions,
    {
        DefinitionItem { term, descriptions }
    }

    /// Creates a new definition item with a single description
    pub fn single(term: &str, description: &str) -> (r: Self)
        ensures r@ == (DefinitionItemV { term: seq![plain_text_v(term@)], descriptions: seq![seq![para_v(description@)]] }),
    {
        let desc = single_node(Node::paragraph(description));
        let mut descriptions: Vec<Vec<Node>> = Vec::new();
        descriptions.push(desc);
        proof {
            lemma_descs_seq_v_push(Seq::empty(), desc);
            assert(descriptions@ =~= Seq::<Vec<Node>>::empty().push(desc));
            assert(Seq::<Seq<NodeV>>::empty().push(seq![para_v(description@)]) =~= seq![seq![para_v(description@)]]);
        }
        DefinitionItem { term: single_inline(InlineNode::text(term)), descriptions }
    }
}


fn text_items(items: &Vec<&str>) -> (r: Vec<ListItem>)
    ensures list_items_seq_v(r@) == items@.map_values(|t: &str| text_item_v(t@)),
{
    let mut r: Vec<ListItem> = Vec::new();
    let mut i: usize = 0;
    while i < items.len()
        invariant
            i <= items.len(),
            list_items_seq_v(r@) =~= items@.take(i as int).map_values(|t: &str| text_item_v(t@)),
        decreases items.len() - i,
    {
        let c = ListItem::paragraph(items[i]);
        let ghost r0 = r@;
        r.push(c);
        proof {
            lemma_list_items_seq_v_push(r0, c);
            assert(r@ =~= r0.push(c));
            assert(items@.take(i + 1) =~= items@.take(i as int).push(items@[i as int]));
        }
        i = i + 1;
    }
    proof { assert(items@.take(i as int) =~= items@); }
    r
}

fn task_items(items: &Vec<(&str, bool)>) -> (r: Vec<ListItem>)
    ensures list_items_seq_v(r@) == items@.map_values(|t: (&str, bool)| task_item_v(t.0@, t.1)),
{
    let mut r: Vec<ListItem> = Vec::new();
    let mut i: usize = 0;
    while i < items.len()
        invariant
            i <= items.len(),
            list_items_seq_v(r@) =~= items@.take(i as int).map_values(|t: (&str, bool)| task_item_v(t.0@, t.1)),
        decreases items.len() - i,
    {
        let c = ListItem::task(items[i].0, items[i].1);
        let ghost r0 = r@;
        r.push(c);
        proof {
            lemma_list_items_seq_v_push(r0, c);
            assert(r@ =~= r0.push(c));
            assert(items@.take(i + 1) =~= items@.take(i as int).push(items@[i as int]));
        }
        i = i + 1;
    }
    proof { assert(items@.take(i as int) =~= items@); }
    r
}

/// The model of a definition item built from a term and its descriptions.
pub open spec fn def_entry_v(term: Seq<char>, descs: Seq<String>) -> DefinitionItemV {
    DefinitionItemV {
        term: seq![plain_text_v(term)],
        descriptions: descs.map_values(|d: String| seq![para_v(d@)]),
    }
}

fn desc_paragraphs(descs: &Vec<String>) -> (r: Vec<Vec<Node>>)
    ensures descs_seq_v(r@) == descs@.map_values(|d: String| seq![para_v(d@)]),
{
    let mut r: Vec<Vec<Node>> = Vec::new();
    let mut i: usize = 0;
    while i < descs.len()
        invariant
            i <= descs.len(),
            descs_seq_v(r@) =~= descs@.take(i as int).map_values(|d: String| seq![para_v(d@)]),
        decreases descs.len() - i,
    {
        let c = single_node(Node::paragraph(descs[i].as_str()));
        let ghost r0 = r@;
        r.push(c);
        proof {
            lemma_descs_seq_v_push(r0, c);
            assert(r@ =~= r0.push(c));
            assert(descs@.take(i + 1) =~= descs@.take(i as int).push(descs@[i as int]));
        }
        i = i + 1;
    }
    proof { assert(descs@.take(i as int) =~= descs@); }
    r
}

impl Node {
    /// Creates a new heading node; the level is clamped to 1..=6
    pub fn heading(level: u8, text: &str) -> (r: Self)
        ensures r@ == (NodeV::Heading { level: clamp_level(level), children: seq![plain_text_v(text@)] }),
    {
        let level = if level < 1 { 1 } else if level > 6 { 6 } else { level };
        Node::Heading { level, children: single_inline(InlineNode::text(text)) }
    }

    /// Creates a new paragraph node
    pub fn paragraph(text: &str) -> (r: Self)
        ensures r@ == para_v(text@),
    {
        Node::Paragraph { children: single_inline(InlineNode::text(text)) }
    }

    /// Creates a new paragraph with the given inline nodes
    pub fn paragraph_with_inlines(children: Vec<InlineNode>) -> (r: Self)
        ensures r == (Node::Paragraph { children }),
    {
        Node::Paragraph { children }
    }

    /// Creates a new code block
    pub fn code_block(code: &str, language: &str) -> (r: Self)
        ensures r@ == (NodeV::CodeBlock { language: language@, code: code@ }),
    {
        Node::CodeBlock { language: language.to_owned(), code: code.to_owned() }
    }

    /// Creates a new blockquote with a paragraph
    pub fn blockquote(text: &str) -> (r: Self)
        ensures r@ == (NodeV::BlockQuote { children: seq![para_v(text@)] }),
    {
        Node::BlockQuote { children: single_node(Node::paragraph(text)) }
    }

    /// Creates a new unordered list
    pub fn unordered_list(items: Vec<&str>) -> (r: Self)
        ensures r@ == (NodeV::List { list_type: ListType::Unordered, items: items@.map_values(|t: &str| text_item_v(t@)) }),
    {
        Node::List { list_type: ListType::Unordered, items: text_items(&items) }
    }

    /// Creates a new ordered list
    pub fn ordered_list(items: Vec<&str>) -> (r: Self)
        ensures r@ == (NodeV::List { list_type: ListType::Ordered, items: items@.map_values(|t: &str| text_item_v(t@)) }),
    {
        Node::List { list_type: ListType::Ordered, items: text_items(&items) }
    }

    /// Creates a new task list
    pub fn task_list(items: Vec<(&str, bool)>) -> (r: Self)
        ensures r@ == (NodeV::List {
            list_type: ListType::Task,
            items: items@.map_values(|t: (&str, bool)| task_item_v(t.0@, t.1)),
        }),
    {
        Node::List { list_type: ListType::Task, items: task_items(&items) }
    }

    /// Creates a horizontal rule
    pub fn horizontal_rule() -> (r: Self)
        ensures r@ == NodeV::ThematicBreak,
    {
        Node::ThematicBreak
    }

    /// Creates a simple table with headers and rows; every column is unaligned
    pub fn simple_table(headers: Vec<&str>, rows: Vec<Vec<&str>>) -> (r: Self)
        ensures r@ == (NodeV::Table {
            header: cells_from_strs_v(headers@, false),
            rows: rows_from_strs_v(rows@),
            alignments: Seq::new(headers@.len(), |i: int| TableAlignment::Unaligned),
            properties: default_props_v(),
        }),
    {
        let header = text_cells(&headers, false);
        let alignments = unaligned_columns(headers.len());
        Node::Table { header, rows: text_rows(&rows), alignments, properties: TableProperties::default() }
    }

    /// Creates a table with specific alignments
    pub fn table_with_alignments(headers: Vec<&str>, rows: Vec<Vec<&str>>, alignments: Vec<TableAlignment>) -> (r: Self)
        ensures r@ == (NodeV::Table {
            header: cells_from_strs_v(headers@, false),
            rows: rows_from_strs_v(rows@),
            alignments: alignments@,
            properties: default_props_v(),
        }),
    {
        Node::Table {
            header: text_cells(&headers, false),
            rows: text_rows(&rows),
            alignments,
            properties: TableProperties::default(),
        }
    }

    /// Creates a table with properties; header cells are marked as headers
    pub fn table_with_properties(headers: Vec<&str>, rows: Vec<Vec<&str>>, properties: TableProperties) -> (r: Self)
        ensures r@ == (NodeV::Table {
            header: cells_from_strs_v(headers@, true),
            rows: rows_from_strs_v(rows@),
            alignments: Seq::new(headers@.len(), |i: int| TableAlignment::Unaligned),
            properties: properties@,
        }),
    {
        let header = text_cells(&headers, true);
        let alignments = unaligned_columns(headers.len());
        Node::Table { header, rows: text_rows(&rows), alignments, properties }
    }

    /// Creates a full-featured table with alignments and properties
    pub fn create_enhanced_table(
        headers: Vec<&str>,
        rows: Vec<Vec<&str>>,
        alignments: Vec<TableAlignment>,
        properties: TableProperties,
    ) -> (r: Self)
        ensures r@ == (NodeV::Table {
            header: cells_from_strs_v(headers@, true),
            rows: rows_from_strs_v(rows@),
            alignments: alignments@,
            properties: properties@,
        }),
    {
        Node::Table { header: text_cells(&headers, true), rows: text_rows(&rows), alignments, properties }
    }

    /// Creates a footnote reference
    pub fn footnote_reference(label: &str) -> (r: Self)
        ensures r@ == (NodeV::FootnoteReference { label: label@, identifier: None }),
    {
        Node::FootnoteReference(FootnoteReference::new(label))
    }

    /// Creates a footnote definition
    pub fn footnote_definition(label: &str, text: &str) -> (r: Self)
        ensures r@ == (NodeV::FootnoteDefinition { label: label@, content: seq![para_v(text@)] }),
    {
        Node::FootnoteDefinition(FootnoteDefinition::paragraph(label, text))
    }

    /// Creates a definition list
    pub fn definition_list(items: Vec<(String, Vec<String>)>) -> (r: Self)
        ensures r@ == (NodeV::DefinitionList {
            items: items@.map_values(|it: (String, Vec<String>)| def_entry_v(it.0@, it.1@)),
        }),
    {
        let mut r: Vec<DefinitionItem> = Vec::new();
        let mut i: usize = 0;
        while i < items.len()
            invariant
                i <= items.len(),
                def_items_seq_v(r@) =~= items@.take(i as int).map_values(
                    |it: (String, Vec<String>)| def_entry_v(it.0@, it.1@),
                ),
            decreases items.len() - i,
        {
            let c = DefinitionItem {
                term: single_inline(InlineNode::text(items[i].0.as_str())),
                descriptions: desc_paragraphs(&items[i].1),
            };
            let ghost r0 = r@;
            r.push(c);
            proof {
                lemma_def_items_seq_v_push(r0, c);
                assert(r@ =~= r0.push(c));
                assert(items@.take(i + 1) =~= items@.take(i as int).push(items@[i as int]));
            }
            i = i + 1;
        }
        proof { assert(items@.take(i as int) =~= items@); }
        Node::DefinitionList { items: r }
    }

    /// Creates a math block
    pub fn math_block(math: &str) -> (r: Self)
        ensures r@ == (NodeV::MathBlock { math: math@ }),
    {
        Node::MathBlock { math: math.to_owned() }
    }

    /// Creates a new group node
    pub fn group(name: &str, children: Vec<Node>) -> (r: Self)
        ensures r matches Node::Group { name: n, children: c } && n@ == name@ && c == children,
    {
        Node::Group { name: name.to_owned(), children }
    }

    /// Returns this node as a heading if it is one
    pub fn as_heading(&self) -> (r: Option<(u8, &Vec<InlineNode>)>)
        ensures
            match self {
                Node::Heading { level, children } => r == Some((*level, children)),
                _ => r is None,
            },
    {
        match self {
            Node::Heading { level, children } => Some((*level, children)),
            _ => None,
        }
    }

    /// Returns this node as a paragraph if it is one
    pub fn as_paragraph(&self) -> (r: Option<&Vec<InlineNode>>)
        ensures
            match self {
                Node::Paragraph { children } => r == Some(children),
                _ => r is None,
            },
    {
        match self {
            Node::Paragraph { children } => Some(children),
            _ => None,
        }
    }

    /// Returns this node as a list if it is one
    pub fn as_list(&self) -> (r: Option<(&ListType, &Vec<ListItem>)>)
        ensures
            match self {
                Node::List { list_type, items } => r == Some((list_type, items)),
                _ => r is None,
            },
    {
        match self {
            Node::List { list_type, items } => Some((list_type, items)),
            _ => None,
        }
    }

    /// Returns this node as a code block (language, code) if it is one
    pub fn as_code_block(&self) -> (r: Option<(&str, &str)>)
        ensures
            match self {
                Node::CodeBlock { language, code } => r is Some && (r->0).0@ == language@ && (r->0).1@ == code@,
                _ => r is None,
            },
    {
        match self {
            Node::CodeBlock { language, code } => Some((language.as_str(), code.as_str())),
            _ => None,
        }
    }

    /// Returns this node as a blockquote if it is one
    pub fn as_blockquote(&self) -> (r: Option<&Vec<Node>>)
        ensures
            match self {
                Node::BlockQuote { children } => r == Some(children),
                _ => r is None,
            },
    {
        match self {
            Node::BlockQuote { children } => Some(children),
            _ => None,
        }
    }

    /// Returns this node as a table if it is one
    pub fn as_table(&self) -> (r: Option<(&Vec<TableCell>, &Vec<Vec<TableCell>>, &Vec<TableAlignment>, &TableProperties)>)
        ensures
            match self {
                Node::Table { header, rows, alignments, properties } => r == Some((header, rows, alignments, properties)),
                _ => r is None,
            },
    {
        match self {
            Node::Table { header, rows, alignments, properties } => Some((header, rows, alignments, properties)),
            _ => None,
        }
    }

    /// Returns this node as a footnote reference if it is one
    pub fn as_footnote_reference(&self) -> (r: Option<&FootnoteReference>)
        ensures
            match self {
                Node::FootnoteReference(x) => r == Some(x),
                _ => r is None,
            },
    {
        match self {
            Node::FootnoteReference(x) => Some(x),
            _ => None,
        }
    }

    /// Returns this node as a footnote definition if it is one
    pub fn as_footnote_definition(&self) -> (r: Option<&FootnoteDefinition>)
        ensures
            match self {
                Node::FootnoteDefinition(x) => r == Some(x),
                _ => r is None,
            },
    {
        match self {
            Node::FootnoteDefinition(x) => Some(x),
            _ => None,
        }
    }

    /// Returns this node as a definition list if it is one
    pub fn as_definition_list(&self) -> (r: Option<&Vec<DefinitionItem>>)
        ensures
            match self {
                Node::DefinitionList { items } => r == Some(items),
                _ => r is None,
            },
    {
        match self {
            Node::DefinitionList { items } => Some(items),
            _ => None,
        }
    }

    /// Returns this node as a math block if it is one
    pub fn as_math_block(&self) -> (r: Option<&str>)
        ensures
            match self {
                Node::MathBlock { math } => r is Some && r->0@ == math@,
                _ => r is None,
            },
    {
        match self {
            Node::MathBlock { math } => Some(math.as_str()),
            _ => None,
        }
    }

    /// Returns whether this node is a thematic break
    pub fn is_thematic_break(&self) -> (r: bool)
        ensures r == self is ThematicBreak,
    {
        match self {
            Node::ThematicBreak => true,
            _ => false,
        }
    }

    /// Returns the group name and children if this node is a group
    pub fn as_group(&self) -> (r: Option<(&str, &Vec<Node>)>)
        ensures
            match self {
                Node::Group { name, children } => r is Some && (r->0).0@ == name@ && (r->0).1 == children,
                _ => r is None,
            },
    {
        match self {
            Node::Group { name, children } => Some((name.as_str(), children)),
            _ => None,
        }
    }
}

} // verus!
