//! Converting a node from one kind to another.
use vstd::prelude::*;
use crate::document::{Document, lemma_nodes_update};
use crate::error::EditError;
use crate::inline::{
    InlineNode, InlineV, inlines_seq_v, inline_v, copy_inline, copy_inlines, lemma_inlines_seq_v_index,
    lemma_inlines_push, single_inline, plain_text_v,
};
use crate::node::{ListItem, ListItemV, ListType, Node, NodeV, nodes_seq_v, list_items_seq_v, lemma_nodes_seq_v_index, lemma_list_items_seq_v_index, copy_node, single_node, text_item_v, task_item_v};
use crate::editor::command::{Command};
use crate::editor::text_commands::with_node_at;

verus! {

/// The kind a node is converted to
pub enum NodeConversionType {
    /// Convert to paragraph
    Paragraph,
    /// Convert to heading with level
    Heading(u8),
    /// Convert to list with type
    List(ListType),
    /// Convert to code block with language
    CodeBlock(String),
    /// Convert to blockquote
    BlockQuote,
}

/// The plain text of an inline node: text runs, link and footnote
/// contents, image alt text, math, labels, shortcodes, code, URLs and
/// names, with a newline for a hard break and a space for a soft one.
pub open spec fn inline_plain(n: InlineV) -> Seq<char>
    decreases n, 1int,
{
    match n {
        InlineV::Text { text, .. } => text,
        InlineV::Link { children, .. } => inlines_plain(children),
        InlineV::Image { alt, .. } => alt,
        InlineV::Math { math } => math,
        InlineV::FootnoteRef { label } => label,
        InlineV::HardBreak => seq!['\n'],
        InlineV::SoftBreak => seq![' '],
        InlineV::Emoji { shortcode } => shortcode,
        InlineV::CodeSpan { code } => code,
        InlineV::AutoLink { url, .. } => url,
        InlineV::InlineFootnote { children } => inlines_plain(children),
        InlineV::Mention { name, .. } => name,
    }
}

/// The plain text of a run of inline nodes, one after another.
pub open spec fn inlines_plain(s: Seq<InlineV>) -> Seq<char>
    decreases s, 0int,
{
    if s.len() == 0 {
        Seq::empty()
    } else {
        inlines_plain(s.drop_last()) + inline_plain(s.last())
    }
}

proof fn lemma_inlines_plain_push(s: Seq<InlineV>, x: InlineV)
    ensures inlines_plain(s.push(x)) == inlines_plain(s) + inline_plain(x),
{
    assert(s.push(x).drop_last() =~= s);
}

/// The plain text of one inline node.
pub fn inline_text(n: &InlineNode) -> (r: String)
    ensures r@ == inline_plain(n@),
    decreases n,
{
    match n {
        InlineNode::Text(t) => t.text.clone(),
        InlineNode::Link { children, .. } => extract_text_from_inline_nodes(children),
        InlineNode::Image { alt, .. } => alt.clone(),
        InlineNode::Math { math } => math.clone(),
        InlineNode::FootnoteRef { label } => label.clone(),
        InlineNode::HardBreak => {
            proof { reveal_strlit("\n"); }
            String::from_str("\n")
        },
        InlineNode::SoftBreak => {
            proof { reveal_strlit(" "); }
            String::from_str(" ")
        },
        InlineNode::Emoji { shortcode } => shortcode.clone(),
        InlineNode::CodeSpan { code } => code.clone(),
        InlineNode::AutoLink { url, .. } => url.clone(),
        InlineNode::InlineFootnote { children } => extract_text_from_inline_nodes(children),
        InlineNode::Mention { name, .. } => name.clone(),
    }
}

/// The plain text of a run of inline nodes.
pub fn extract_text_from_inline_nodes(nodes: &Vec<InlineNode>) -> (r: String)
    ensures r@ == inlines_plain(inlines_seq_v(nodes@)),
    decreases nodes, 0int,
{
    let mut result = String::new();
    let mut i: usize = 0;
    proof { assert(nodes@.take(0) =~= Seq::<InlineNode>::empty()); }
    while i < nodes.len()
        invariant
            i <= nodes.len(),
            result@ == inlines_plain(inlines_seq_v(nodes@.take(i as int))),
        decreases nodes.len() - i,
    {
        proof { vstd::std_specs::vec::axiom_vec_index_decreases(*nodes, i as int); }
        let t = inline_text(&nodes[i]);
        proof {
            assert(nodes@.take(i + 1) =~= nodes@.take(i as int).push(nodes@[i as int]));
            lemma_inlines_push(nodes@.take(i as int), nodes@[i as int]);
            lemma_inlines_plain_push(inlines_seq_v(nodes@.take(i as int)), nodes@[i as int]@);
        }
        result.append(t.as_str());
        i = i + 1;
    }
    proof { assert(nodes@.take(i as int) =~= nodes@); }
    result
}

/// The inline content a list item contributes: the children of its first
/// child when that is a paragraph.
pub open spec fn item_content(li: ListItemV) -> Seq<InlineV> {
    if li.children.len() > 0 && li.children[0] is Paragraph {
        li.children[0]->Paragraph_children
    } else {
        Seq::empty()
    }
}

/// The inline content of the first `k` list items, one after another.
pub open spec fn items_content(items: Seq<ListItemV>, k: int) -> Seq<InlineV>
    decreases k,
{
    if k <= 0 {
        Seq::empty()
    } else {
        items_content(items, k - 1) + item_content(items[k - 1])
    }
}

/// The children of the first paragraph at or after `j`.
pub open spec fn first_para_from(children: Seq<NodeV>, j: int) -> Option<Seq<InlineV>>
    decreases children.len() - j,
{
    if j < 0 || j >= children.len() {
        None
    } else if children[j] is Paragraph {
        Some(children[j]->Paragraph_children)
    } else {
        first_para_from(children, j + 1)
    }
}

/// The inline content a node is converted from, if it has one.
pub open spec fn convert_content(n: NodeV) -> Option<Seq<InlineV>> {
    match n {
        NodeV::Paragraph { children } => Some(children),
        NodeV::Heading { children, .. } => Some(children),
        NodeV::List { items, .. } => {
            let c = items_content(items, items.len() as int);
            if c.len() == 0 { None } else { Some(c) }
        },
        NodeV::CodeBlock { code, .. } => Some(seq![plain_text_v(code)]),
        NodeV::BlockQuote { children } => first_para_from(children, 0),
        _ => None,
    }
}

/// The node built from the content for the target kind. Lists and code
/// blocks take the plain text of the content.
pub open spec fn converted(c: Seq<InlineV>, target: NodeConversionType) -> NodeV {
    match target {
        NodeConversionType::Paragraph => NodeV::Paragraph { children: c },
        NodeConversionType::Heading(level) => NodeV::Heading { level, children: c },
        NodeConversionType::List(t) => NodeV::List {
            list_type: t,
            items: seq![if t == ListType::Task { task_item_v(inlines_plain(c), false) } else { text_item_v(inlines_plain(c)) }],
        },
        NodeConversionType::CodeBlock(language) => NodeV::CodeBlock { language: language@, code: inlines_plain(c) },
        NodeConversionType::BlockQuote => NodeV::BlockQuote { children: seq![NodeV::Paragraph { children: c }] },
    }
}

/// The inline content of the list items, gathered at run time.
fn gather_items(items: &Vec<ListItem>) -> (r: Vec<InlineNode>)
    ensures inlines_seq_v(r@) == items_content(list_items_seq_v(items@), items.len() as int),
{
    let ghost s = list_items_seq_v(items@);
    proof { lemma_list_items_seq_v_index(items@); }
    let mut r: Vec<InlineNode> = Vec::new();
    let mut i: usize = 0;
    while i < items.len()
        invariant
            i <= items.len(),
            s == list_items_seq_v(items@),
            s.len() == items.len(),
            forall|j: int| 0 <= j < items.len() ==> #[trigger] s[j] == items@[j]@,
            inlines_seq_v(r@) == items_content(s, i as int),
        decreases items.len() - i,
    {
        let li = &items[i];
        proof { lemma_nodes_seq_v_index(li.children@); }
        if li.children.len() > 0 {
            match &li.children[0] {
                Node::Paragraph { children } => {
                    proof { lemma_inlines_seq_v_index(children@); }
                    let mut k: usize = 0;
                    let ghost r0 = inlines_seq_v(r@);
                    proof { assert(r0 + inlines_seq_v(children@).take(0) =~= r0); }
                    while k < children.len()
                        invariant
                            k <= children.len(),
                            inlines_seq_v(r@) == r0 + inlines_seq_v(children@).take(k as int),
                            inlines_seq_v(children@).len() == children.len(),
                            forall|j: int| 0 <= j < children.len() ==> #[trigger] inlines_seq_v(children@)[j] == inline_v(&children@[j]),
                        decreases children.len() - k,
                    {
                        let x = copy_inline(&children[k]);
                        proof {
                            lemma_inlines_push(r@, x);
                            assert(r0 + inlines_seq_v(children@).take(k + 1)
                                =~= (r0 + inlines_seq_v(children@).take(k as int)).push(x@));
                        }
                        r.push(x);
                        k = k + 1;
                    }
                    proof { assert(inlines_seq_v(children@).take(k as int) =~= inlines_seq_v(children@)); }
                },
                _ => {
                    proof { assert(items_content(s, i as int) + Seq::<InlineV>::empty() =~= items_content(s, i as int)); }
                },
            }
        } else {
            proof { assert(items_content(s, i as int) + Seq::<InlineV>::empty() =~= items_content(s, i as int)); }
        }
        i = i + 1;
    }
    r
}

/// The children of the first paragraph among the nodes, if any.
fn find_first_paragraph(children: &Vec<Node>) -> (r: Option<Vec<InlineNode>>)
    ensures
        match first_para_from(nodes_seq_v(children@), 0) {
            Some(c) => r is Some && inlines_seq_v(r->0@) == c,
            None => r is None,
        },
{
    let ghost s = nodes_seq_v(children@);
    proof { lemma_nodes_seq_v_index(children@); }
    let mut i: usize = 0;
    while i < children.len()
        invariant
            i <= children.len(),
            s == nodes_seq_v(children@),
            s.len() == children.len(),
            forall|j: int| 0 <= j < children.len() ==> #[trigger] s[j] == children@[j]@,
            first_para_from(s, 0) == first_para_from(s, i as int),
        decreases children.len() - i,
    {
        match &children[i] {
            Node::Paragraph { children: c } => {
                return Some(copy_inlines(c));
            },
            _ => {},
        }
        i = i + 1;
    }
    None
}

/// The inline content of a node for conversion, at run time.
fn content_of(n: &Node) -> (r: Option<Vec<InlineNode>>)
    ensures
        match convert_content(n@) {
            Some(c) => r is Some && inlines_seq_v(r->0@) == c,
            None => r is None,
        },
{
    match n {
        Node::Paragraph { children } => {
            let v = copy_inlines(children);
            assert(convert_content(n@) == Some(inlines_seq_v(v@)));
            Some(v)
        },
        Node::Heading { children, .. } => {
            let v = copy_inlines(children);
            assert(convert_content(n@) == Some(inlines_seq_v(v@)));
            Some(v)
        },
        Node::List { items, .. } => {
            let c = gather_items(items);
            proof { lemma_inlines_seq_v_index(c@); lemma_list_items_seq_v_index(items@); }
            assert(n@ == NodeV::List { list_type: n->List_list_type, items: list_items_seq_v(items@) });
            if c.len() == 0 {
                assert(convert_content(n@) is None);
                None
            } else {
                assert(convert_content(n@) == Some(inlines_seq_v(c@)));
                Some(c)
            }
        },
        Node::CodeBlock { code, .. } => {
            let v = single_inline(InlineNode::text(code.as_str()));
            assert(inlines_seq_v(v@) == seq![plain_text_v(code@)]);
            Some(v)
        },
        Node::BlockQuote { children } => {
            let r = find_first_paragraph(children);
            assert(n@ == NodeV::BlockQuote { children: nodes_seq_v(children@) });
            r
        },
        _ => None,
    }
}

/// Builds the converted node from the content.
fn build_converted(content: Vec<InlineNode>, target: &NodeConversionType) -> (r: Node)
    ensures r@ == converted(inlines_seq_v(content@), *target),
{
    match target {
        NodeConversionType::Paragraph => Node::Paragraph { children: content },
        NodeConversionType::Heading(level) => Node::Heading { level: *level, children: content },
        NodeConversionType::List(t) => {
            let text = extract_text_from_inline_nodes(&content);
            let item = match t {
                ListType::Task => ListItem::task(text.as_str(), false),
                _ => ListItem::paragraph(text.as_str()),
            };
            let mut items: Vec<ListItem> = Vec::new();
            items.push(item);
            proof {
                crate::node::lemma_list_items_seq_v_push(Seq::empty(), item);
                assert(items@ =~= Seq::<ListItem>::empty().push(item));
            }
            Node::List { list_type: *t, items }
        },
        NodeConversionType::CodeBlock(language) => {
            let text = extract_text_from_inline_nodes(&content);
            Node::code_block(text.as_str(), language.as_str())
        },
        NodeConversionType::BlockQuote => Node::BlockQuote { children: single_node(Node::Paragraph { children: content }) },
    }
}

/// Command to convert a node from one kind to another
pub struct ConvertNodeTypeCommand {
    node_index: usize,
    target_type: NodeConversionType,
    original_node: Option<Node>,
}

impl ConvertNodeTypeCommand {
    /// The index of the node to convert.
    pub closed spec fn node(&self) -> usize {
        self.node_index
    }

    /// The kind the node is converted to.
    pub closed spec fn target(&self) -> NodeConversionType {
        self.target_type
    }

    /// The node as it was before the last execution, if any.
    pub closed spec fn saved(&self) -> Option<NodeV> {
        match self.original_node {
            Some(n) => Some(n@),
            None => None,
        }
    }

    /// Creates a command that converts the node at `node_index` to `target_type`
    pub fn new(node_index: usize, target_type: NodeConversionType) -> (r: Self)
        ensures r.node() == node_index, r.target() == target_type, r.saved() is None,
    {
        ConvertNodeTypeCommand { node_index, target_type, original_node: None }
    }
}

impl Command for ConvertNodeTypeCommand {
    open spec fn can_execute(&self, document: &Document) -> bool {
        true
    }

    open spec fn can_undo(&self, document: &Document) -> bool {
        true
    }

    /// Replaces the node by one of the target kind built from its inline
    /// content, keeping the original for undo (also when the node has no
    /// content to convert).
    fn execute(&mut self, document: &mut Document) -> (r: Result<(), EditError>)
        ensures
            final(self).node() == old(self).node(),
            final(self).target() == old(self).target(),
            old(self).node() >= old(document).nodes.len() ==> (r matches Err(EditError::IndexOutOfBounds))
                && final(document)@ == old(document)@ && final(self).saved() == old(self).saved(),
            old(self).node() < old(document).nodes.len() ==> {
                let i = old(self).node() as int;
                let n = old(document)@.nodes[i];
                &&& final(self).saved() == Some(n)
                &&& match convert_content(n) {
                    Some(c) => r is Ok && final(document)@ == with_node_at(old(document)@, i, converted(c, old(self).target())),
                    None => (r matches Err(EditError::UnsupportedOperation)) && final(document)@ == old(document)@,
                }
            },
    {
        proof { lemma_nodes_seq_v_index(document.nodes@); }
        if self.node_index >= document.nodes.len() {
            return Err(EditError::IndexOutOfBounds);
        }
        let i = self.node_index;
        self.original_node = Some(copy_node(&document.nodes[i]));
        let content = match content_of(&document.nodes[i]) {
            Some(c) => c,
            None => { return Err(EditError::UnsupportedOperation); },
        };
        let new_node = build_converted(content, &self.target_type);
        proof { lemma_nodes_update(document.nodes@, i as int, new_node); }
        document.nodes.set(i, new_node);
        Ok(())
    }

    /// Puts the original node back.
    fn undo(&mut self, document: &mut Document) -> (r: Result<(), EditError>)
        ensures
            *final(self) == *old(self),
            old(self).node() >= old(document).nodes.len() ==> (r matches Err(EditError::IndexOutOfBounds))
                && final(document)@ == old(document)@,
            old(self).node() < old(document).nodes.len() ==> match old(self).saved() {
                Some(n) => r is Ok && final(document)@ == with_node_at(old(document)@, old(self).node() as int, n),
                None => (r matches Err(EditError::OperationFailed)) && final(document)@ == old(document)@,
            },
    {
        if self.node_index >= document.nodes.len() {
            return Err(EditError::IndexOutOfBounds);
        }
        match &self.original_node {
            Some(n) => {
                let c = copy_node(n);
                proof { lemma_nodes_update(document.nodes@, self.node_index as int, c); }
                document.nodes.set(self.node_index, c);
                Ok(())
            },
            None => Err(EditError::OperationFailed),
        }
    }
}

} // verus!
