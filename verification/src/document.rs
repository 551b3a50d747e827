use vstd::prelude::*;
use crate::inline::{InlineNode, InlineV, TextNode, inlines_seq_v, inline_v, opt_str_v, lemma_inlines_seq_v_index, lemma_inlines_push, plain_text_v, copy_inlines};
use crate::node::{ListType, Node, NodeV, nodes_seq_v, lemma_nodes_seq_v_index, lemma_nodes_seq_v_push, para_v, text_item_v, task_item_v, clamp_level};
use crate::selection::{Selection, SelectionV, opt_selection_v};
use crate::text::{blen, is_boundary, char_at_byte, byte_len, char_index_of_byte, insert_chars, sub_chars, concat};

verus! {

/// The main document structure: a list of block nodes, the selection, and
/// metadata.
#[derive(Debug, PartialEq, Eq)]
pub struct Document {
    /// The document's block nodes
    pub nodes: Vec<Node>,
    /// Optional selection state
    pub selection: Option<Selection>,
    /// Document metadata
    pub metadata: Option<DocumentMetadata>,
}

/// Metadata about the document
#[derive(Debug, PartialEq, Eq)]
pub struct DocumentMetadata {
    /// Document title
    pub title: Option<String>,
    /// Document author
    pub author: Option<String>,
    /// Document date
    pub date: Option<String>,
    /// Other metadata as key-value pairs
    pub custom: Vec<(String, String)>,
}

pub struct MetadataV {
    pub title: Option<Seq<char>>,
    pub author: Option<Seq<char>>,
    pub date: Option<Seq<char>>,
    pub custom: Seq<(Seq<char>, Seq<char>)>,
}

pub struct DocumentV {
    pub nodes: Seq<NodeV>,
    pub selection: Option<SelectionV>,
    pub metadata: Option<MetadataV>,
}

impl View for DocumentMetadata {
    type V = MetadataV;

    open spec fn view(&self) -> MetadataV {
        MetadataV {
            title: opt_str_v(self.title),
            author: opt_str_v(self.author),
            date: opt_str_v(self.date),
            custom: self.custom@.map_values(|kv: (String, String)| (kv.0@, kv.1@)),
        }
    }
}

pub open spec fn opt_metadata_v(m: Option<DocumentMetadata>) -> Option<MetadataV> {
    match m {
        Some(x) => Some(x@),
        None => None,
    }
}

impl View for Document {
    type V = DocumentV;

    open spec fn view(&self) -> DocumentV {
        DocumentV {
            nodes: nodes_seq_v(self.nodes@),
            selection: opt_selection_v(self.selection),
            metadata: opt_metadata_v(self.metadata),
        }
    }
}

/// Metadata with nothing set.
pub open spec fn empty_metadata_v() -> MetadataV {
    MetadataV { title: None, author: None, date: None, custom: Seq::empty() }
}

impl Default for DocumentMetadata {
    fn default() -> (r: Self)
        ensures r@ == empty_metadata_v(),
    {
        let r = DocumentMetadata { title: None, author: None, date: None, custom: Vec::new() };
        proof { assert(r@.custom =~= Seq::empty()); }
        r
    }
}

impl Default for Document {
    fn default() -> (r: Self)
        ensures r@ == (DocumentV { nodes: Seq::empty(), selection: None, metadata: None }), r.nodes@.len() == 0,
    {
        let r = Document { nodes: Vec::new(), selection: None, metadata: None };
        proof { assert(nodes_seq_v(r.nodes@) =~= Seq::empty()); }
        r
    }
}

/// A copy of the metadata.
pub fn copy_metadata(m: &DocumentMetadata) -> (r: DocumentMetadata)
    ensures r@ == m@,
{
    let mut custom: Vec<(String, String)> = Vec::new();
    let mut i: usize = 0;
    while i < m.custom.len()
        invariant
            i <= m.custom.len(),
            custom@.map_values(|kv: (String, String)| (kv.0@, kv.1@))
                =~= m.custom@.take(i as int).map_values(|kv: (String, String)| (kv.0@, kv.1@)),
        decreases m.custom.len() - i,
    {
        let kv = &m.custom[i];
        let pair = (kv.0.clone(), kv.1.clone());
        let ghost c0 = custom@;
        custom.push(pair);
        proof {
            let f = |kv: (String, String)| (kv.0@, kv.1@);
            assert(m.custom@.take(i + 1) =~= m.custom@.take(i as int).push(m.custom@[i as int]));
            assert(custom@ =~= c0.push(pair));
            assert(custom@.map_values(f) =~= c0.map_values(f).push(f(pair)));
            assert(m.custom@.take(i + 1).map_values(f) =~= m.custom@.take(i as int).map_values(f).push(f(m.custom@[i as int])));
            assert(f(pair) == f(m.custom@[i as int]));
        }
        i = i + 1;
    }
    proof { assert(m.custom@.take(i as int) =~= m.custom@); }
    DocumentMetadata {
        title: crate::inline::copy_opt_string(&m.title),
        author: crate::inline::copy_opt_string(&m.author),
        date: crate::inline::copy_opt_string(&m.date),
        custom,
    }
}

impl Clone for DocumentMetadata {
    fn clone(&self) -> (r: Self)
        ensures r@ == self@,
    {
        copy_metadata(self)
    }
}

impl Clone for Document {
    fn clone(&self) -> (r: Self)
        ensures r@ == self@,
    {
        let selection = match &self.selection {
            Some(s) => Some(s.clone()),
            None => None,
        };
        let metadata = match &self.metadata {
            Some(m) => Some(copy_metadata(m)),
            None => None,
        };
        Document { nodes: crate::node::copy_nodes(&self.nodes), selection, metadata }
    }
}

impl AsRef<Document> for Document {
    fn as_ref(&self) -> (r: &Document)
        ensures r == self,
    {
        self
    }
}

// ---------------------------------------------------------------------------
// Measuring inline content: text counts its UTF-8 bytes, anything else one.
// ---------------------------------------------------------------------------

/// The length the editor gives an inline node.
pub open spec fn inline_len(i: InlineV) -> int {
    match i {
        InlineV::Text { text, .. } => blen(text),
        _ => 1,
    }
}

/// Total length of a run of inline nodes.
pub open spec fn inlines_len(s: Seq<InlineV>) -> int
    decreases s.len(),
{
    if s.len() == 0 {
        0
    } else {
        inlines_len(s.drop_last()) + inline_len(s.last())
    }
}

/// Where the inline node at index `j` starts.
pub open spec fn start_of(s: Seq<InlineV>, j: int) -> int {
    inlines_len(s.take(j))
}

/// Whether the text node at `j` spans byte offset `off` (ends included).
pub open spec fn text_spans(s: Seq<InlineV>, j: int, off: int) -> bool {
    &&& s[j] is Text
    &&& start_of(s, j) <= off <= start_of(s, j) + blen(s[j]->text)
}

/// The first index, from `j` on, of a text node spanning `off`; `s.len()` if none.
pub open spec fn slot_from(s: Seq<InlineV>, off: int, j: int) -> int
    decreases s.len() - j,
{
    if j < 0 || j >= s.len() {
        s.len() as int
    } else if text_spans(s, j, off) {
        j
    } else {
        slot_from(s, off, j + 1)
    }
}

/// The text node that receives an edit at byte offset `off`.
pub open spec fn text_slot(s: Seq<InlineV>, off: int) -> int {
    slot_from(s, off, 0)
}

/// The byte offset inside the slot's text.
pub open spec fn slot_offset(s: Seq<InlineV>, off: int) -> int {
    off - start_of(s, text_slot(s, off))
}

/// An edit at `off` cuts text only where a character starts.
pub open spec fn slot_ok(s: Seq<InlineV>, off: int) -> bool {
    text_slot(s, off) < s.len() ==> is_boundary(s[text_slot(s, off)]->text, slot_offset(s, off))
}

pub proof fn lemma_inlines_len_push(s: Seq<InlineV>, x: InlineV)
    ensures inlines_len(s.push(x)) == inlines_len(s) + inline_len(x),
{
    assert(s.push(x).drop_last() =~= s);
}

pub proof fn lemma_start_of_step(s: Seq<InlineV>, j: int)
    requires 0 <= j < s.len(),
    ensures start_of(s, j + 1) == start_of(s, j) + inline_len(s[j]),
{
    assert(s.take(j + 1) =~= s.take(j).push(s[j]));
    lemma_inlines_len_push(s.take(j), s[j]);
}

pub proof fn lemma_slot_from_range(s: Seq<InlineV>, off: int, j: int)
    requires 0 <= j <= s.len(),
    ensures
        j <= slot_from(s, off, j) <= s.len(),
        slot_from(s, off, j) < s.len() ==> text_spans(s, slot_from(s, off, j), off),
        forall|k: int| j <= k < slot_from(s, off, j) ==> !text_spans(s, k, off),
    decreases s.len() - j,
{
    if j < s.len() && !text_spans(s, j, off) {
        lemma_slot_from_range(s, off, j + 1);
    }
}

/// The text of the node at `j` with `t` inserted at byte `k`.
pub open spec fn text_with_insert(s: Seq<InlineV>, j: int, k: int, t: Seq<char>) -> InlineV {
    let old_text = s[j]->text;
    let ci = char_at_byte(old_text, k);
    InlineV::Text { text: old_text.take(ci) + t + old_text.skip(ci), formatting: s[j]->formatting }
}

/// Byte length of an inline node measured at run time.
fn inline_length(n: &InlineNode) -> (r: usize)
    ensures r == inline_len(n@),
{
    match n {
        InlineNode::Text(t) => byte_len(t.text.as_str()),
        _ => 1,
    }
}

/// Finds the text node that receives an edit at byte offset `off`, with
/// its start offset.
pub fn find_text_slot(children: &Vec<InlineNode>, off: usize) -> (r: (usize, u128))
    ensures
        r.0 == text_slot(inlines_seq_v(children@), off as int),
        r.0 < children.len() ==> r.1 == start_of(inlines_seq_v(children@), r.0 as int),
{
    let ghost s = inlines_seq_v(children@);
    proof {
        lemma_inlines_seq_v_index(children@);
        lemma_slot_from_range(s, off as int, 0);
        assert(s.take(0) =~= Seq::<InlineV>::empty());
    }
    let mut i: usize = 0;
    let mut cur: u128 = 0;
    while i < children.len()
        invariant
            s == inlines_seq_v(children@),
            s.len() == children.len(),
            i <= children.len(),
            cur == start_of(s, i as int),
            cur <= 0x1_0000_0000_0000_0000u128 * (i as u128),
            slot_from(s, off as int, 0) == slot_from(s, off as int, i as int),
            forall|j: int| 0 <= j < s.len() ==> #[trigger] s[j] == inline_v(&children@[j]),
        decreases children.len() - i,
    {
        let w = inline_length(&children[i]);
        proof { lemma_start_of_step(s, i as int); }
        let is_text = match &children[i] {
            InlineNode::Text(_) => true,
            _ => false,
        };
        if is_text && (off as u128) >= cur && (off as u128) <= cur + (w as u128) {
            return (i, cur);
        }
        cur = cur + (w as u128);
        i = i + 1;
    }
    (i, cur)
}


/// Children after inserting `t` at byte offset `off` (see `Document::insert_text`).
pub open spec fn insert_result(ch: Seq<InlineV>, off: int, t: Seq<char>) -> Seq<InlineV> {
    if ch.len() == 0 {
        seq![plain_text_v(t)]
    } else if text_slot(ch, off) < ch.len() {
        let j = text_slot(ch, off);
        ch.update(j, text_with_insert(ch, j, off - start_of(ch, j), t))
    } else if ch.last() is Text {
        ch.update(ch.len() - 1, InlineV::Text { text: ch.last()->text + t, formatting: ch.last()->formatting })
    } else {
        ch.push(plain_text_v(t))
    }
}

/// The two halves of a paragraph split at byte offset `off`.
pub open spec fn split_result(ch: Seq<InlineV>, off: int) -> (Seq<InlineV>, Seq<InlineV>) {
    let j = text_slot(ch, off);
    if j < ch.len() {
        let text = ch[j]->text;
        let fmt = ch[j]->formatting;
        let ci = char_at_byte(text, off - start_of(ch, j));
        let before = if ci > 0 { ch.take(j).push(InlineV::Text { text: text.take(ci), formatting: fmt }) } else { ch.take(j) };
        let after_head = if ci < text.len() { seq![InlineV::Text { text: text.skip(ci), formatting: fmt }] } else { Seq::empty() };
        (before, after_head + ch.skip(j + 1))
    } else {
        (ch, Seq::empty())
    }
}

/// A vector of inline nodes whose model is `s` updated at `j`.
proof fn lemma_inlines_update(v: Seq<InlineNode>, j: int, x: InlineNode)
    requires 0 <= j < v.len(),
    ensures inlines_seq_v(v.update(j, x)) == inlines_seq_v(v).update(j, x@),
{
    lemma_inlines_seq_v_index(v);
    lemma_inlines_seq_v_index(v.update(j, x));
    assert(inlines_seq_v(v.update(j, x)) =~= inlines_seq_v(v).update(j, x@));
}

/// The children of a paragraph after inserting `t` at byte offset `off`.
fn inlines_with_insert(children: &Vec<InlineNode>, off: usize, t: &str) -> (r: Vec<InlineNode>)
    requires slot_ok(inlines_seq_v(children@), off as int),
    ensures inlines_seq_v(r@) == insert_result(inlines_seq_v(children@), off as int, t@),
{
    let ghost s = inlines_seq_v(children@);
    proof { lemma_inlines_seq_v_index(children@); }
    let mut r = copy_inlines(children);
    if children.len() == 0 {
        r.push(InlineNode::text(t));
        proof {
            assert(r@.len() == 1);
            lemma_inlines_seq_v_index(r@);
            assert(inlines_seq_v(r@) =~= seq![plain_text_v(t@)]);
        }
        return r;
    }
    let (j, start) = find_text_slot(children, off);
    proof { lemma_slot_from_range(s, off as int, 0); }
    if j < children.len() {
        match &children[j] {
            InlineNode::Text(tn) => {
                let k = ((off as u128) - start) as usize;
                let ci = char_index_of_byte(tn.text.as_str(), k);
                match ci {
                    Some(ci) => {
                        let nt = insert_chars(tn.text.as_str(), ci, t);
                        let node = InlineNode::Text(TextNode { text: nt, formatting: tn.formatting });
                        proof { lemma_inlines_update(r@, j as int, node); }
                        r.set(j, node);
                    },
                    None => {},
                }
            },
            _ => {},
        }
        return r;
    }
    let last = children.len() - 1;
    match &children[last] {
        InlineNode::Text(tn) => {
            let nt = concat(tn.text.as_str(), t);
            let node = InlineNode::Text(TextNode { text: nt, formatting: tn.formatting });
            proof { lemma_inlines_update(r@, last as int, node); }
            r.set(last, node);
        },
        _ => {
            let node = InlineNode::text(t);
            proof { lemma_inlines_push(r@, node); }
            r.push(node);
        },
    }
    r
}

/// Copies of the inline nodes from index `a` up to index `b`.
pub fn copy_inline_range(v: &Vec<InlineNode>, a: usize, b: usize) -> (r: Vec<InlineNode>)
    requires a <= b <= v.len(),
    ensures inlines_seq_v(r@) == inlines_seq_v(v@).subrange(a as int, b as int),
{
    proof { lemma_inlines_seq_v_index(v@); }
    let mut r: Vec<InlineNode> = Vec::new();
    let mut i: usize = a;
    proof { assert(inlines_seq_v(r@) =~= inlines_seq_v(v@).subrange(a as int, a as int)); }
    while i < b
        invariant
            a <= i <= b <= v.len(),
            inlines_seq_v(v@).len() == v.len(),
            forall|k: int| 0 <= k < v.len() ==> #[trigger] inlines_seq_v(v@)[k] == crate::inline::inline_v(&v@[k]),
            inlines_seq_v(r@) == inlines_seq_v(v@).subrange(a as int, i as int),
        decreases b - i,
    {
        let c = crate::inline::copy_inline(&v[i]);
        proof { lemma_inlines_push(r@, c); }
        r.push(c);
        proof { assert(inlines_seq_v(r@) =~= inlines_seq_v(v@).subrange(a as int, i + 1)); }
        i = i + 1;
    }
    r
}

/// The two halves of the children of a paragraph split at byte offset `off`.
fn split_inlines(children: &Vec<InlineNode>, off: usize) -> (r: (Vec<InlineNode>, Vec<InlineNode>))
    requires slot_ok(inlines_seq_v(children@), off as int),
    ensures
        inlines_seq_v(r.0@) == split_result(inlines_seq_v(children@), off as int).0,
        inlines_seq_v(r.1@) == split_result(inlines_seq_v(children@), off as int).1,
{
    let ghost s = inlines_seq_v(children@);
    proof {
        lemma_inlines_seq_v_index(children@);
        lemma_slot_from_range(s, off as int, 0);
    }
    let (j, start) = find_text_slot(children, off);
    let n = children.len();
    if j >= n {
        let before = copy_inlines(children);
        let after: Vec<InlineNode> = Vec::new();
        proof { assert(inlines_seq_v(after@) =~= Seq::<InlineV>::empty()); }
        return (before, after);
    }
    let mut before = copy_inline_range(children, 0, j);
    let tail = copy_inline_range(children, j + 1, n);
    proof {
        assert(s.subrange(0, j as int) =~= s.take(j as int));
        assert(s.subrange(j + 1, n as int) =~= s.skip(j + 1));
    }
    match &children[j] {
        InlineNode::Text(tn) => {
            let k = ((off as u128) - start) as usize;
            let text = tn.text.as_str();
            let ci = match char_index_of_byte(text, k) {
                Some(ci) => ci,
                None => 0,
            };
            let len = text.unicode_len();
            if ci > 0 {
                let node = InlineNode::Text(TextNode { text: sub_chars(text, 0, ci), formatting: tn.formatting });
                proof {
                    lemma_inlines_push(before@, node);
                    assert(text@.subrange(0, ci as int) =~= text@.take(ci as int));
                }
                before.push(node);
            }
            let mut after: Vec<InlineNode> = Vec::new();
            if ci < len {
                let node = InlineNode::Text(TextNode { text: sub_chars(text, ci, len), formatting: tn.formatting });
                proof {
                    lemma_inlines_push(after@, node);
                    assert(text@.subrange(ci as int, len as int) =~= text@.skip(ci as int));
                }
                after.push(node);
            }
            let ghost after_head = inlines_seq_v(after@);
            let mut i: usize = 0;
            while i < tail.len()
                invariant
                    i <= tail.len(),
                    inlines_seq_v(after@) == after_head + inlines_seq_v(tail@).take(i as int),
                decreases tail.len() - i,
            {
                let c = crate::inline::copy_inline(&tail[i]);
                proof {
                    lemma_inlines_push(after@, c);
                    lemma_inlines_seq_v_index(tail@);
                    assert(inlines_seq_v(tail@).take(i + 1) =~= inlines_seq_v(tail@).take(i as int).push(tail@[i as int]@));
                }
                after.push(c);
                i = i + 1;
            }
            proof {
                lemma_inlines_seq_v_index(tail@);
                assert(inlines_seq_v(tail@).take(i as int) =~= inlines_seq_v(tail@));
            }
            (before, after)
        },
        _ => {
            proof { assert(false); }
            (before, tail)
        },
    }
}

/// The model of a node vector after replacing the node at `j`.
pub proof fn lemma_nodes_update(v: Seq<Node>, j: int, x: Node)
    requires 0 <= j < v.len(),
    ensures nodes_seq_v(v.update(j, x)) == nodes_seq_v(v).update(j, x@),
{
    lemma_nodes_seq_v_index(v);
    lemma_nodes_seq_v_index(v.update(j, x));
    assert(nodes_seq_v(v.update(j, x)) =~= nodes_seq_v(v).update(j, x@));
}

/// The model of a node vector after inserting a node at `j`.
pub proof fn lemma_nodes_insert(v: Seq<Node>, j: int, x: Node)
    requires 0 <= j <= v.len(),
    ensures nodes_seq_v(v.insert(j, x)) == nodes_seq_v(v).insert(j, x@),
{
    lemma_nodes_seq_v_index(v);
    lemma_nodes_seq_v_index(v.insert(j, x));
    assert(nodes_seq_v(v.insert(j, x)) =~= nodes_seq_v(v).insert(j, x@));
}

/// The model of a node vector after removing the node at `j`.
pub proof fn lemma_nodes_remove(v: Seq<Node>, j: int)
    requires 0 <= j < v.len(),
    ensures nodes_seq_v(v.remove(j)) == nodes_seq_v(v).remove(j),
{
    lemma_nodes_seq_v_index(v);
    lemma_nodes_seq_v_index(v.remove(j));
    assert(nodes_seq_v(v.remove(j)) =~= nodes_seq_v(v).remove(j));
}

impl Document {
    /// Creates a new empty document
    pub fn new() -> (r: Self)
        ensures r@ == (DocumentV { nodes: Seq::empty(), selection: None, metadata: None }), r.nodes@.len() == 0,
    {
        Self::default()
    }

    /// Creates a new document with a level-one heading holding the title,
    /// and the title in the metadata
    pub fn with_title(title: &str) -> (r: Self)
        ensures r@ == (DocumentV {
            nodes: seq![NodeV::Heading { level: 1, children: seq![plain_text_v(title@)] }],
            selection: None,
            metadata: Some(MetadataV { title: Some(title@), ..empty_metadata_v() }),
        }),
    {
        let mut doc = Self::default();
        let h = Node::heading(1, title);
        doc.nodes.push(h);
        let mut m = DocumentMetadata::default();
        m.title = Some(title.to_owned());
        doc.metadata = Some(m);
        proof {
            lemma_nodes_seq_v_push(Seq::empty(), h);
            assert(doc.nodes@ =~= Seq::<Node>::empty().push(h));
            assert(m@.custom =~= Seq::empty());
        }
        doc
    }

    /// Appends a node; returns its index.
    fn push_node(&mut self, n: Node) -> (r: usize)
        ensures
            r == old(self).nodes.len(),
            final(self).nodes@ == old(self).nodes@.push(n),
            final(self)@ == (DocumentV { nodes: old(self)@.nodes.push(n@), ..old(self)@ }),
    {
        let index = self.nodes.len();
        proof { lemma_nodes_seq_v_push(self.nodes@, n); }
        self.nodes.push(n);
        index
    }

    /// Appends a node; returns its index.
    pub(crate) fn push_node_pub(&mut self, n: Node) -> (r: usize)
        ensures
            r == old(self).nodes.len(),
            final(self).nodes@ == old(self).nodes@.push(n),
            final(self)@ == (DocumentV { nodes: old(self)@.nodes.push(n@), ..old(self)@ }),
    {
        self.push_node(n)
    }

    /// Adds a heading to the document
    pub fn add_heading(&mut self, level: u8, text: &str) -> (r: usize)
        ensures
            r == old(self).nodes.len(),
            final(self)@ == (DocumentV {
                nodes: old(self)@.nodes.push(NodeV::Heading { level: clamp_level(level), children: seq![plain_text_v(text@)] }),
                ..old(self)@
            }),
    {
        self.push_node(Node::heading(level, text))
    }

    /// Adds an empty paragraph to the document
    pub fn add_paragraph(&mut self) -> (r: usize)
        ensures
            r == old(self).nodes.len(),
            final(self)@ == (DocumentV { nodes: old(self)@.nodes.push(NodeV::Paragraph { children: Seq::empty() }), ..old(self)@ }),
    {
        let p = Node::Paragraph { children: Vec::new() };
        proof { assert(inlines_seq_v(Seq::<InlineNode>::empty()) =~= Seq::empty()); }
        self.push_node(p)
    }

    /// Adds a paragraph with text to the document
    pub fn add_paragraph_with_text(&mut self, text: &str) -> (r: usize)
        ensures
            r == old(self).nodes.len(),
            final(self)@ == (DocumentV { nodes: old(self)@.nodes.push(para_v(text@)), ..old(self)@ }),
    {
        self.push_node(Node::paragraph(text))
    }

    /// Adds a paragraph with custom inline nodes to the document
    pub fn add_paragraph_with_inlines(&mut self, inlines: Vec<InlineNode>) -> (r: usize)
        ensures
            r == old(self).nodes.len(),
            final(self)@ == (DocumentV {
                nodes: old(self)@.nodes.push(NodeV::Paragraph { children: inlines_seq_v(inlines@) }),
                ..old(self)@
            }),
    {
        self.push_node(Node::paragraph_with_inlines(inlines))
    }

    /// Adds a code block to the document
    pub fn add_code_block(&mut self, code: &str, language: &str) -> (r: usize)
        ensures
            r == old(self).nodes.len(),
            final(self)@ == (DocumentV {
                nodes: old(self)@.nodes.push(NodeV::CodeBlock { language: language@, code: code@ }),
                ..old(self)@
            }),
    {
        self.push_node(Node::code_block(code, language))
    }

    /// Adds an unordered list to the document
    pub fn add_unordered_list(&mut self, items: Vec<&str>) -> (r: usize)
        ensures
            r == old(self).nodes.len(),
            final(self)@ == (DocumentV {
                nodes: old(self)@.nodes.push(NodeV::List {
                    list_type: ListType::Unordered,
                    items: items@.map_values(|t: &str| text_item_v(t@)),
                }),
                ..old(self)@
            }),
    {
        self.push_node(Node::unordered_list(items))
    }

    /// Adds an ordered list to the document
    pub fn add_ordered_list(&mut self, items: Vec<&str>) -> (r: usize)
        ensures
            r == old(self).nodes.len(),
            final(self)@ == (DocumentV {
                nodes: old(self)@.nodes.push(NodeV::List {
                    list_type: ListType::Ordered,
                    items: items@.map_values(|t: &str| text_item_v(t@)),
                }),
                ..old(self)@
            }),
    {
        self.push_node(Node::ordered_list(items))
    }

    /// Adds a task list to the document
    pub fn add_task_list(&mut self, items: Vec<(&str, bool)>) -> (r: usize)
        ensures
            r == old(self).nodes.len(),
            final(self)@ == (DocumentV {
                nodes: old(self)@.nodes.push(NodeV::List {
                    list_type: ListType::Task,
                    items: items@.map_values(|t: (&str, bool)| task_item_v(t.0@, t.1)),
                }),
                ..old(self)@
            }),
    {
        self.push_node(Node::task_list(items))
    }

    /// Inserts text at byte offset `offset` of the paragraph at `node_index`.
    /// The text goes into the first text run that spans the offset; when none
    /// does, it is appended to the last run (or a new run). Returns false, and
    /// changes nothing, when the index is out of range or the node is not a
    /// paragraph.
    pub fn insert_text(&mut self, node_index: usize, offset: usize, text: &str) -> (r: bool)
        requires
            node_index < old(self).nodes.len() ==> match old(self).nodes@[node_index as int] {
                Node::Paragraph { children } => slot_ok(inlines_seq_v(children@), offset as int),
                _ => true,
            },
        ensures
            r == (node_index < old(self).nodes.len() && old(self).nodes@[node_index as int] is Paragraph),
            r ==> final(self)@ == (DocumentV {
                nodes: old(self)@.nodes.update(node_index as int, NodeV::Paragraph {
                    children: insert_result(
                        inlines_seq_v(old(self).nodes@[node_index as int]->Paragraph_children@),
                        offset as int,
                        text@,
                    ),
                }),
                ..old(self)@
            }),
            !r ==> final(self)@ == old(self)@,
    {
        if node_index >= self.nodes.len() {
            return false;
        }
        let new_node = match &self.nodes[node_index] {
            Node::Paragraph { children } => Node::Paragraph { children: inlines_with_insert(children, offset, text) },
            _ => { return false; },
        };
        proof { lemma_nodes_update(self.nodes@, node_index as int, new_node); }
        self.nodes.set(node_index, new_node);
        true
    }

    /// Splits the paragraph at `node_index` at byte offset `offset` into two
    /// paragraphs. Returns false, and changes nothing, when the index is out
    /// of range or the node is not a paragraph.
    pub fn split_node(&mut self, node_index: usize, offset: usize) -> (r: bool)
        requires
            node_index < old(self).nodes.len() ==> match old(self).nodes@[node_index as int] {
                Node::Paragraph { children } => slot_ok(inlines_seq_v(children@), offset as int),
                _ => true,
            },
        ensures
            r == (node_index < old(self).nodes.len() && old(self).nodes@[node_index as int] is Paragraph),
            r ==> final(self)@ == (DocumentV {
                nodes: old(self)@.nodes.take(node_index as int) + seq![
                    NodeV::Paragraph { children: split_result(inlines_seq_v(old(self).nodes@[node_index as int]->Paragraph_children@), offset as int).0 },
                    NodeV::Paragraph { children: split_result(inlines_seq_v(old(self).nodes@[node_index as int]->Paragraph_children@), offset as int).1 },
                ] + old(self)@.nodes.skip(node_index + 1),
                ..old(self)@
            }),
            !r ==> final(self)@ == old(self)@,
    {
        if node_index >= self.nodes.len() {
            return false;
        }
        let (before, after) = match &self.nodes[node_index] {
            Node::Paragraph { children } => split_inlines(children, offset),
            _ => { return false; },
        };
        let first = Node::Paragraph { children: before };
        let second = Node::Paragraph { children: after };
        let ghost old_nodes = self.nodes@;
        proof { lemma_nodes_update(self.nodes@, node_index as int, first); }
        self.nodes.set(node_index, first);
        proof { lemma_nodes_insert(self.nodes@, node_index + 1, second); }
        self.nodes.insert(node_index + 1, second);
        proof {
            lemma_nodes_seq_v_index(old_nodes);
            assert(nodes_seq_v(self.nodes@) =~= nodes_seq_v(old_nodes).take(node_index as int) + seq![first@, second@]
                + nodes_seq_v(old_nodes).skip(node_index + 1));
        }
        true
    }
}

} // verus!
