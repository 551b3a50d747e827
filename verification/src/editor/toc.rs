//! Building a table of contents from the document's headings.
use vstd::prelude::*;
use crate::document::{Document};
use crate::error::EditError;
use crate::inline::{InlineNode, InlineV, inlines_seq_v, inline_v, lemma_inlines_seq_v_index, plain_text_v};
use crate::node::{
    ListItem, ListItemV, ListType, Node, NodeV, nodes_seq_v, node_v, copy_nodes, list_items_seq_v,
    lemma_list_items_seq_v_index, lemma_nodes_seq_v_index, lemma_nodes_seq_v_push, list_item_v,
};
use crate::convert::repeated;
use crate::editor::command::{Command, with_nodes};
use crate::editor::task_commands::other_error;
use crate::editor::find_replace::{lowercase_of, to_lowercase, contains};

verus! {

/// Whether a character is alphanumeric, as `char::is_alphanumeric` says.
pub uninterp spec fn alphanumeric(c: char) -> bool;

/// `char::is_alphanumeric`: whether the character is alphabetic or
/// numeric by the Unicode tables of the standard library. The contract
/// names the result and says nothing more of it.
#[verifier::external_body]
fn is_alphanumeric(c: char) -> (r: bool)
    ensures r == alphanumeric(c),
{
    c.is_alphanumeric()
}

/// The text of a heading: its text runs, one after another.
pub open spec fn heading_text(ch: Seq<InlineV>) -> Seq<char>
    decreases ch.len(),
{
    if ch.len() == 0 {
        Seq::empty()
    } else {
        heading_text(ch.drop_last()) + (if ch.last() is Text { ch.last()->text } else { Seq::empty() })
    }
}

/// A heading whose lowercase text names a table of contents.
pub open spec fn is_toc_title(text: Seq<char>) -> bool {
    contains(lowercase_of(text), "table of contents"@) || contains(lowercase_of(text), "toc"@)
}

/// The anchor of a heading: its lowercase text with each character that is
/// not alphanumeric replaced by a hyphen.
pub open spec fn anchor_of(text: Seq<char>) -> Seq<char> {
    lowercase_of(text).map_values(|c: char| if alphanumeric(c) { c } else { '-' })
}

/// One entry of the table: the heading's text indented two spaces per
/// level below the first, as a link to its anchor.
pub open spec fn toc_entry(level: u8, text: Seq<char>) -> ListItemV {
    ListItemV {
        children: seq![NodeV::Paragraph {
            children: seq![plain_text_v(repeated("  "@, (level - 1) as nat) + "["@ + text + "](#"@ + anchor_of(text) + ")"@)],
        }],
        checked: None,
    }
}

/// The entries for the headings among the first `k` nodes up to
/// `max_level`, other than those naming a table of contents; and whether
/// such a heading was seen.
pub open spec fn toc_entries(nodes: Seq<NodeV>, max_level: u8, k: int) -> (Seq<ListItemV>, bool)
    decreases k,
{
    if k <= 0 {
        (Seq::empty(), false)
    } else {
        let prev = toc_entries(nodes, max_level, k - 1);
        match nodes[k - 1] {
            NodeV::Heading { level, children } => if level <= max_level {
                let text = heading_text(children);
                if is_toc_title(text) {
                    (prev.0, true)
                } else {
                    (prev.0.push(toc_entry(level, text)), prev.1)
                }
            } else {
                prev
            },
            _ => prev,
        }
    }
}

/// No heading that becomes an entry has level 0 (whose indentation would
/// fall below zero).
pub open spec fn toc_can_run(nodes: Seq<NodeV>, max_level: u8) -> bool {
    forall|j: int| 0 <= j < nodes.len() && #[trigger] nodes[j] is Heading ==> {
        let level = nodes[j]->Heading_level;
        level <= max_level && !is_toc_title(heading_text(nodes[j]->Heading_children)) ==> level >= 1
    }
}

/// The nodes of the table: a "Table of Contents" heading unless the
/// document has one, then the list of entries when there are any.
pub open spec fn toc_nodes(nodes: Seq<NodeV>, max_level: u8) -> Seq<NodeV> {
    let (entries, found) = toc_entries(nodes, max_level, nodes.len() as int);
    (if found {
        Seq::empty()
    } else {
        seq![NodeV::Heading { level: 2, children: seq![plain_text_v("Table of Contents"@)] }]
    }) + (if entries.len() > 0 { seq![NodeV::List { list_type: ListType::Unordered, items: entries }] } else { Seq::empty() })
}

/// The nodes after inserting the table at `position` (or at the end): a
/// table at the start is followed by a thematic break when the document is
/// not empty.
pub open spec fn with_toc(nodes: Seq<NodeV>, position: usize, max_level: u8) -> Seq<NodeV> {
    let toc = toc_nodes(nodes, max_level);
    let p = if position < nodes.len() { position as int } else { nodes.len() as int };
    let ins = nodes.take(p) + toc + nodes.skip(p);
    if p == 0 && ins.len() > 0 { ins.insert(toc.len() as int, NodeV::ThematicBreak) } else { ins }
}

/// The text of a heading's children.
fn heading_text_exec(ch: &Vec<InlineNode>) -> (r: String)
    ensures r@ == heading_text(inlines_seq_v(ch@)),
{
    proof { lemma_inlines_seq_v_index(ch@); }
    let ghost s = inlines_seq_v(ch@);
    let mut out = String::new();
    let mut i: usize = 0;
    proof { assert(s.take(0) =~= Seq::<InlineV>::empty()); }
    while i < ch.len()
        invariant
            i <= ch.len(),
            s == inlines_seq_v(ch@),
            s.len() == ch.len(),
            forall|j: int| 0 <= j < s.len() ==> #[trigger] s[j] == inline_v(&ch@[j]),
            out@ == heading_text(s.take(i as int)),
        decreases ch.len() - i,
    {
        proof { assert(s.take(i + 1).drop_last() =~= s.take(i as int)); }
        match &ch[i] {
            InlineNode::Text(t) => {
                out.append(t.text.as_str());
            },
            _ => {
                proof { assert(out@ + Seq::<char>::empty() =~= out@); }
            },
        }
        i = i + 1;
    }
    proof { assert(s.take(i as int) =~= s); }
    out
}

/// The anchor of a heading text.
fn anchor_exec(text: &str) -> (r: String)
    ensures r@ == anchor_of(text@),
{
    let lower = to_lowercase(text);
    let l = lower.as_str();
    let n = l.unicode_len();
    let mut out = String::new();
    let mut i: usize = 0;
    let ghost f = |c: char| if alphanumeric(c) { c } else { '-' };
    while i < n
        invariant
            i <= n,
            n == l@.len(),
            l@ == lowercase_of(text@),
            f == (|c: char| if alphanumeric(c) { c } else { '-' }),
            out@ == l@.take(i as int).map_values(f),
        decreases n - i,
    {
        let c = l.get_char(i);
        if is_alphanumeric(c) {
            out.append(l.substring_char(i, i + 1));
        } else {
            out.append("-");
            proof { reveal_strlit("-"); }
        }
        proof {
            assert(l@.take(i + 1).map_values(f) =~= l@.take(i as int).map_values(f).push(f(c)));
            assert(l@.subrange(i as int, i + 1) =~= seq![c]);
        }
        i = i + 1;
    }
    proof { assert(l@.take(n as int) =~= l@); }
    out
}

/// Whether the heading text names a table of contents.
fn is_toc_title_exec(text: &str) -> (r: bool)
    ensures r == is_toc_title(text@),
{
    let lower = to_lowercase(text);
    let a = crate::editor::find_replace::contains_exec(lower.as_str(), "table of contents");
    let b = crate::editor::find_replace::contains_exec(lower.as_str(), "toc");
    a || b
}

/// The list item for a heading of level at least 1.
fn toc_entry_exec(level: u8, text: &str) -> (r: ListItem)
    requires level >= 1,
    ensures list_item_v(&r) == toc_entry(level, text@),
{
    let mut line = String::new();
    crate::convert::push_repeated(&mut line, "  ", (level - 1) as usize);
    line.append("[");
    line.append(text);
    line.append("](#");
    let anchor = anchor_exec(text);
    line.append(anchor.as_str());
    line.append(")");
    proof {
        reveal_strlit("[");
        reveal_strlit("](#");
        reveal_strlit(")");
        assert(line@ =~= repeated("  "@, (level - 1) as nat) + "["@ + text@ + "](#"@ + anchor_of(text@) + ")"@);
    }
    let t = InlineNode::text(line.as_str());
    let mut ch: Vec<InlineNode> = Vec::new();
    ch.push(t);
    let p = Node::Paragraph { children: ch };
    let mut children: Vec<Node> = Vec::new();
    children.push(p);
    proof {
        lemma_inlines_seq_v_index(ch@);
        assert(inlines_seq_v(ch@) =~= seq![t@]);
        lemma_nodes_seq_v_index(children@);
        assert(nodes_seq_v(children@) =~= seq![p@]);
    }
    ListItem { children, checked: None }
}

/// The entries of the table and whether a heading naming a table was seen.
fn toc_entries_exec(nodes: &Vec<Node>, max_level: u8) -> (r: (Vec<ListItem>, bool))
    requires toc_can_run(nodes_seq_v(nodes@), max_level),
    ensures
        list_items_seq_v(r.0@) == toc_entries(nodes_seq_v(nodes@), max_level, nodes.len() as int).0,
        r.1 == toc_entries(nodes_seq_v(nodes@), max_level, nodes.len() as int).1,
{
    proof { lemma_nodes_seq_v_index(nodes@); }
    let ghost nv = nodes_seq_v(nodes@);
    let mut entries: Vec<ListItem> = Vec::new();
    let mut found = false;
    let mut i: usize = 0;
    while i < nodes.len()
        invariant
            i <= nodes.len(),
            nv == nodes_seq_v(nodes@),
            nv.len() == nodes.len(),
            toc_can_run(nv, max_level),
            forall|j: int| 0 <= j < nv.len() ==> #[trigger] nv[j] == node_v(&nodes@[j]),
            list_items_seq_v(entries@) == toc_entries(nv, max_level, i as int).0,
            found == toc_entries(nv, max_level, i as int).1,
        decreases nodes.len() - i,
    {
        match &nodes[i] {
            Node::Heading { level, children } => {
                if *level <= max_level {
                    let text = heading_text_exec(children);
                    if is_toc_title_exec(text.as_str()) {
                        found = true;
                    } else {
                        proof { assert(nv[i as int] is Heading); }
                        let e = toc_entry_exec(*level, text.as_str());
                        proof { crate::node::lemma_list_items_seq_v_push(entries@, e); }
                        entries.push(e);
                    }
                }
            },
            _ => {},
        }
        i = i + 1;
    }
    (entries, found)
}

/// Command to create a table of contents from document headings
pub struct CreateTOCCommand {
    position: usize,
    max_level: u8,
    original_nodes: Option<Vec<Node>>,
}

impl CreateTOCCommand {
    /// Where the table goes.
    pub closed spec fn position(&self) -> usize { self.position }

    /// The deepest heading level included.
    pub closed spec fn max_level(&self) -> u8 { self.max_level }

    /// The nodes saved for undo.
    pub closed spec fn saved(&self) -> Option<Seq<NodeV>> {
        match self.original_nodes {
            Some(v) => Some(nodes_seq_v(v@)),
            None => None,
        }
    }

    /// Create a new TOC command; the level is clamped to 1..=6.
    pub fn new(position: usize, max_level: u8) -> (r: Self)
        ensures
            r.position() == position,
            r.max_level() == (if max_level < 1 { 1 } else if max_level > 6 { 6 } else { max_level }),
            r.saved() is None,
    {
        let level = if max_level < 1 { 1 } else if max_level > 6 { 6 } else { max_level };
        CreateTOCCommand { position, max_level: level, original_nodes: None }
    }
}

impl CreateTOCCommand {
    /// Whether no heading that would become an entry has level 0.
    pub fn can_run(&self, document: &Document) -> (b: bool)
        ensures b == toc_can_run(document@.nodes, self.max_level()),
    {
        proof { lemma_nodes_seq_v_index(document.nodes@); }
        let ghost nv = document@.nodes;
        let mut i: usize = 0;
        while i < document.nodes.len()
            invariant
                i <= document.nodes.len(),
                nv == document@.nodes,
                nv.len() == document.nodes.len(),
                forall|j: int| 0 <= j < nv.len() ==> #[trigger] nv[j] == node_v(&document.nodes@[j]),
                forall|j: int| 0 <= j < i && #[trigger] nv[j] is Heading ==> {
                    let level = nv[j]->Heading_level;
                    level <= self.max_level() && !is_toc_title(heading_text(nv[j]->Heading_children)) ==> level >= 1
                },
            decreases document.nodes.len() - i,
        {
            match &document.nodes[i] {
                Node::Heading { level, children } => {
                    if *level == 0 && *level <= self.max_level {
                        let text = heading_text_exec(children);
                        if !is_toc_title_exec(text.as_str()) {
                            proof {
                                assert(nv[i as int] is Heading);
                                assert(nv[i as int]->Heading_level == 0);
                            }
                            return false;
                        }
                    }
                },
                _ => {},
            }
            i = i + 1;
        }
        true
    }

    /// Runs the command where that cannot fail; else leaves the document
    /// as it is and reports `OperationFailed`.
    pub fn execute_checked(&mut self, document: &mut Document) -> (r: Result<(), EditError>)
        ensures
            toc_can_run(old(document)@.nodes, old(self).max_level()) ==> r is Ok
                && final(document)@ == with_nodes(old(document)@, with_toc(old(document)@.nodes, old(self).position(), old(self).max_level()))
                && final(self).saved() == Some(old(document)@.nodes),
            !toc_can_run(old(document)@.nodes, old(self).max_level()) ==> (r matches Err(EditError::OperationFailed))
                && final(document)@ == old(document)@ && final(self).saved() == old(self).saved(),
            final(self).position() == old(self).position(),
            final(self).max_level() == old(self).max_level(),
    {
        if !self.can_run(document) {
            return Err(EditError::OperationFailed);
        }
        self.execute(document)
    }
}

impl Command for CreateTOCCommand {
    /// No heading that becomes an entry has level 0.
    open spec fn can_execute(&self, document: &Document) -> bool {
        toc_can_run(document@.nodes, self.max_level())
    }

    open spec fn can_undo(&self, document: &Document) -> bool { true }

    /// Inserts the table (see `with_toc`), saving the nodes first.
    fn execute(&mut self, document: &mut Document) -> (r: Result<(), EditError>)
        ensures
            r is Ok,
            final(self).position() == old(self).position(),
            final(self).max_level() == old(self).max_level(),
            final(self).saved() == Some(old(document)@.nodes),
            final(document)@ == with_nodes(old(document)@, with_toc(old(document)@.nodes, old(self).position(), old(self).max_level())),
    {
        proof { lemma_nodes_seq_v_index(document.nodes@); }
        let ghost nv = document@.nodes;
        self.original_nodes = Some(copy_nodes(&document.nodes));
        let (entries, found) = toc_entries_exec(&document.nodes, self.max_level);
        let mut toc: Vec<Node> = Vec::new();
        if !found {
            let t = InlineNode::text("Table of Contents");
            let mut hc: Vec<InlineNode> = Vec::new();
            hc.push(t);
            proof {
                lemma_inlines_seq_v_index(hc@);
                assert(inlines_seq_v(hc@) =~= seq![t@]);
            }
            let h = Node::Heading { level: 2, children: hc };
            proof { lemma_nodes_seq_v_push(toc@, h); }
            toc.push(h);
        }
        let n_entries = entries.len();
        let l = Node::List { list_type: ListType::Unordered, items: entries };
        if n_entries > 0 {
            proof { lemma_nodes_seq_v_push(toc@, l); }
            toc.push(l);
        }
        proof {
            lemma_list_items_seq_v_index(entries@);
            lemma_nodes_seq_v_index(toc@);
            assert(nodes_seq_v(toc@) =~= toc_nodes(nv, self.max_level));
        }
        let len = document.nodes.len();
        let p = if self.position < len { self.position } else { len };
        let mut tail = document.nodes.split_off(p);
        let num = toc.len();
        document.nodes.append(&mut toc);
        document.nodes.append(&mut tail);
        proof {
            lemma_nodes_seq_v_index(document.nodes@);
            assert(nodes_seq_v(document.nodes@) =~= nv.take(p as int) + toc_nodes(nv, self.max_level) + nv.skip(p as int));
        }
        if p == 0 && document.nodes.len() > 0 {
            let ghost n0 = document.nodes@;
            document.nodes.insert(num, Node::ThematicBreak);
            proof {
                lemma_nodes_seq_v_index(n0);
                lemma_nodes_seq_v_index(document.nodes@);
                assert(nodes_seq_v(document.nodes@) =~= nodes_seq_v(n0).insert(num as int, NodeV::ThematicBreak));
            }
        }
        Ok(())
    }

    /// Puts the saved nodes back.
    fn undo(&mut self, document: &mut Document) -> (r: Result<(), EditError>)
        ensures
            final(self).position() == old(self).position(),
            final(self).max_level() == old(self).max_level(),
            final(self).saved() is None,
            match old(self).saved() {
                Some(ns) => r is Ok && final(document)@ == with_nodes(old(document)@, ns),
                None => other_error(r, "No original state to restore"@) && final(document)@ == old(document)@,
            },
    {
        match self.original_nodes.take() {
            Some(ns) => {
                document.nodes = ns;
                Ok(())
            },
            None => Err(EditError::Other("No original state to restore".to_owned())),
        }
    }
}

/// `k` copies of two spaces are `2 * k` spaces.
proof fn lemma_repeated_spaces(k: nat)
    ensures
        repeated("  "@, k).len() == 2 * k,
        forall|j: int| 0 <= j < 2 * k ==> #[trigger] repeated("  "@, k)[j] == ' ',
    decreases k,
{
    reveal_strlit("  ");
    if k > 0 {
        lemma_repeated_spaces((k - 1) as nat);
        let a = repeated("  "@, (k - 1) as nat);
        assert forall|j: int| 0 <= j < 2 * k implies #[trigger] repeated("  "@, k)[j] == ' ' by {
            if j >= a.len() {
                assert(repeated("  "@, k)[j] == "  "@[j - a.len()]);
            } else {
                assert(repeated("  "@, k)[j] == a[j]);
            }
        }
    }
}

/// The text of a table-of-contents entry.
pub open spec fn entry_text(it: ListItemV) -> Seq<char> {
    it.children[0]->Paragraph_children[0]->text
}

/// A table-of-contents entry for a heading of level `level` starts with
/// exactly `2 * (level - 1)` spaces and then the `[` of its link, so each
/// level is indented two spaces more than the one above it; the entry
/// ends with the link to the heading's anchor.
pub proof fn law_toc_entry_indent(level: u8, text: Seq<char>)
    requires level >= 1,
    ensures ({
        let t = entry_text(toc_entry(level, text));
        let w = 2 * (level - 1);
        &&& t.len() > w
        &&& forall|j: int| 0 <= j < w ==> #[trigger] t[j] == ' '
        &&& t[w] == '['
        &&& t.subrange(w + 1, w + 1 + text.len()) == text
        &&& t.skip(w + 1 + text.len()) == "](#"@ + anchor_of(text) + ")"@
    }),
{
    reveal_strlit("[");
    let k = (level - 1) as nat;
    lemma_repeated_spaces(k);
    let sp = repeated("  "@, k);
    let t = entry_text(toc_entry(level, text));
    assert(t == sp + "["@ + text + "](#"@ + anchor_of(text) + ")"@);
    let w = 2 * (level - 1);
    assert forall|j: int| 0 <= j < w implies #[trigger] t[j] == ' ' by {
        assert(t[j] == sp[j]);
    }
    assert(t.subrange(w + 1, w + 1 + text.len()) =~= text);
    assert(t.skip(w + 1 + text.len()) =~= "](#"@ + anchor_of(text) + ")"@);
}

/// A heading's anchor is its lowercase text with every character that is
/// not alphanumeric made a hyphen: as long as the lowercase text, and
/// alphanumeric characters kept where they are.
pub proof fn law_anchor_of(text: Seq<char>)
    ensures
        anchor_of(text).len() == lowercase_of(text).len(),
        forall|j: int| 0 <= j < lowercase_of(text).len() ==> {
            &&& alphanumeric(lowercase_of(text)[j]) ==> #[trigger] anchor_of(text)[j] == lowercase_of(text)[j]
            &&& !alphanumeric(lowercase_of(text)[j]) ==> anchor_of(text)[j] == '-'
        },
{
}

} // verus!
