//! Indenting and unindenting the selected nodes.
use vstd::prelude::*;
use crate::document::{Document, DocumentV, lemma_nodes_update};
use crate::error::EditError;
use crate::node::{
    ListItem, ListItemV, ListType, Node, NodeV, nodes_seq_v, node_v, copy_nodes, copy_list_items, list_items_seq_v,
    lemma_list_items_seq_v_index, lemma_nodes_seq_v_index, lemma_nodes_seq_v_push,
};
use crate::selection::{Selection, SelectionV, opt_selection_v};
use crate::convert::{next_nl, strip_cr, lemma_next_nl_range};
use crate::editor::command::Command;

verus! {

/// Enum representing indentation direction
#[derive(Debug, Clone, Copy, PartialEq, Eq, Structural)]
pub enum IndentDirection {
    /// Increase indentation level
    Increase,
    /// Decrease indentation level
    Decrease,
}

/// The lines of `s`, as `str::lines` splits it: at each line feed, with a
/// carriage return before it dropped, and no empty line after a final line
/// feed.
pub open spec fn lines_of(s: Seq<char>) -> Seq<Seq<char>>
    decreases s.len(),
{
    if s.len() == 0 {
        Seq::empty()
    } else {
        let i = next_nl(s, 0);
        if i < s.len() {
            proof { lemma_next_nl_range(s, 0); }
            seq![strip_cr(s.take(i))] + lines_of(s.skip(i + 1))
        } else {
            seq![strip_cr(s)]
        }
    }
}

/// The lines joined with line feeds between them.
pub open spec fn join_lines(ls: Seq<Seq<char>>) -> Seq<char>
    decreases ls.len(),
{
    if ls.len() == 0 {
        Seq::empty()
    } else if ls.len() == 1 {
        ls[0]
    } else {
        join_lines(ls.drop_last()) + seq!['\n'] + ls.last()
    }
}

/// A line indented by four spaces.
pub open spec fn indent_line(l: Seq<char>) -> Seq<char> {
    seq![' ', ' ', ' ', ' '] + l
}

/// The number of spaces at the start of `l`, up to `m`.
pub open spec fn leading_spaces(l: Seq<char>, m: int) -> int
    decreases m,
{
    if m <= 0 || l.len() == 0 || l[0] != ' ' { 0 } else { 1 + leading_spaces(l.drop_first(), m - 1) }
}

/// A line without a leading tab, or else without up to four leading spaces.
pub open spec fn dedent_line(l: Seq<char>) -> Seq<char> {
    if l.len() > 0 && l[0] == '\t' { l.skip(1) } else { l.skip(leading_spaces(l, 4)) }
}

/// Code with each line indented or dedented, joined again by line feeds.
pub open spec fn shift_code(code: Seq<char>, dir: IndentDirection) -> Seq<char> {
    match dir {
        IndentDirection::Increase => join_lines(lines_of(code).map_values(|l: Seq<char>| indent_line(l))),
        IndentDirection::Decrease => join_lines(lines_of(code).map_values(|l: Seq<char>| dedent_line(l))),
    }
}

/// `next_nl` on a suffix is `next_nl` on the whole, shifted.
pub proof fn lemma_next_nl_skip(s: Seq<char>, i: int, j: int)
    requires 0 <= i <= s.len(), 0 <= j,
    ensures next_nl(s.skip(i), j) == next_nl(s, i + j) - i,
    decreases s.len() - (i + j),
{
    if i + j < s.len() && s[i + j] != '\n' {
        lemma_next_nl_skip(s, i, j + 1);
    }
}

/// A dedented line.
fn dedent_line_exec(l: &str) -> (r: String)
    ensures r@ == dedent_line(l@),
{
    let n = l.unicode_len();
    if n > 0 && l.get_char(0) == '\t' {
        let r = l.substring_char(1, n).to_owned();
        proof { assert(r@ =~= l@.skip(1)); }
        return r;
    }
    let mut k: usize = 0;
    proof { assert(l@.skip(0) =~= l@); }
    while k < 4 && k < n && l.get_char(k) == ' '
        invariant
            k <= 4,
            k <= n,
            n == l@.len(),
            leading_spaces(l@, 4) == k + leading_spaces(l@.skip(k as int), 4 - k),
        decreases 4 - k,
    {
        proof {
            assert(l@.skip(k as int).drop_first() =~= l@.skip(k + 1));
        }
        k = k + 1;
    }
    let r = l.substring_char(k, n).to_owned();
    proof { assert(r@ =~= l@.skip(k as int)); }
    r
}

/// The code with each line shifted.
fn shift_code_exec(s: &str, dir: IndentDirection) -> (r: String)
    ensures r@ == shift_code(s@, dir),
{
    let n = s.unicode_len();
    let ghost f = match dir {
        IndentDirection::Increase => |l: Seq<char>| indent_line(l),
        IndentDirection::Decrease => |l: Seq<char>| dedent_line(l),
    };
    let mut out = String::new();
    let mut first = true;
    let mut i: usize = 0;
    let ghost mut done: Seq<Seq<char>> = Seq::empty();
    proof { assert(s@.skip(0) =~= s@); }
    while i < n
        invariant
            i <= n,
            n == s@.len(),
            lines_of(s@) == done + lines_of(s@.skip(i as int)),
            first == (done.len() == 0),
            out@ == join_lines(done.map_values(f)),
            f == (match dir {
                IndentDirection::Increase => |l: Seq<char>| indent_line(l),
                IndentDirection::Decrease => |l: Seq<char>| dedent_line(l),
            }),
        decreases n - i,
    {
        let ghost t = s@.skip(i as int);
        let mut j: usize = i;
        while j < n && s.get_char(j) != '\n'
            invariant
                i <= j <= n,
                n == s@.len(),
                next_nl(s@, i as int) == next_nl(s@, j as int),
            decreases n - j,
        {
            j = j + 1;
        }
        proof {
            lemma_next_nl_skip(s@, i as int, 0);
            assert(next_nl(t, 0) == j - i);
        }
        let raw = s.substring_char(i, j);
        let line_str = crate::convert::strip_cr_str(raw);
        let shifted: String = match dir {
            IndentDirection::Increase => {
                let mut x = "    ".to_owned();
                proof { reveal_strlit("    "); }
                x.append(line_str);
                x
            },
            IndentDirection::Decrease => dedent_line_exec(line_str),
        };
        let ghost line = strip_cr(t.take(j - i));
        proof {
            assert(raw@ =~= t.take(j - i));
            assert(shifted@ == f(line));
        }
        let ghost d0 = done;
        if !first {
            out.append("\n");
            proof { reveal_strlit("\n"); }
        }
        out.append(shifted.as_str());
        first = false;
        proof {
            done = done.push(line);
            assert(done.map_values(f) =~= d0.map_values(f).push(f(line)));
            assert(done.map_values(f).drop_last() =~= d0.map_values(f));
            if d0.len() == 0 {
                assert(out@ =~= join_lines(done.map_values(f)));
            } else {
                assert(out@ =~= join_lines(done.map_values(f)));
            }
        }
        if j < n {
            proof {
                assert(t.skip(j - i + 1) =~= s@.skip(j + 1));
                assert(lines_of(t) == seq![line] + lines_of(s@.skip(j + 1)));
                assert(d0 + lines_of(t) =~= done + lines_of(s@.skip(j + 1)));
            }
            i = j + 1;
        } else {
            proof {
                assert(t.take(j - i) =~= t);
                assert(lines_of(t) == seq![line]);
                assert(s@.skip(n as int) =~= Seq::<char>::empty());
                assert(d0 + lines_of(t) =~= done + lines_of(s@.skip(n as int)));
            }
            i = n;
        }
    }
    proof {
        assert(s@.skip(n as int) =~= Seq::<char>::empty());
        assert(done + Seq::<Seq<char>>::empty() =~= done);
    }
    out
}

/// Two nodes are lists of the same type.
pub open spec fn lists_compatible(a: NodeV, b: NodeV) -> bool {
    a is List && b is List && a->List_list_type == b->List_list_type
}

/// The indices `idx` among the first `k` nodes, from `st` to `en`, whose
/// list can join the list just before it, in increasing order.
pub open spec fn merge_marks(nodes: Seq<NodeV>, st: int, en: int, k: int) -> Seq<usize>
    decreases k,
{
    if k <= 0 {
        Seq::empty()
    } else {
        let prev = merge_marks(nodes, st, en, k - 1);
        let idx = k - 1;
        if st <= idx <= en && 1 <= idx < nodes.len() && lists_compatible(nodes[idx - 1], nodes[idx]) {
            prev.push(idx as usize)
        } else {
            prev
        }
    }
}

/// The nodes after the list at `idx` hands its items to the list before
/// it and is left as an empty unordered list.
pub open spec fn merge_at(p: Seq<NodeV>, idx: int) -> Seq<NodeV> {
    if idx <= 0 || idx >= p.len() {
        p
    } else {
        let moved = if p[idx] is List { p[idx]->List_items } else { Seq::empty() };
        let p2 = if p[idx - 1] is List {
            p.update(idx - 1, NodeV::List { list_type: p[idx - 1]->List_list_type, items: p[idx - 1]->List_items + moved })
        } else {
            p
        };
        p2.update(idx, NodeV::List { list_type: ListType::Unordered, items: Seq::empty() })
    }
}

/// The merges for the first `k` marks, in order.
pub open spec fn merge_pass(nodes: Seq<NodeV>, ms: Seq<usize>, k: int) -> Seq<NodeV>
    decreases k,
{
    if k <= 0 { nodes } else { merge_at(merge_pass(nodes, ms, k - 1), ms[k - 1] as int) }
}

/// A node indented or dedented: a block quote gains or loses a level of
/// quoting, a code block has its lines shifted; other nodes stay.
pub open spec fn shift_node(n: NodeV, dir: IndentDirection) -> NodeV {
    match n {
        NodeV::BlockQuote { children } => match dir {
            IndentDirection::Increase => NodeV::BlockQuote { children: seq![NodeV::BlockQuote { children }] },
            IndentDirection::Decrease => if children.len() > 0 && children[0] is BlockQuote {
                NodeV::BlockQuote { children: children[0]->BlockQuote_children }
            } else {
                n
            },
        },
        NodeV::CodeBlock { language, code } => NodeV::CodeBlock { language, code: shift_code(code, dir) },
        _ => n,
    }
}

/// The nodes from `st` to `en`, other than those in `ms`, shifted.
pub open spec fn shift_pass(ns: Seq<NodeV>, st: int, en: int, ms: Seq<usize>, dir: IndentDirection) -> Seq<NodeV> {
    Seq::new(ns.len(), |i: int| if st <= i <= en && !ms.contains(i as usize) { shift_node(ns[i], dir) } else { ns[i] })
}

/// A list without items.
pub open spec fn is_empty_list(n: NodeV) -> bool {
    n is List && n->List_items.len() == 0
}

/// The nodes without the empty lists.
pub open spec fn drop_empty_lists(ns: Seq<NodeV>) -> Seq<NodeV>
    decreases ns.len(),
{
    if ns.len() == 0 {
        Seq::empty()
    } else {
        let p = drop_empty_lists(ns.drop_last());
        if is_empty_list(ns.last()) { p } else { p.push(ns.last()) }
    }
}

/// The nodes after indenting (or unindenting) the nodes from `st` to `en`.
/// Indenting first merges each list in the range into a list of the same
/// type just before it, then shifts the other nodes in the range, then
/// drops every empty list of the document. Unindenting shifts the nodes in
/// the range.
pub open spec fn indent_nodes(nodes: Seq<NodeV>, st: int, en: int, dir: IndentDirection) -> Seq<NodeV> {
    match dir {
        IndentDirection::Increase => {
            let ms = merge_marks(nodes, st, en, nodes.len() as int);
            drop_empty_lists(shift_pass(merge_pass(nodes, ms, ms.len() as int), st, en, ms, dir))
        },
        IndentDirection::Decrease => shift_pass(nodes, st, en, Seq::empty(), dir),
    }
}

fn lists_compatible_exec(a: &Node, b: &Node) -> (r: bool)
    ensures r == lists_compatible(a@, b@),
{
    match (a, b) {
        (Node::List { list_type: x, .. }, Node::List { list_type: y, .. }) => *x == *y,
        _ => false,
    }
}

fn merge_marks_exec(nodes: &Vec<Node>, st: usize, en: usize) -> (r: Vec<usize>)
    ensures r@ == merge_marks(nodes_seq_v(nodes@), st as int, en as int, nodes.len() as int),
{
    proof { lemma_nodes_seq_v_index(nodes@); }
    let ghost nv = nodes_seq_v(nodes@);
    let mut r: Vec<usize> = Vec::new();
    let mut k: usize = 0;
    while k < nodes.len()
        invariant
            k <= nodes.len(),
            nv == nodes_seq_v(nodes@),
            nv.len() == nodes.len(),
            forall|j: int| 0 <= j < nv.len() ==> #[trigger] nv[j] == node_v(&nodes@[j]),
            r@ == merge_marks(nv, st as int, en as int, k as int),
        decreases nodes.len() - k,
    {
        if st <= k && k <= en && k >= 1 && lists_compatible_exec(&nodes[k - 1], &nodes[k]) {
            r.push(k);
        }
        k = k + 1;
    }
    r
}

fn merge_at_exec(nodes: &mut Vec<Node>, idx: usize)
    ensures nodes_seq_v(final(nodes)@) == merge_at(nodes_seq_v(old(nodes)@), idx as int),
{
    proof { lemma_nodes_seq_v_index(nodes@); }
    if idx == 0 || idx >= nodes.len() {
        return;
    }
    let moved: Vec<ListItem> = match &nodes[idx] {
        Node::List { items, .. } => copy_list_items(items),
        _ => Vec::new(),
    };
    proof {
        lemma_list_items_seq_v_index(moved@);
    }
    let ghost n0 = nodes@;
    let prev: Option<Node> = match &nodes[idx - 1] {
        Node::List { list_type, items } => {
            let mut all = copy_list_items(items);
            let ghost a0 = all@;
            let mut mv = moved;
            let ghost m0 = mv@;
            all.append(&mut mv);
            proof {
                lemma_list_items_seq_v_index(a0);
                lemma_list_items_seq_v_index(m0);
                lemma_list_items_seq_v_index(all@);
                lemma_list_items_seq_v_index(items@);
                assert(list_items_seq_v(all@) =~= list_items_seq_v(items@) + list_items_seq_v(m0));
            }
            Some(Node::List { list_type: *list_type, items: all })
        },
        _ => None,
    };
    match prev {
        Some(p) => {
            nodes.set(idx - 1, p);
            proof { lemma_nodes_update(n0, idx - 1, p); }
        },
        None => {},
    }
    let ghost n1 = nodes@;
    let e = Node::List { list_type: ListType::Unordered, items: Vec::new() };
    proof { assert(list_items_seq_v(Seq::<ListItem>::empty()) =~= Seq::<ListItemV>::empty()); }
    nodes.set(idx, e);
    proof { lemma_nodes_update(n1, idx as int, e); }
}

fn shift_node_exec(n: &Node, dir: IndentDirection) -> (r: Node)
    ensures r@ == shift_node(n@, dir),
{
    match n {
        Node::BlockQuote { children } => {
            proof { lemma_nodes_seq_v_index(children@); }
            match dir {
                IndentDirection::Increase => {
                    let inner = Node::BlockQuote { children: copy_nodes(children) };
                    let mut v: Vec<Node> = Vec::new();
                    v.push(inner);
                    proof { lemma_nodes_seq_v_push(Seq::empty(), inner); assert(v@ =~= Seq::empty().push(inner)); }
                    Node::BlockQuote { children: v }
                },
                IndentDirection::Decrease => {
                    if children.len() > 0 {
                        match &children[0] {
                            Node::BlockQuote { children: inner } => {
                                return Node::BlockQuote { children: copy_nodes(inner) };
                            },
                            _ => {},
                        }
                    }
                    crate::node::copy_node(n)
                },
            }
        },
        Node::CodeBlock { language, code } => {
            Node::CodeBlock { language: language.clone(), code: shift_code_exec(code.as_str(), dir) }
        },
        _ => crate::node::copy_node(n),
    }
}

fn marks_contain(ms: &Vec<usize>, i: usize) -> (r: bool)
    ensures r == ms@.contains(i),
{
    let mut k: usize = 0;
    while k < ms.len()
        invariant
            k <= ms.len(),
            forall|j: int| 0 <= j < k ==> ms@[j] != i,
        decreases ms.len() - k,
    {
        if ms[k] == i {
            proof { assert(ms@[k as int] == i); }
            return true;
        }
        k = k + 1;
    }
    false
}

fn shift_pass_exec(nodes: &mut Vec<Node>, st: usize, en: usize, ms: &Vec<usize>, dir: IndentDirection)
    ensures nodes_seq_v(final(nodes)@) == shift_pass(nodes_seq_v(old(nodes)@), st as int, en as int, ms@, dir),
{
    proof { lemma_nodes_seq_v_index(nodes@); }
    let ghost nv = nodes_seq_v(nodes@);
    let mut i: usize = 0;
    while i < nodes.len()
        invariant
            i <= nodes.len(),
            nv.len() == nodes.len(),
            nodes_seq_v(nodes@).len() == nodes.len(),
            forall|j: int| 0 <= j < nodes.len() ==> #[trigger] nodes_seq_v(nodes@)[j] == node_v(&nodes@[j]),
            forall|j: int| 0 <= j < i ==> #[trigger] nodes_seq_v(nodes@)[j] == shift_pass(nv, st as int, en as int, ms@, dir)[j],
            forall|j: int| i <= j < nodes.len() ==> #[trigger] nodes_seq_v(nodes@)[j] == nv[j],
        decreases nodes.len() - i,
    {
        if st <= i && i <= en && !marks_contain(ms, i) {
            let m = shift_node_exec(&nodes[i], dir);
            let ghost n0 = nodes@;
            nodes.set(i, m);
            proof {
                lemma_nodes_update(n0, i as int, m);
                lemma_nodes_seq_v_index(nodes@);
            }
        }
        i = i + 1;
    }
    proof { assert(nodes_seq_v(nodes@) =~= shift_pass(nv, st as int, en as int, ms@, dir)); }
}

fn drop_empty_exec(nodes: Vec<Node>) -> (r: Vec<Node>)
    ensures nodes_seq_v(r@) == drop_empty_lists(nodes_seq_v(nodes@)),
{
    proof { lemma_nodes_seq_v_index(nodes@); }
    let ghost nv = nodes_seq_v(nodes@);
    let mut out: Vec<Node> = Vec::new();
    let mut i: usize = 0;
    proof { assert(nv.take(0) =~= Seq::<NodeV>::empty()); }
    while i < nodes.len()
        invariant
            i <= nodes.len(),
            nv == nodes_seq_v(nodes@),
            nv.len() == nodes.len(),
            forall|j: int| 0 <= j < nv.len() ==> #[trigger] nv[j] == node_v(&nodes@[j]),
            nodes_seq_v(out@) == drop_empty_lists(nv.take(i as int)),
        decreases nodes.len() - i,
    {
        proof { assert(nv.take(i + 1).drop_last() =~= nv.take(i as int)); }
        let empty = match &nodes[i] {
            Node::List { items, .. } => items.len() == 0,
            _ => false,
        };
        proof {
            match nodes@[i as int] {
                Node::List { items, .. } => { lemma_list_items_seq_v_index(items@); },
                _ => {},
            }
        }
        if !empty {
            let c = crate::node::copy_node(&nodes[i]);
            proof { lemma_nodes_seq_v_push(out@, c); }
            out.push(c);
        }
        i = i + 1;
    }
    proof { assert(nv.take(i as int) =~= nv); }
    out
}

/// The nodes after indenting `st..=en`: lists merge into a compatible list
/// just before them, the other nodes shift right, empty lists disappear.
fn handle_increase_indent(nodes: &Vec<Node>, st: usize, en: usize) -> (r: Vec<Node>)
    ensures nodes_seq_v(r@) == indent_nodes(nodes_seq_v(nodes@), st as int, en as int, IndentDirection::Increase),
{
    proof { lemma_nodes_seq_v_index(nodes@); }
    let mut ns = copy_nodes(nodes);
    let ms = merge_marks_exec(nodes, st, en);
    let mut k: usize = 0;
    while k < ms.len()
        invariant
            k <= ms.len(),
            nodes_seq_v(ns@) == merge_pass(nodes_seq_v(nodes@), ms@, k as int),
        decreases ms.len() - k,
    {
        merge_at_exec(&mut ns, ms[k]);
        k = k + 1;
    }
    shift_pass_exec(&mut ns, st, en, &ms, IndentDirection::Increase);
    drop_empty_exec(ns)
}

/// The nodes after unindenting `st..=en`.
fn handle_decrease_indent(nodes: &Vec<Node>, st: usize, en: usize) -> (r: Vec<Node>)
    ensures nodes_seq_v(r@) == indent_nodes(nodes_seq_v(nodes@), st as int, en as int, IndentDirection::Decrease),
{
    proof { lemma_nodes_seq_v_index(nodes@); }
    let mut ns = copy_nodes(nodes);
    let ms: Vec<usize> = Vec::new();
    proof { assert(ms@ =~= Seq::<usize>::empty()); }
    shift_pass_exec(&mut ns, st, en, &ms, IndentDirection::Decrease);
    ns
}

/// The nodes after indenting or unindenting `st..=en`.
fn indent_nodes_exec(nodes: &Vec<Node>, st: usize, en: usize, dir: IndentDirection) -> (r: Vec<Node>)
    ensures nodes_seq_v(r@) == indent_nodes(nodes_seq_v(nodes@), st as int, en as int, dir),
{
    match dir {
        IndentDirection::Increase => handle_increase_indent(nodes, st, en),
        IndentDirection::Decrease => handle_decrease_indent(nodes, st, en),
    }
}

/// The document after indenting (or unindenting) the selected nodes, from
/// the selection's first node to its last; without a selection nothing
/// changes.
pub open spec fn indent_effect(d: DocumentV, dir: IndentDirection) -> DocumentV {
    match d.selection {
        None => d,
        Some(sel) => DocumentV {
            nodes: indent_nodes(d.nodes, sel.start.path[0] as int, sel.end.path[0] as int, dir),
            ..d
        },
    }
}

/// What executing saves for undo: with a selection, the node list as it
/// was.
pub open spec fn indent_saves(d: DocumentV) -> Option<Seq<NodeV>> {
    if d.selection is Some { Some(d.nodes) } else { None }
}

/// The selection's positions have paths.
pub open spec fn indent_can_run(d: DocumentV) -> bool {
    d.selection matches Some(sel) ==> sel.start.path.len() > 0 && sel.end.path.len() > 0
}

/// Command to indent or unindent selected content
pub struct SelectionIndentCommand {
    direction: IndentDirection,
    original_nodes: Option<Vec<Node>>,
    original_selection: Option<Selection>,
}

impl SelectionIndentCommand {
    /// The direction of the change.
    pub closed spec fn direction(&self) -> IndentDirection { self.direction }

    /// The node list saved for undo, if any.
    pub closed spec fn saved(&self) -> Option<Seq<NodeV>> {
        match self.original_nodes {
            Some(ns) => Some(nodes_seq_v(ns@)),
            None => None,
        }
    }

    /// The selection saved for undo.
    pub closed spec fn saved_selection(&self) -> Option<SelectionV> { opt_selection_v(self.original_selection) }

    /// Creates a command that indents or unindents the selection
    pub fn new(direction: IndentDirection) -> (r: Self)
        ensures r.direction() == direction, r.saved() is None, r.saved_selection() is None,
    {
        SelectionIndentCommand { direction, original_nodes: None, original_selection: None }
    }
}

impl Command for SelectionIndentCommand {
    open spec fn can_execute(&self, document: &Document) -> bool {
        indent_can_run(document@)
    }

    open spec fn can_undo(&self, document: &Document) -> bool {
        true
    }

    /// Indents or unindents the selected nodes (see `indent_effect`),
    /// saving the selection and the node list.
    fn execute(&mut self, document: &mut Document) -> (r: Result<(), EditError>)
        ensures
            r == Ok::<(), EditError>(()),
            final(self).direction() == old(self).direction(),
            final(document)@ == indent_effect(old(document)@, old(self).direction()),
            final(self).saved() == (if old(document)@.selection is Some {
                indent_saves(old(document)@)
            } else {
                old(self).saved()
            }),
            final(self).saved_selection() == (if old(document)@.selection is Some {
                old(document)@.selection
            } else {
                old(self).saved_selection()
            }),
    {
        let sel = match &document.selection {
            None => {
                return Ok(());
            },
            Some(sel) => sel.clone(),
        };
        self.original_selection = Some(sel.clone());
        self.original_nodes = Some(copy_nodes(&document.nodes));
        let si = sel.start.path[0];
        let ei = sel.end.path[0];
        let nodes = indent_nodes_exec(&document.nodes, si, ei, self.direction);
        document.nodes = nodes;
        Ok(())
    }

    /// Puts the saved node list back and restores the saved selection.
    fn undo(&mut self, document: &mut Document) -> (r: Result<(), EditError>)
        ensures
            r == Ok::<(), EditError>(()),
            final(self).direction() == old(self).direction(),
            final(self).saved() is None,
            final(self).saved_selection() is None,
            final(document)@ == (DocumentV {
                nodes: match old(self).saved() { Some(ns) => ns, None => old(document)@.nodes },
                selection: if old(self).saved_selection() is Some { old(self).saved_selection() } else { old(document)@.selection },
                ..old(document)@
            }),
    {
        match self.original_nodes.take() {
            Some(ns) => { document.nodes = ns; },
            None => {},
        }
        match self.original_selection.take() {
            Some(sel) => { document.selection = Some(sel); },
            None => {},
        }
        Ok(())
    }
}

} // verus!
