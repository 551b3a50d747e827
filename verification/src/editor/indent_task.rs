//! Indenting and dedenting task items in a task list.
use vstd::prelude::*;
use crate::document::{Document, lemma_nodes_update};
use crate::error::EditError;
use crate::node::{
    ListItem, ListItemV, ListType, Node, NodeV, list_items_seq_v, lemma_list_items_seq_v_index, lemma_nodes_seq_v_index,
    copy_list_item, copy_list_items, list_item_v, nodes_seq_v, node_v, copy_nodes, lemma_nodes_seq_v_push,
};
use crate::editor::command::{Command, with_items, is_task_list};
use crate::editor::task_commands::{items_of, task_list_error_msg, other_error};

verus! {

/// The direction in which to indent a task item
#[derive(Debug, Clone, Copy, PartialEq, Eq, Structural)]
pub enum IndentDirection {
    /// Indent the task item (increase nesting level)
    Increase,
    /// Dedent the task item (decrease nesting level)
    Decrease,
}

/// A child node that is a task list with more than `m` items.
pub open spec fn nested_ok(n: NodeV, m: int) -> bool {
    is_task_list(n) && m < n->List_items.len()
}

/// The first index at or after `j` of a child that is a task list with
/// more than `m` items, or the number of children when there is none.
pub open spec fn first_nested_from(ch: Seq<NodeV>, m: int, j: int) -> int
    decreases ch.len() - j,
{
    if j < 0 || j >= ch.len() {
        ch.len() as int
    } else if nested_ok(ch[j], m) {
        j
    } else {
        first_nested_from(ch, m, j + 1)
    }
}

/// The first index at or after `p` of an item with a task list child of
/// more than `m` items, or the number of items when there is none.
pub open spec fn first_dedent_from(items: Seq<ListItemV>, m: int, p: int) -> int
    decreases items.len() - p,
{
    if p < 0 || p >= items.len() {
        items.len() as int
    } else if first_nested_from(items[p].children, m, 0) < items[p].children.len() {
        p
    } else {
        first_dedent_from(items, m, p + 1)
    }
}

/// `prev` with `cur` added at the end of its first task list child, or in
/// a new task list child when it has none.
pub open spec fn nest_under(prev: ListItemV, cur: ListItemV) -> ListItemV {
    let k = first_nested_from(prev.children, -1, 0);
    if k < prev.children.len() {
        ListItemV {
            children: prev.children.update(k, NodeV::List {
                list_type: ListType::Task,
                items: prev.children[k]->List_items.push(cur),
            }),
            ..prev
        }
    } else {
        ListItemV { children: prev.children.push(NodeV::List { list_type: ListType::Task, items: seq![cur] }), ..prev }
    }
}

/// The items after indenting item `i`: it moves into the item before it.
pub open spec fn indented(items: Seq<ListItemV>, i: int) -> Seq<ListItemV> {
    let rest = items.remove(i);
    rest.update(i - 1, nest_under(rest[i - 1], items[i]))
}

/// The items after dedenting: in the first item `p` with a task list child
/// of more than `k` items, item `k` of the first such child leaves it (the
/// child goes when it is left empty) and follows item `p`.
pub open spec fn dedented(items: Seq<ListItemV>, k: int, p: int) -> Seq<ListItemV> {
    let it = items[p];
    let j = first_nested_from(it.children, k, 0);
    let nested = it.children[j]->List_items;
    let remaining = nested.remove(k);
    let children = if remaining.len() > 0 {
        it.children.update(j, NodeV::List { list_type: ListType::Task, items: remaining })
    } else {
        it.children.remove(j)
    };
    items.take(p) + seq![ListItemV { children, ..it }, nested[k]] + items.skip(p + 1)
}

/// What indenting or dedenting item `i` of a task list's items gives: the
/// new items, or the message of the error.
pub open spec fn indent_items(items: Seq<ListItemV>, i: int, dir: IndentDirection) -> Result<Seq<ListItemV>, Seq<char>> {
    match dir {
        IndentDirection::Increase => if i == 0 {
            Err("Cannot indent the first item"@)
        } else {
            Ok(indented(items, i))
        },
        IndentDirection::Decrease => {
            let p = first_dedent_from(items, i, 0);
            if p >= items.len() {
                Err("Item not found in any nested list"@)
            } else {
                Ok(dedented(items, i, p))
            }
        },
    }
}

/// The first child at or after `j` that is a task list with more than `m`
/// items, where `m` is `k`, or -1 when `any`.
fn find_nested(ch: &Vec<Node>, k: usize, any: bool) -> (r: usize)
    ensures r == first_nested_from(nodes_seq_v(ch@), if any { -1 } else { k as int }, 0),
{
    proof { lemma_nodes_seq_v_index(ch@); }
    let ghost s = nodes_seq_v(ch@);
    let ghost m: int = if any { -1 } else { k as int };
    let mut i: usize = 0;
    while i < ch.len()
        invariant
            s == nodes_seq_v(ch@),
            s.len() == ch.len(),
            m == (if any { -1 } else { k as int }),
            forall|j: int| 0 <= j < s.len() ==> #[trigger] s[j] == node_v(&ch@[j]),
            i <= ch.len(),
            first_nested_from(s, m, 0) == first_nested_from(s, m, i as int),
        decreases ch.len() - i,
    {
        proof { crate::node::lemma_list_items_seq_v_index(Seq::empty()); }
        match &ch[i] {
            Node::List { list_type: ListType::Task, items } => {
                proof { lemma_list_items_seq_v_index(items@); }
                if any || k < items.len() {
                    return i;
                }
            },
            _ => {},
        }
        i = i + 1;
    }
    i
}

/// The first item at or after 0 with a task list child of more than `k`
/// items.
fn find_dedent(items: &Vec<ListItem>, k: usize) -> (r: usize)
    ensures r == first_dedent_from(list_items_seq_v(items@), k as int, 0),
{
    proof { lemma_list_items_seq_v_index(items@); }
    let ghost s = list_items_seq_v(items@);
    let mut p: usize = 0;
    while p < items.len()
        invariant
            s == list_items_seq_v(items@),
            s.len() == items.len(),
            forall|j: int| 0 <= j < s.len() ==> #[trigger] s[j] == list_item_v(&items@[j]),
            p <= items.len(),
            first_dedent_from(s, k as int, 0) == first_dedent_from(s, k as int, p as int),
        decreases items.len() - p,
    {
        proof { lemma_nodes_seq_v_index(items@[p as int].children@); }
        if find_nested(&items[p].children, k, false) < items[p].children.len() {
            return p;
        }
        p = p + 1;
    }
    p
}

/// `prev` with `cur` nested under it.
fn nest_item(prev: &ListItem, cur: ListItem) -> (r: ListItem)
    ensures list_item_v(&r) == nest_under(list_item_v(prev), list_item_v(&cur)),
{
    proof {
        lemma_nodes_seq_v_index(prev.children@);
        lemma_first_nested(nodes_seq_v(prev.children@), -1, 0);
    }
    let k = find_nested(&prev.children, 0, true);
    let mut children = copy_nodes(&prev.children);
    let ghost c0 = children@;
    if k < children.len() {
        let updated = match &prev.children[k] {
            Node::List { items, .. } => {
                let mut its = copy_list_items(items);
                let ghost i0 = its@;
                its.push(cur);
                proof {
                    lemma_list_items_seq_v_index(i0);
                    lemma_list_items_seq_v_index(its@);
                    assert(list_items_seq_v(its@) =~= list_items_seq_v(i0).push(list_item_v(&cur)));
                }
                Node::List { list_type: ListType::Task, items: its }
            },
            _ => Node::ThematicBreak,
        };
        children.set(k, updated);
        proof { lemma_nodes_update(c0, k as int, updated); }
    } else {
        let mut one: Vec<ListItem> = Vec::new();
        one.push(cur);
        proof {
            lemma_list_items_seq_v_index(one@);
            assert(list_items_seq_v(one@) =~= seq![list_item_v(&cur)]);
        }
        let l = Node::List { list_type: ListType::Task, items: one };
        children.push(l);
        proof { lemma_nodes_seq_v_push(c0, l); }
    }
    ListItem { children, checked: prev.checked }
}

/// The items after indenting item `i` (not the first).
fn indent_exec(items: &Vec<ListItem>, i: usize) -> (r: Vec<ListItem>)
    requires 0 < i < items.len(),
    ensures list_items_seq_v(r@) == indented(list_items_seq_v(items@), i as int),
{
    proof { lemma_list_items_seq_v_index(items@); }
    let ghost s = list_items_seq_v(items@);
    let cur = copy_list_item(&items[i]);
    let mut rest = copy_list_items(items);
    let ghost r0 = rest@;
    rest.remove(i);
    proof {
        lemma_list_items_seq_v_index(r0);
        lemma_list_items_seq_v_index(rest@);
        assert(list_items_seq_v(rest@) =~= s.remove(i as int));
    }
    let prev = nest_item(&rest[i - 1], cur);
    let ghost r1 = rest@;
    rest.set(i - 1, prev);
    proof {
        lemma_list_items_seq_v_index(rest@);
        assert(list_items_seq_v(rest@) =~= list_items_seq_v(r1).update(i - 1, list_item_v(&prev)));
    }
    rest
}

/// The items after dedenting item `k` of the first nested task list of
/// item `p` that has it.
fn dedent_exec(items: &Vec<ListItem>, k: usize, p: usize) -> (r: Vec<ListItem>)
    requires
        p < items.len(),
        p == first_dedent_from(list_items_seq_v(items@), k as int, 0),
    ensures list_items_seq_v(r@) == dedented(list_items_seq_v(items@), k as int, p as int),
{
    proof {
        lemma_list_items_seq_v_index(items@);
        lemma_first_dedent(list_items_seq_v(items@), k as int, 0);
    }
    let ghost s = list_items_seq_v(items@);
    let it = &items[p];
    proof {
        lemma_nodes_seq_v_index(it.children@);
        lemma_first_nested(nodes_seq_v(it.children@), k as int, 0);
    }
    let j = find_nested(&it.children, k, false);
    let (nested_item, remaining) = match &it.children[j] {
        Node::List { items: nested, .. } => {
            proof { lemma_list_items_seq_v_index(nested@); }
            let moved = copy_list_item(&nested[k]);
            let mut rem = copy_list_items(nested);
            let ghost n0 = rem@;
            rem.remove(k);
            proof {
                lemma_list_items_seq_v_index(n0);
                lemma_list_items_seq_v_index(rem@);
                assert(list_items_seq_v(rem@) =~= list_items_seq_v(n0).remove(k as int));
            }
            (moved, rem)
        },
        _ => (copy_list_item(it), Vec::new()),
    };
    let mut children = copy_nodes(&it.children);
    let ghost c0 = children@;
    if remaining.len() > 0 {
        let l = Node::List { list_type: ListType::Task, items: remaining };
        children.set(j, l);
        proof { lemma_nodes_update(c0, j as int, l); }
    } else {
        children.remove(j);
        proof {
            lemma_nodes_seq_v_index(c0);
            lemma_nodes_seq_v_index(children@);
            assert(nodes_seq_v(children@) =~= nodes_seq_v(c0).remove(j as int));
        }
    }
    let parent = ListItem { children, checked: it.checked };
    let mut out: Vec<ListItem> = Vec::new();
    let mut q: usize = 0;
    while q < p
        invariant
            q <= p < items.len(),
            s == list_items_seq_v(items@),
            s.len() == items.len(),
            list_items_seq_v(out@) == s.take(q as int),
            forall|j: int| 0 <= j < s.len() ==> #[trigger] s[j] == list_item_v(&items@[j]),
        decreases p - q,
    {
        let c = copy_list_item(&items[q]);
        let ghost o0 = out@;
        out.push(c);
        proof {
            lemma_list_items_seq_v_index(o0);
            lemma_list_items_seq_v_index(out@);
            assert(list_items_seq_v(out@) =~= s.take(q + 1));
        }
        q = q + 1;
    }
    let ghost o1 = out@;
    out.push(parent);
    out.push(nested_item);
    let mut q2: usize = p + 1;
    proof {
        lemma_list_items_seq_v_index(o1);
        lemma_list_items_seq_v_index(out@);
        assert(list_items_seq_v(out@) =~= s.take(p as int) + seq![list_item_v(&parent), list_item_v(&nested_item)]
            + s.subrange(p + 1, q2 as int));
    }
    while q2 < items.len()
        invariant
            p < q2 <= items.len(),
            s == list_items_seq_v(items@),
            s.len() == items.len(),
            list_items_seq_v(out@) == s.take(p as int) + seq![list_item_v(&parent), list_item_v(&nested_item)]
                + s.subrange(p + 1, q2 as int),
            forall|j: int| 0 <= j < s.len() ==> #[trigger] s[j] == list_item_v(&items@[j]),
        decreases items.len() - q2,
    {
        let c = copy_list_item(&items[q2]);
        let ghost o0 = out@;
        out.push(c);
        proof {
            lemma_list_items_seq_v_index(o0);
            lemma_list_items_seq_v_index(out@);
            assert(list_items_seq_v(out@) =~= list_items_seq_v(o0).push(s[q2 as int]));
            assert(s.subrange(p + 1, q2 + 1) =~= s.subrange(p + 1, q2 as int).push(s[q2 as int]));
            assert(list_items_seq_v(out@) =~= s.take(p as int) + seq![list_item_v(&parent), list_item_v(&nested_item)]
                + s.subrange(p + 1, q2 + 1));
        }
        q2 = q2 + 1;
    }
    proof { assert(s.subrange(p + 1, items.len() as int) =~= s.skip(p + 1)); }
    out
}

pub proof fn lemma_first_nested(ch: Seq<NodeV>, m: int, j: int)
    requires 0 <= j <= ch.len(),
    ensures
        j <= first_nested_from(ch, m, j) <= ch.len(),
        first_nested_from(ch, m, j) < ch.len() ==> nested_ok(ch[first_nested_from(ch, m, j)], m),
    decreases ch.len() - j,
{
    if j < ch.len() && !nested_ok(ch[j], m) {
        lemma_first_nested(ch, m, j + 1);
    }
}

pub proof fn lemma_first_dedent(items: Seq<ListItemV>, m: int, p: int)
    requires 0 <= p <= items.len(),
    ensures
        p <= first_dedent_from(items, m, p) <= items.len(),
        first_dedent_from(items, m, p) < items.len() ==> ({
            let q = first_dedent_from(items, m, p);
            first_nested_from(items[q].children, m, 0) < items[q].children.len()
        }),
    decreases items.len() - p,
{
    if p < items.len() && !(first_nested_from(items[p].children, m, 0) < items[p].children.len()) {
        lemma_first_dedent(items, m, p + 1);
    }
}

/// Command for indenting/dedenting task items in a task list
pub struct IndentTaskItemCommand {
    node_idx: usize,
    item_idx: usize,
    direction: IndentDirection,
    original_items: Option<Vec<ListItem>>,
}

impl IndentTaskItemCommand {
    /// The index of the task list node.
    pub closed spec fn node(&self) -> usize { self.node_idx }

    /// The index of the item (in a nested list, when dedenting).
    pub closed spec fn item(&self) -> usize { self.item_idx }

    /// The direction of the change.
    pub closed spec fn direction(&self) -> IndentDirection { self.direction }

    /// The items saved for undo.
    pub closed spec fn saved(&self) -> Option<Seq<ListItemV>> {
        match self.original_items {
            Some(v) => Some(list_items_seq_v(v@)),
            None => None,
        }
    }

    /// Create a new command to indent or dedent a task item
    pub fn new(node_idx: usize, item_idx: usize, direction: IndentDirection) -> (r: Self)
        ensures r.node() == node_idx, r.item() == item_idx, r.direction() == direction, r.saved() is None,
    {
        IndentTaskItemCommand { node_idx, item_idx, direction, original_items: None }
    }

    /// Create a command to increase the indent of a task item
    pub fn increase_indent(node_idx: usize, item_idx: usize) -> (r: Self)
        ensures r.node() == node_idx, r.item() == item_idx, r.direction() == IndentDirection::Increase, r.saved() is None,
    {
        Self::new(node_idx, item_idx, IndentDirection::Increase)
    }

    /// Create a command to decrease the indent of a task item
    pub fn decrease_indent(node_idx: usize, item_idx: usize) -> (r: Self)
        ensures r.node() == node_idx, r.item() == item_idx, r.direction() == IndentDirection::Decrease, r.saved() is None,
    {
        Self::new(node_idx, item_idx, IndentDirection::Decrease)
    }
}

impl Command for IndentTaskItemCommand {
    open spec fn can_execute(&self, document: &Document) -> bool { true }

    open spec fn can_undo(&self, document: &Document) -> bool { true }

    /// Indents or dedents the item (see `indent_items`). Once the task list
    /// and the item index are found valid, its items are saved for undo,
    /// also when the change itself then fails.
    fn execute(&mut self, document: &mut Document) -> (r: Result<(), EditError>)
        ensures
            final(self).node() == old(self).node(),
            final(self).item() == old(self).item(),
            final(self).direction() == old(self).direction(),
            old(self).node() >= old(document).nodes.len() ==> (r matches Err(EditError::IndexOutOfBounds))
                && final(document)@ == old(document)@ && final(self).saved() == old(self).saved(),
            old(self).node() < old(document).nodes.len() ==> match task_list_error_msg(old(document)@, old(self).node() as int) {
                Some(m) => other_error(r, m) && final(document)@ == old(document)@ && final(self).saved() == old(self).saved(),
                None => {
                    let items = items_of(old(document)@, old(self).node() as int);
                    if old(self).item() >= items.len() {
                        (r matches Err(EditError::IndexOutOfBounds)) && final(document)@ == old(document)@
                            && final(self).saved() == old(self).saved()
                    } else {
                        &&& final(self).saved() == Some(items)
                        &&& match indent_items(items, old(self).item() as int, old(self).direction()) {
                            Ok(new_items) => r is Ok && final(document)@ == with_items(old(document)@, old(self).node() as int, new_items),
                            Err(m) => other_error(r, m) && final(document)@ == old(document)@,
                        }
                    }
                },
            },
    {
        proof { lemma_nodes_seq_v_index(document.nodes@); }
        if self.node_idx >= document.nodes.len() {
            return Err(EditError::IndexOutOfBounds);
        }
        let i = self.node_idx;
        let k = self.item_idx;
        let outcome: Result<Vec<ListItem>, EditError> = match &document.nodes[i] {
            Node::List { list_type, items } => {
                match list_type {
                    ListType::Task => {},
                    _ => { return Err(EditError::Other("Node is not a task list".to_owned())); },
                }
                proof { lemma_list_items_seq_v_index(items@); }
                if k >= items.len() {
                    return Err(EditError::IndexOutOfBounds);
                }
                self.original_items = Some(copy_list_items(items));
                match self.direction {
                    IndentDirection::Increase => {
                        if k == 0 {
                            Err(EditError::Other("Cannot indent the first item".to_owned()))
                        } else {
                            Ok(indent_exec(items, k))
                        }
                    },
                    IndentDirection::Decrease => {
                        let p = find_dedent(items, k);
                        if p >= items.len() {
                            Err(EditError::Other("Item not found in any nested list".to_owned()))
                        } else {
                            Ok(dedent_exec(items, k, p))
                        }
                    },
                }
            },
            _ => { return Err(EditError::Other("Node is not a list".to_owned())); },
        };
        match outcome {
            Ok(new_items) => {
                let ghost old_nodes = document.nodes@;
                let l = Node::List { list_type: ListType::Task, items: new_items };
                document.nodes.set(i, l);
                proof { lemma_nodes_update(old_nodes, i as int, l); }
                Ok(())
            },
            Err(e) => Err(e),
        }
    }

    /// Puts the saved items back into the list node.
    fn undo(&mut self, document: &mut Document) -> (r: Result<(), EditError>)
        ensures
            *final(self) == *old(self),
            match old(self).saved() {
                None => other_error(r, "No original items to restore"@) && final(document)@ == old(document)@,
                Some(items) => if old(self).node() >= old(document).nodes.len() {
                    (r matches Err(EditError::IndexOutOfBounds)) && final(document)@ == old(document)@
                } else if old(document)@.nodes[old(self).node() as int] is List {
                    r is Ok && final(document)@ == with_items(old(document)@, old(self).node() as int, items)
                } else {
                    other_error(r, "Node is not a list"@) && final(document)@ == old(document)@
                },
            },
    {
        let saved = match &self.original_items {
            Some(v) => v,
            None => { return Err(EditError::Other("No original items to restore".to_owned())); },
        };
        proof { lemma_nodes_seq_v_index(document.nodes@); }
        if self.node_idx >= document.nodes.len() {
            return Err(EditError::IndexOutOfBounds);
        }
        let i = self.node_idx;
        let lt = match &document.nodes[i] {
            Node::List { list_type, .. } => *list_type,
            _ => { return Err(EditError::Other("Node is not a list".to_owned())); },
        };
        let ghost old_nodes = document.nodes@;
        let l = Node::List { list_type: lt, items: copy_list_items(saved) };
        document.nodes.set(i, l);
        proof { lemma_nodes_update(old_nodes, i as int, l); }
        Ok(())
    }
}

} // verus!
