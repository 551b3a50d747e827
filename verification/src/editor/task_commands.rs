//! Commands on the items of task lists.
use vstd::prelude::*;
use crate::document::{Document, DocumentV, lemma_nodes_update};
use crate::error::EditError;
use crate::inline::{InlineNode, single_inline, plain_text_v};
use crate::node::{ListItem, ListItemV, ListType, Node, NodeV, list_items_seq_v, lemma_list_items_seq_v_index, lemma_list_items_insert, lemma_list_items_remove, lemma_nodes_seq_v_index, task_item_v, copy_list_items, copy_list_item};
use crate::editor::command::{Command, with_items, is_task_list};

verus! {

/// Command to toggle the checked state of a task item
pub struct ToggleTaskCommand {
    node_index: usize,
    item_index: usize,
    previous_state: Option<bool>,
}

/// Command to add a task item to a task list
pub struct AddTaskItemCommand {
    node_index: usize,
    position: usize,
    text: String,
    checked: bool,
    added_index: Option<usize>,
}

/// Command to remove a task item from a task list
pub struct RemoveTaskItemCommand {
    node_index: usize,
    item_index: usize,
    removed_item: Option<ListItem>,
}

/// The checked state after a toggle: flipped, or checked when unset.
pub open spec fn toggled(c: Option<bool>) -> Option<bool> {
    Some(match c {
        Some(b) => !b,
        None => true,
    })
}

/// The items of the list node at `i`.
pub open spec fn items_of(d: DocumentV, i: int) -> Seq<ListItemV> {
    d.nodes[i]->List_items
}

/// The outcome of looking up a task list at `i`: `None` when it is one,
/// else the error the task commands report.
pub open spec fn task_list_error(d: DocumentV, i: int) -> Option<EditError> {
    if i >= d.nodes.len() {
        Some(EditError::IndexOutOfBounds)
    } else if !is_task_list(d.nodes[i]) {
        Some(EditError::UnsupportedOperation)
    } else {
        None
    }
}

pub open spec fn same_error(r: Result<(), EditError>, e: EditError) -> bool {
    match (r, e) {
        (Err(EditError::IndexOutOfBounds), EditError::IndexOutOfBounds) => true,
        (Err(EditError::UnsupportedOperation), EditError::UnsupportedOperation) => true,
        (Err(EditError::InvalidRange), EditError::InvalidRange) => true,
        (Err(EditError::InvalidNode), EditError::InvalidNode) => true,
        (Err(EditError::OperationFailed), EditError::OperationFailed) => true,
        (Err(EditError::Other(a)), EditError::Other(b)) => a@ == b@,
        _ => false,
    }
}

/// The document after replacing the items of the list at `i`, in terms of
/// the concrete items.
proof fn lemma_items_changed(old_nodes: Seq<Node>, i: int, lt: ListType, items: Vec<ListItem>, new_nodes: Seq<Node>)
    requires
        0 <= i < old_nodes.len(),
        old_nodes[i] is List,
        new_nodes == old_nodes.update(i, Node::List { list_type: lt, items }),
        lt == old_nodes[i]->List_list_type,
    ensures
        crate::node::nodes_seq_v(new_nodes) == crate::node::nodes_seq_v(old_nodes).update(i, NodeV::List {
            list_type: lt,
            items: list_items_seq_v(items@),
        }),
{
    lemma_nodes_update(old_nodes, i, Node::List { list_type: lt, items });
}


/// Looks up the task list at `i`, returning its number of items.
fn task_list_len(document: &Document, i: usize) -> (r: Result<usize, EditError>)
    ensures
        match task_list_error(document@, i as int) {
            Some(e) => r is Err && same_error(Err(r->Err_0), e),
            None => r is Ok && r->Ok_0 == items_of(document@, i as int).len(),
        },
{
    proof { lemma_nodes_seq_v_index(document.nodes@); }
    if i >= document.nodes.len() {
        return Err(EditError::IndexOutOfBounds);
    }
    match &document.nodes[i] {
        Node::List { list_type, items } => {
            match list_type {
                ListType::Task => {},
                _ => { return Err(EditError::UnsupportedOperation); },
            }
            proof { lemma_list_items_seq_v_index(items@); }
            Ok(items.len())
        },
        _ => Err(EditError::UnsupportedOperation),
    }
}

impl ToggleTaskCommand {
    pub closed spec fn node(&self) -> usize { self.node_index }
    pub closed spec fn item(&self) -> usize { self.item_index }
    pub closed spec fn previous(&self) -> Option<bool> { self.previous_state }

    /// Creates a command that toggles item `item_index` of the task list at `node_index`
    pub fn new(node_index: usize, item_index: usize) -> (r: Self)
        ensures r.node() == node_index, r.item() == item_index, r.previous() is None,
    {
        ToggleTaskCommand { node_index, item_index, previous_state: None }
    }
}

impl Command for ToggleTaskCommand {
    open spec fn can_execute(&self, document: &Document) -> bool { true }
    open spec fn can_undo(&self, document: &Document) -> bool { true }

    /// Flips the item's checked state (an unset state becomes checked),
    /// remembering the previous state.
    fn execute(&mut self, document: &mut Document) -> (r: Result<(), EditError>)
        ensures
            final(self).node() == old(self).node(),
            final(self).item() == old(self).item(),
            match task_list_error(old(document)@, old(self).node() as int) {
                Some(e) => same_error(r, e) && final(document)@ == old(document)@ && final(self).previous() == old(self).previous(),
                None => if old(self).item() >= items_of(old(document)@, old(self).node() as int).len() {
                    (r matches Err(EditError::IndexOutOfBounds)) && final(document)@ == old(document)@
                        && final(self).previous() == old(self).previous()
                } else {
                    let items = items_of(old(document)@, old(self).node() as int);
                    let it = items[old(self).item() as int];
                    &&& r is Ok
                    &&& final(self).previous() == it.checked
                    &&& final(document)@ == with_items(old(document)@, old(self).node() as int,
                        items.update(old(self).item() as int, ListItemV { checked: toggled(it.checked), ..it }))
                },
            },
    {
        let n = match task_list_len(document, self.node_index) {
            Ok(n) => n,
            Err(e) => { return Err(e); },
        };
        if self.item_index >= n {
            return Err(EditError::IndexOutOfBounds);
        }
        proof { lemma_nodes_seq_v_index(document.nodes@); }
        let ghost old_nodes = document.nodes@;
        match &mut document.nodes[self.node_index] {
            Node::List { list_type, items } => {
                proof { lemma_list_items_seq_v_index(items@); }
                let c = items[self.item_index].checked;
                self.previous_state = c;
                let ghost old_items = items@;
                items[self.item_index].checked = match c {
                    Some(b) => Some(!b),
                    None => Some(true),
                };
                proof {
                    lemma_list_items_seq_v_index(items@);
                    assert(list_items_seq_v(items@) =~= list_items_seq_v(old_items).update(self.item_index as int,
                        ListItemV { checked: toggled(c), ..list_items_seq_v(old_items)[self.item_index as int] }));
                }
            },
            _ => {},
        }
        proof {
            lemma_nodes_update(old_nodes, self.node_index as int, document.nodes@[self.node_index as int]);
            assert(document.nodes@ =~= old_nodes.update(self.node_index as int, document.nodes@[self.node_index as int]));
        }
        Ok(())
    }

    /// Restores the remembered checked state; fails when there is none.
    fn undo(&mut self, document: &mut Document) -> (r: Result<(), EditError>)
        ensures
            *final(self) == *old(self),
            match task_list_error(old(document)@, old(self).node() as int) {
                Some(e) => same_error(r, e) && final(document)@ == old(document)@,
                None => if old(self).item() >= items_of(old(document)@, old(self).node() as int).len() {
                    (r matches Err(EditError::IndexOutOfBounds)) && final(document)@ == old(document)@
                } else {
                    match old(self).previous() {
                        None => (r matches Err(EditError::OperationFailed)) && final(document)@ == old(document)@,
                        Some(p) => {
                            let items = items_of(old(document)@, old(self).node() as int);
                            let it = items[old(self).item() as int];
                            &&& r is Ok
                            &&& final(document)@ == with_items(old(document)@, old(self).node() as int,
                                items.update(old(self).item() as int, ListItemV { checked: Some(p), ..it }))
                        },
                    }
                },
            },
    {
        let n = match task_list_len(document, self.node_index) {
            Ok(n) => n,
            Err(e) => { return Err(e); },
        };
        if self.item_index >= n {
            return Err(EditError::IndexOutOfBounds);
        }
        let p = match self.previous_state {
            Some(p) => p,
            None => { return Err(EditError::OperationFailed); },
        };
        proof { lemma_nodes_seq_v_index(document.nodes@); }
        let ghost old_nodes = document.nodes@;
        match &mut document.nodes[self.node_index] {
            Node::List { list_type, items } => {
                proof { lemma_list_items_seq_v_index(items@); }
                let ghost old_items = items@;
                items[self.item_index].checked = Some(p);
                proof {
                    lemma_list_items_seq_v_index(items@);
                    assert(list_items_seq_v(items@) =~= list_items_seq_v(old_items).update(self.item_index as int,
                        ListItemV { checked: Some(p), ..list_items_seq_v(old_items)[self.item_index as int] }));
                }
            },
            _ => {},
        }
        proof {
            lemma_nodes_update(old_nodes, self.node_index as int, document.nodes@[self.node_index as int]);
            assert(document.nodes@ =~= old_nodes.update(self.node_index as int, document.nodes@[self.node_index as int]));
        }
        Ok(())
    }
}


impl AddTaskItemCommand {
    pub closed spec fn node(&self) -> usize { self.node_index }
    pub closed spec fn position(&self) -> usize { self.position }
    pub closed spec fn text(&self) -> Seq<char> { self.text@ }
    pub closed spec fn checked(&self) -> bool { self.checked }
    pub closed spec fn added(&self) -> Option<usize> { self.added_index }

    /// Creates a command that inserts a task item at `position` of the task list at `node_index`
    pub fn new(node_index: usize, position: usize, text: &str, checked: bool) -> (r: Self)
        ensures
            r.node() == node_index, r.position() == position, r.text() == text@, r.checked() == checked,
            r.added() is None,
    {
        AddTaskItemCommand { node_index, position, text: text.to_owned(), checked, added_index: None }
    }
}

impl Command for AddTaskItemCommand {
    open spec fn can_execute(&self, document: &Document) -> bool { true }
    open spec fn can_undo(&self, document: &Document) -> bool { true }

    /// Inserts a new task item holding the text at the position.
    fn execute(&mut self, document: &mut Document) -> (r: Result<(), EditError>)
        ensures
            final(self).node() == old(self).node(),
            final(self).position() == old(self).position(),
            final(self).text() == old(self).text(),
            final(self).checked() == old(self).checked(),
            match task_list_error(old(document)@, old(self).node() as int) {
                Some(e) => same_error(r, e) && final(document)@ == old(document)@ && final(self).added() == old(self).added(),
                None => if old(self).position() > items_of(old(document)@, old(self).node() as int).len() {
                    (r matches Err(EditError::IndexOutOfBounds)) && final(document)@ == old(document)@
                        && final(self).added() == old(self).added()
                } else {
                    &&& r is Ok
                    &&& final(self).added() == Some(old(self).position())
                    &&& final(document)@ == with_items(old(document)@, old(self).node() as int,
                        items_of(old(document)@, old(self).node() as int).insert(old(self).position() as int,
                            task_item_v(old(self).text(), old(self).checked())))
                },
            },
    {
        let n = match task_list_len(document, self.node_index) {
            Ok(n) => n,
            Err(e) => { return Err(e); },
        };
        if self.position > n {
            return Err(EditError::IndexOutOfBounds);
        }
        let item = ListItem::task(self.text.as_str(), self.checked);
        proof { lemma_nodes_seq_v_index(document.nodes@); }
        let ghost old_nodes = document.nodes@;
        match &mut document.nodes[self.node_index] {
            Node::List { list_type, items } => {
                proof {
                    lemma_list_items_seq_v_index(items@);
                    lemma_list_items_insert(items@, self.position as int, item);
                    lemma_list_items_seq_v_index(seq![item]);
                }
                items.insert(self.position, item);
            },
            _ => {},
        }
        self.added_index = Some(self.position);
        proof {
            lemma_nodes_update(old_nodes, self.node_index as int, document.nodes@[self.node_index as int]);
            assert(document.nodes@ =~= old_nodes.update(self.node_index as int, document.nodes@[self.node_index as int]));
        }
        Ok(())
    }

    /// Removes the added item again.
    fn undo(&mut self, document: &mut Document) -> (r: Result<(), EditError>)
        ensures
            *final(self) == *old(self),
            match task_list_error(old(document)@, old(self).node() as int) {
                Some(e) => same_error(r, e) && final(document)@ == old(document)@,
                None => match old(self).added() {
                    None => (r matches Err(EditError::OperationFailed)) && final(document)@ == old(document)@,
                    Some(p) => if p < items_of(old(document)@, old(self).node() as int).len() {
                        r is Ok && final(document)@ == with_items(old(document)@, old(self).node() as int,
                            items_of(old(document)@, old(self).node() as int).remove(p as int))
                    } else {
                        (r matches Err(EditError::IndexOutOfBounds)) && final(document)@ == old(document)@
                    },
                },
            },
    {
        let n = match task_list_len(document, self.node_index) {
            Ok(n) => n,
            Err(e) => { return Err(e); },
        };
        let p = match self.added_index {
            Some(p) => p,
            None => { return Err(EditError::OperationFailed); },
        };
        if p >= n {
            return Err(EditError::IndexOutOfBounds);
        }
        proof { lemma_nodes_seq_v_index(document.nodes@); }
        let ghost old_nodes = document.nodes@;
        match &mut document.nodes[self.node_index] {
            Node::List { list_type, items } => {
                proof {
                    lemma_list_items_seq_v_index(items@);
                    lemma_list_items_remove(items@, p as int);
                }
                items.remove(p);
            },
            _ => {},
        }
        proof {
            lemma_nodes_update(old_nodes, self.node_index as int, document.nodes@[self.node_index as int]);
            assert(document.nodes@ =~= old_nodes.update(self.node_index as int, document.nodes@[self.node_index as int]));
        }
        Ok(())
    }
}

impl RemoveTaskItemCommand {
    pub closed spec fn node(&self) -> usize { self.node_index }
    pub closed spec fn item(&self) -> usize { self.item_index }
    pub closed spec fn removed(&self) -> Option<ListItemV> {
        match self.removed_item {
            Some(x) => Some(x@),
            None => None,
        }
    }

    /// Creates a command that removes item `item_index` of the task list at `node_index`
    pub fn new(node_index: usize, item_index: usize) -> (r: Self)
        ensures r.node() == node_index, r.item() == item_index, r.removed() is None,
    {
        RemoveTaskItemCommand { node_index, item_index, removed_item: None }
    }
}

impl Command for RemoveTaskItemCommand {
    open spec fn can_execute(&self, document: &Document) -> bool { true }
    open spec fn can_undo(&self, document: &Document) -> bool { true }

    /// Removes the item, keeping it for undo; the last item of a list is not removed.
    fn execute(&mut self, document: &mut Document) -> (r: Result<(), EditError>)
        ensures
            final(self).node() == old(self).node(),
            final(self).item() == old(self).item(),
            match task_list_error(old(document)@, old(self).node() as int) {
                Some(e) => same_error(r, e) && final(document)@ == old(document)@ && final(self).removed() == old(self).removed(),
                None => {
                    let items = items_of(old(document)@, old(self).node() as int);
                    if old(self).item() >= items.len() {
                        (r matches Err(EditError::IndexOutOfBounds)) && final(document)@ == old(document)@
                            && final(self).removed() == old(self).removed()
                    } else if items.len() == 1 {
                        (r matches Err(EditError::UnsupportedOperation)) && final(document)@ == old(document)@
                            && final(self).removed() == old(self).removed()
                    } else {
                        &&& r is Ok
                        &&& final(self).removed() == Some(items[old(self).item() as int])
                        &&& final(document)@ == with_items(old(document)@, old(self).node() as int,
                            items.remove(old(self).item() as int))
                    }
                },
            },
    {
        let n = match task_list_len(document, self.node_index) {
            Ok(n) => n,
            Err(e) => { return Err(e); },
        };
        if self.item_index >= n {
            return Err(EditError::IndexOutOfBounds);
        }
        if n == 1 {
            return Err(EditError::UnsupportedOperation);
        }
        proof { lemma_nodes_seq_v_index(document.nodes@); }
        let ghost old_nodes = document.nodes@;
        match &mut document.nodes[self.node_index] {
            Node::List { list_type, items } => {
                proof {
                    lemma_list_items_seq_v_index(items@);
                    lemma_list_items_remove(items@, self.item_index as int);
                }
                let it = items.remove(self.item_index);
                self.removed_item = Some(it);
            },
            _ => {},
        }
        proof {
            lemma_nodes_update(old_nodes, self.node_index as int, document.nodes@[self.node_index as int]);
            assert(document.nodes@ =~= old_nodes.update(self.node_index as int, document.nodes@[self.node_index as int]));
        }
        Ok(())
    }

    /// Puts the removed item back at its index.
    fn undo(&mut self, document: &mut Document) -> (r: Result<(), EditError>)
        ensures
            final(self).node() == old(self).node(),
            final(self).item() == old(self).item(),
            match task_list_error(old(document)@, old(self).node() as int) {
                Some(e) => same_error(r, e) && final(document)@ == old(document)@ && final(self).removed() == old(self).removed(),
                None => match old(self).removed() {
                    None => (r matches Err(EditError::OperationFailed)) && final(document)@ == old(document)@
                        && final(self).removed() is None,
                    Some(it) => if old(self).item() <= items_of(old(document)@, old(self).node() as int).len() {
                        &&& r is Ok
                        &&& final(self).removed() is None
                        &&& final(document)@ == with_items(old(document)@, old(self).node() as int,
                            items_of(old(document)@, old(self).node() as int).insert(old(self).item() as int, it))
                    } else {
                        (r matches Err(EditError::IndexOutOfBounds)) && final(document)@ == old(document)@
                            && final(self).removed() == old(self).removed()
                    },
                },
            },
    {
        let n = match task_list_len(document, self.node_index) {
            Ok(n) => n,
            Err(e) => { return Err(e); },
        };
        if self.removed_item.is_none() {
            return Err(EditError::OperationFailed);
        }
        if self.item_index > n {
            return Err(EditError::IndexOutOfBounds);
        }
        let it = match self.removed_item.take() {
            Some(it) => it,
            None => { return Err(EditError::OperationFailed); },
        };
        proof { lemma_nodes_seq_v_index(document.nodes@); }
        let ghost old_nodes = document.nodes@;
        match &mut document.nodes[self.node_index] {
            Node::List { list_type, items } => {
                proof {
                    lemma_list_items_seq_v_index(items@);
                    lemma_list_items_insert(items@, self.item_index as int, it);
                    lemma_list_items_seq_v_index(seq![it]);
                }
                items.insert(self.item_index, it);
            },
            _ => {},
        }
        proof {
            lemma_nodes_update(old_nodes, self.node_index as int, document.nodes@[self.node_index as int]);
            assert(document.nodes@ =~= old_nodes.update(self.node_index as int, document.nodes@[self.node_index as int]));
        }
        Ok(())
    }
}


/// Command to replace the text of a task item
pub struct EditTaskItemCommand {
    node_idx: usize,
    item_idx: usize,
    text: String,
    previous_item: Option<ListItem>,
}

/// Command to move a task item one place up or down
pub struct MoveTaskItemCommand {
    node_idx: usize,
    item_idx: usize,
    move_down: bool,
    previous_items: Option<Vec<ListItem>>,
}

/// Command to move a task item from one position to another
pub struct MoveTaskPositionCommand {
    node_idx: usize,
    from_idx: usize,
    to_idx: usize,
    previous_items: Option<Vec<ListItem>>,
}

/// The error the editing commands report when there is no task list at `i`.
pub open spec fn task_list_error_msg(d: DocumentV, i: int) -> Option<Seq<char>> {
    if i >= d.nodes.len() {
        None
    } else if !(d.nodes[i] is List) {
        Some("Node is not a list"@)
    } else if !is_task_list(d.nodes[i]) {
        Some("Node is not a task list"@)
    } else {
        None
    }
}

pub open spec fn other_error(r: Result<(), EditError>, msg: Seq<char>) -> bool {
    r matches Err(EditError::Other(m)) && m@ == msg
}

/// Looks up the task list at `i` for the editing commands, returning its
/// number of items.
fn task_list_len_msg(document: &Document, i: usize) -> (r: Result<usize, EditError>)
    ensures
        i >= document.nodes.len() ==> r matches Err(EditError::IndexOutOfBounds),
        i < document.nodes.len() ==> match task_list_error_msg(document@, i as int) {
            Some(m) => r matches Err(EditError::Other(x)) && x@ == m,
            None => r is Ok && r->Ok_0 == items_of(document@, i as int).len(),
        },
{
    proof { lemma_nodes_seq_v_index(document.nodes@); }
    if i >= document.nodes.len() {
        return Err(EditError::IndexOutOfBounds);
    }
    match &document.nodes[i] {
        Node::List { list_type, items } => {
            match list_type {
                ListType::Task => {},
                _ => { return Err(EditError::Other("Node is not a task list".to_owned())); },
            }
            proof { lemma_list_items_seq_v_index(items@); }
            Ok(items.len())
        },
        _ => Err(EditError::Other("Node is not a list".to_owned())),
    }
}

/// The index of the first paragraph among `ch`, or `ch.len()` when none.
pub open spec fn first_para(ch: Seq<NodeV>) -> int
    decreases ch.len(),
{
    if ch.len() == 0 {
        0
    } else if ch[0] is Paragraph {
        0
    } else {
        1 + first_para(ch.drop_first())
    }
}

proof fn lemma_first_para(ch: Seq<NodeV>)
    ensures
        0 <= first_para(ch) <= ch.len(),
        first_para(ch) < ch.len() ==> ch[first_para(ch)] is Paragraph,
        forall|k: int| 0 <= k < first_para(ch) ==> !(#[trigger] ch[k] is Paragraph),
    decreases ch.len(),
{
    if ch.len() > 0 && !(ch[0] is Paragraph) {
        lemma_first_para(ch.drop_first());
        assert forall|k: int| 0 <= k < first_para(ch) implies !(#[trigger] ch[k] is Paragraph) by {
            if k > 0 { assert(ch[k] == ch.drop_first()[k - 1]); }
        }
    }
}


/// The item with its first paragraph holding just `t` (or a new paragraph
/// with `t` when it has none).
pub open spec fn item_with_text(it: ListItemV, t: Seq<char>) -> ListItemV {
    let fp = first_para(it.children);
    if fp < it.children.len() {
        ListItemV { children: it.children.update(fp, NodeV::Paragraph { children: seq![plain_text_v(t)] }), ..it }
    } else {
        ListItemV { children: it.children.push(crate::node::para_v(t)), ..it }
    }
}

fn find_first_para(ch: &Vec<Node>) -> (r: usize)
    ensures r == first_para(crate::node::nodes_seq_v(ch@)),
{
    let ghost s = crate::node::nodes_seq_v(ch@);
    proof {
        lemma_nodes_seq_v_index(ch@);
        lemma_first_para(s);
    }
    let mut i: usize = 0;
    while i < ch.len()
        invariant
            s == crate::node::nodes_seq_v(ch@),
            s.len() == ch.len(),
            i <= ch.len(),
            i <= first_para(s),
            0 <= first_para(s) <= s.len(),
            first_para(s) < s.len() ==> s[first_para(s)] is Paragraph,
            forall|k: int| 0 <= k < first_para(s) ==> !(#[trigger] s[k] is Paragraph),
            forall|k: int| 0 <= k < s.len() ==> #[trigger] s[k] == crate::node::node_v(&ch@[k]),
        decreases ch.len() - i,
    {
        proof { assert(s[i as int] == crate::node::node_v(&ch@[i as int])); }
        match &ch[i] {
            Node::Paragraph { .. } => {
                proof { assert(s[i as int] is Paragraph); }
                return i;
            },
            _ => {},
        }
        i = i + 1;
    }
    i
}

/// Sets the first paragraph of `item` to hold just `t` (adding one if it has none).
fn set_item_text(item: &mut ListItem, t: &str)
    ensures final(item)@ == item_with_text(old(item)@, t@),
{
    let fp = find_first_para(&item.children);
    let p = Node::Paragraph { children: single_inline(InlineNode::text(t)) };
    proof { lemma_nodes_seq_v_index(item.children@); }
    if fp < item.children.len() {
        proof { lemma_nodes_update(item.children@, fp as int, p); }
        item.children.set(fp, p);
    } else {
        proof { crate::node::lemma_nodes_seq_v_push(item.children@, p); }
        item.children.push(p);
    }
}


impl EditTaskItemCommand {
    pub closed spec fn node(&self) -> usize { self.node_idx }
    pub closed spec fn item(&self) -> usize { self.item_idx }
    pub closed spec fn text(&self) -> Seq<char> { self.text@ }
    /// The item as it was before the last edit, for undo.
    pub closed spec fn previous(&self) -> Option<ListItemV> {
        match self.previous_item {
            Some(it) => Some(it@),
            None => None,
        }
    }

    /// Creates a command that sets the text of item `item_idx` of the task list at `node_idx`
    pub fn new(node_idx: usize, item_idx: usize, text: &str) -> (r: Self)
        ensures r.node() == node_idx, r.item() == item_idx, r.text() == text@, r.previous() is None,
    {
        EditTaskItemCommand { node_idx, item_idx, text: text.to_owned(), previous_item: None }
    }
}

impl Command for EditTaskItemCommand {
    open spec fn can_execute(&self, document: &Document) -> bool { true }
    open spec fn can_undo(&self, document: &Document) -> bool { true }

    /// Replaces the item's first paragraph with one holding the new text,
    /// remembering the item as it was.
    fn execute(&mut self, document: &mut Document) -> (r: Result<(), EditError>)
        ensures
            final(self).node() == old(self).node(),
            final(self).item() == old(self).item(),
            final(self).text() == old(self).text(),
            old(self).node() >= old(document).nodes.len() ==> (r matches Err(EditError::IndexOutOfBounds))
                && final(document)@ == old(document)@ && final(self).previous() == old(self).previous(),
            old(self).node() < old(document).nodes.len() ==> match task_list_error_msg(old(document)@, old(self).node() as int) {
                Some(m) => other_error(r, m) && final(document)@ == old(document)@ && final(self).previous() == old(self).previous(),
                None => {
                    let items = items_of(old(document)@, old(self).node() as int);
                    if old(self).item() >= items.len() {
                        (r matches Err(EditError::IndexOutOfBounds)) && final(document)@ == old(document)@
                            && final(self).previous() == old(self).previous()
                    } else {
                        let it = items[old(self).item() as int];
                        &&& r is Ok
                        &&& final(self).previous() == Some(it)
                        &&& final(document)@ == with_items(old(document)@, old(self).node() as int,
                            items.update(old(self).item() as int, item_with_text(it, old(self).text())))
                    }
                },
            },
    {
        let n = match task_list_len_msg(document, self.node_idx) {
            Ok(n) => n,
            Err(e) => { return Err(e); },
        };
        if self.item_idx >= n {
            return Err(EditError::IndexOutOfBounds);
        }
        proof { lemma_nodes_seq_v_index(document.nodes@); }
        let ghost old_nodes = document.nodes@;
        match &mut document.nodes[self.node_idx] {
            Node::List { list_type, items } => {
                proof { lemma_list_items_seq_v_index(items@); }
                let ghost old_items = items@;
                self.previous_item = Some(copy_list_item(&items[self.item_idx]));
                set_item_text(&mut items[self.item_idx], self.text.as_str());
                proof {
                    lemma_list_items_seq_v_index(items@);
                    assert(list_items_seq_v(items@) =~= list_items_seq_v(old_items).update(self.item_idx as int,
                        item_with_text(list_items_seq_v(old_items)[self.item_idx as int], self.text@)));
                }
            },
            _ => {},
        }
        proof {
            lemma_nodes_update(old_nodes, self.node_idx as int, document.nodes@[self.node_idx as int]);
            assert(document.nodes@ =~= old_nodes.update(self.node_idx as int, document.nodes@[self.node_idx as int]));
        }
        Ok(())
    }

    /// Puts the remembered item back.
    fn undo(&mut self, document: &mut Document) -> (r: Result<(), EditError>)
        ensures
            *final(self) == *old(self),
            old(self).previous() is None ==> other_error(r, "Previous text state not available for undo"@)
                && final(document)@ == old(document)@,
            old(self).previous() is Some && old(self).node() >= old(document).nodes.len()
                ==> (r matches Err(EditError::IndexOutOfBounds)) && final(document)@ == old(document)@,
            old(self).previous() is Some && old(self).node() < old(document).nodes.len() ==> match task_list_error_msg(old(document)@, old(self).node() as int) {
                Some(m) => other_error(r, m) && final(document)@ == old(document)@,
                None => {
                    let items = items_of(old(document)@, old(self).node() as int);
                    if old(self).item() >= items.len() {
                        (r matches Err(EditError::IndexOutOfBounds)) && final(document)@ == old(document)@
                    } else {
                        &&& r is Ok
                        &&& final(document)@ == with_items(old(document)@, old(self).node() as int,
                            items.update(old(self).item() as int, old(self).previous()->0))
                    }
                },
            },
    {
        let prev = match &self.previous_item {
            Some(p) => p,
            None => { return Err(EditError::Other("Previous text state not available for undo".to_owned())); },
        };
        let n = match task_list_len_msg(document, self.node_idx) {
            Ok(n) => n,
            Err(e) => { return Err(e); },
        };
        if self.item_idx >= n {
            return Err(EditError::IndexOutOfBounds);
        }
        proof { lemma_nodes_seq_v_index(document.nodes@); }
        let ghost old_nodes = document.nodes@;
        let restored = copy_list_item(prev);
        match &mut document.nodes[self.node_idx] {
            Node::List { list_type, items } => {
                proof { lemma_list_items_seq_v_index(items@); }
                let ghost old_items = items@;
                items.set(self.item_idx, restored);
                proof {
                    lemma_list_items_seq_v_index(items@);
                    assert(list_items_seq_v(items@) =~= list_items_seq_v(old_items).update(self.item_idx as int, prev@));
                }
            },
            _ => {},
        }
        proof {
            lemma_nodes_update(old_nodes, self.node_idx as int, document.nodes@[self.node_idx as int]);
            assert(document.nodes@ =~= old_nodes.update(self.node_idx as int, document.nodes@[self.node_idx as int]));
        }
        Ok(())
    }
}

/// Restores saved list items into the list at `i`, for the move commands'
/// undo.
fn restore_items(document: &mut Document, i: usize, saved: &Option<Vec<ListItem>>) -> (r: Result<(), EditError>)
    ensures
        saved is None ==> other_error(r, "Previous state not available for undo"@) && final(document)@ == old(document)@,
        saved is Some && i >= old(document).nodes.len() ==> (r matches Err(EditError::IndexOutOfBounds))
            && final(document)@ == old(document)@,
        saved is Some && i < old(document).nodes.len() && !(old(document)@.nodes[i as int] is List)
            ==> other_error(r, "Node is not a list"@) && final(document)@ == old(document)@,
        saved is Some && i < old(document).nodes.len() && old(document)@.nodes[i as int] is List
            ==> r is Ok && final(document)@ == with_items(old(document)@, i as int, list_items_seq_v(saved->0@)),
{
    let prev = match saved {
        Some(p) => p,
        None => { return Err(EditError::Other("Previous state not available for undo".to_owned())); },
    };
    proof { lemma_nodes_seq_v_index(document.nodes@); }
    if i >= document.nodes.len() {
        return Err(EditError::IndexOutOfBounds);
    }
    let is_list = match &document.nodes[i] {
        Node::List { .. } => true,
        _ => false,
    };
    if !is_list {
        return Err(EditError::Other("Node is not a list".to_owned()));
    }
    let ghost old_nodes = document.nodes@;
    match &mut document.nodes[i] {
        Node::List { list_type, items } => {
            *items = copy_list_items(prev);
        },
        _ => {},
    }
    proof {
        lemma_nodes_update(old_nodes, i as int, document.nodes@[i as int]);
        assert(document.nodes@ =~= old_nodes.update(i as int, document.nodes@[i as int]));
    }
    Ok(())
}

impl MoveTaskItemCommand {
    pub closed spec fn node(&self) -> usize { self.node_idx }
    pub closed spec fn item(&self) -> usize { self.item_idx }
    pub closed spec fn down(&self) -> bool { self.move_down }
    pub closed spec fn saved(&self) -> Option<Seq<ListItemV>> {
        match self.previous_items {
            Some(v) => Some(list_items_seq_v(v@)),
            None => None,
        }
    }

    /// Creates a command that moves item `item_idx` one place down (or up)
    pub fn new(node_idx: usize, item_idx: usize, move_down: bool) -> (r: Self)
        ensures r.node() == node_idx, r.item() == item_idx, r.down() == move_down, r.saved() is None,
    {
        MoveTaskItemCommand { node_idx, item_idx, move_down, previous_items: None }
    }

    /// Creates a command that moves an item one place down
    pub fn move_down(node_idx: usize, item_idx: usize) -> (r: Self)
        ensures r.node() == node_idx, r.item() == item_idx, r.down(), r.saved() is None,
    {
        Self::new(node_idx, item_idx, true)
    }

    /// Creates a command that moves an item one place up
    pub fn move_up(node_idx: usize, item_idx: usize) -> (r: Self)
        ensures r.node() == node_idx, r.item() == item_idx, !r.down(), r.saved() is None,
    {
        Self::new(node_idx, item_idx, false)
    }
}

/// `s` with the elements at `i` and `j` exchanged.
pub open spec fn swapped<A>(s: Seq<A>, i: int, j: int) -> Seq<A> {
    s.update(i, s[j]).update(j, s[i])
}

impl Command for MoveTaskItemCommand {
    open spec fn can_execute(&self, document: &Document) -> bool { true }
    open spec fn can_undo(&self, document: &Document) -> bool { true }

    /// Swaps the item with its neighbour below (or above), saving the items
    /// for undo; fails at the bottom (or top) of the list.
    fn execute(&mut self, document: &mut Document) -> (r: Result<(), EditError>)
        ensures
            final(self).node() == old(self).node(),
            final(self).item() == old(self).item(),
            final(self).down() == old(self).down(),
            old(self).node() >= old(document).nodes.len() ==> (r matches Err(EditError::IndexOutOfBounds))
                && final(document)@ == old(document)@ && final(self).saved() == old(self).saved(),
            old(self).node() < old(document).nodes.len() ==> match task_list_error_msg(old(document)@, old(self).node() as int) {
                Some(m) => other_error(r, m) && final(document)@ == old(document)@ && final(self).saved() == old(self).saved(),
                None => {
                    let items = items_of(old(document)@, old(self).node() as int);
                    let i = old(self).item() as int;
                    if i >= items.len() {
                        (r matches Err(EditError::IndexOutOfBounds)) && final(document)@ == old(document)@
                            && final(self).saved() == old(self).saved()
                    } else if old(self).down() && i + 1 >= items.len() {
                        other_error(r, "Already at the bottom"@) && final(document)@ == old(document)@
                            && final(self).saved() == Some(items)
                    } else if !old(self).down() && i == 0 {
                        other_error(r, "Already at the top"@) && final(document)@ == old(document)@
                            && final(self).saved() == Some(items)
                    } else {
                        let j = if old(self).down() { i + 1 } else { i - 1 };
                        &&& r is Ok
                        &&& final(self).saved() == Some(items)
                        &&& final(document)@ == with_items(old(document)@, old(self).node() as int, swapped(items, i, j))
                    }
                },
            },
    {
        let n = match task_list_len_msg(document, self.node_idx) {
            Ok(n) => n,
            Err(e) => { return Err(e); },
        };
        if self.item_idx >= n {
            return Err(EditError::IndexOutOfBounds);
        }
        proof { lemma_nodes_seq_v_index(document.nodes@); }
        match &document.nodes[self.node_idx] {
            Node::List { items, .. } => { self.previous_items = Some(copy_list_items(items)); },
            _ => {},
        }
        let new_idx = if self.move_down {
            if self.item_idx + 1 >= n {
                return Err(EditError::Other("Already at the bottom".to_owned()));
            }
            self.item_idx + 1
        } else {
            if self.item_idx == 0 {
                return Err(EditError::Other("Already at the top".to_owned()));
            }
            self.item_idx - 1
        };
        let ghost old_nodes = document.nodes@;
        match &mut document.nodes[self.node_idx] {
            Node::List { list_type, items } => {
                proof { lemma_list_items_seq_v_index(items@); }
                let ghost old_items = items@;
                let (lo, hi) = if self.item_idx < new_idx { (self.item_idx, new_idx) } else { (new_idx, self.item_idx) };
                let x = items.remove(hi);
                items.insert(lo, x);
                proof {
                    lemma_list_items_seq_v_index(items@);
                    assert(list_items_seq_v(items@) =~= swapped(list_items_seq_v(old_items), self.item_idx as int, new_idx as int));
                }
            },
            _ => {},
        }
        proof {
            lemma_nodes_update(old_nodes, self.node_idx as int, document.nodes@[self.node_idx as int]);
            assert(document.nodes@ =~= old_nodes.update(self.node_idx as int, document.nodes@[self.node_idx as int]));
        }
        Ok(())
    }

    /// Puts the saved items back.
    fn undo(&mut self, document: &mut Document) -> (r: Result<(), EditError>)
        ensures
            *final(self) == *old(self),
            old(self).saved() is None ==> other_error(r, "Previous state not available for undo"@) && final(document)@ == old(document)@,
            old(self).saved() is Some && old(self).node() >= old(document).nodes.len() ==> (r matches Err(EditError::IndexOutOfBounds))
                && final(document)@ == old(document)@,
            old(self).saved() is Some && old(self).node() < old(document).nodes.len() && !(old(document)@.nodes[old(self).node() as int] is List)
                ==> other_error(r, "Node is not a list"@) && final(document)@ == old(document)@,
            old(self).saved() is Some && old(self).node() < old(document).nodes.len() && old(document)@.nodes[old(self).node() as int] is List
                ==> r is Ok && final(document)@ == with_items(old(document)@, old(self).node() as int, old(self).saved()->0),
    {
        restore_items(document, self.node_idx, &self.previous_items)
    }
}

impl MoveTaskPositionCommand {
    pub closed spec fn node(&self) -> usize { self.node_idx }
    pub closed spec fn from(&self) -> usize { self.from_idx }
    pub closed spec fn to(&self) -> usize { self.to_idx }
    pub closed spec fn saved(&self) -> Option<Seq<ListItemV>> {
        match self.previous_items {
            Some(v) => Some(list_items_seq_v(v@)),
            None => None,
        }
    }

    /// Creates a command that moves item `from_idx` to position `to_idx`
    pub fn new(node_idx: usize, from_idx: usize, to_idx: usize) -> (r: Self)
        ensures r.node() == node_idx, r.from() == from_idx, r.to() == to_idx, r.saved() is None,
    {
        MoveTaskPositionCommand { node_idx, from_idx, to_idx, previous_items: None }
    }
}

impl Command for MoveTaskPositionCommand {
    open spec fn can_execute(&self, document: &Document) -> bool { true }
    open spec fn can_undo(&self, document: &Document) -> bool { true }

    /// Takes the item out and puts it at the target position, saving the
    /// items for undo.
    fn execute(&mut self, document: &mut Document) -> (r: Result<(), EditError>)
        ensures
            final(self).node() == old(self).node(),
            final(self).from() == old(self).from(),
            final(self).to() == old(self).to(),
            old(self).node() >= old(document).nodes.len() ==> (r matches Err(EditError::IndexOutOfBounds))
                && final(document)@ == old(document)@ && final(self).saved() == old(self).saved(),
            old(self).node() < old(document).nodes.len() ==> match task_list_error_msg(old(document)@, old(self).node() as int) {
                Some(m) => other_error(r, m) && final(document)@ == old(document)@ && final(self).saved() == old(self).saved(),
                None => {
                    let items = items_of(old(document)@, old(self).node() as int);
                    let f = old(self).from() as int;
                    let t = old(self).to() as int;
                    if f >= items.len() || t >= items.len() {
                        (r matches Err(EditError::IndexOutOfBounds)) && final(document)@ == old(document)@
                            && final(self).saved() == old(self).saved()
                    } else if f == t {
                        r is Ok && final(document)@ == old(document)@ && final(self).saved() == old(self).saved()
                    } else {
                        &&& r is Ok
                        &&& final(self).saved() == Some(items)
                        &&& final(document)@ == with_items(old(document)@, old(self).node() as int, items.remove(f).insert(t, items[f]))
                    }
                },
            },
    {
        let n = match task_list_len_msg(document, self.node_idx) {
            Ok(n) => n,
            Err(e) => { return Err(e); },
        };
        if self.from_idx >= n || self.to_idx >= n {
            return Err(EditError::IndexOutOfBounds);
        }
        if self.from_idx == self.to_idx {
            return Ok(());
        }
        proof { lemma_nodes_seq_v_index(document.nodes@); }
        match &document.nodes[self.node_idx] {
            Node::List { items, .. } => { self.previous_items = Some(copy_list_items(items)); },
            _ => {},
        }
        let ghost old_nodes = document.nodes@;
        match &mut document.nodes[self.node_idx] {
            Node::List { list_type, items } => {
                proof { lemma_list_items_seq_v_index(items@); }
                let ghost old_items = items@;
                let it = items.remove(self.from_idx);
                items.insert(self.to_idx, it);
                proof {
                    lemma_list_items_seq_v_index(items@);
                    assert(list_items_seq_v(items@) =~= list_items_seq_v(old_items).remove(self.from_idx as int)
                        .insert(self.to_idx as int, list_items_seq_v(old_items)[self.from_idx as int]));
                }
            },
            _ => {},
        }
        proof {
            lemma_nodes_update(old_nodes, self.node_idx as int, document.nodes@[self.node_idx as int]);
            assert(document.nodes@ =~= old_nodes.update(self.node_idx as int, document.nodes@[self.node_idx as int]));
        }
        Ok(())
    }

    /// Puts the saved items back.
    fn undo(&mut self, document: &mut Document) -> (r: Result<(), EditError>)
        ensures
            *final(self) == *old(self),
            old(self).saved() is None ==> other_error(r, "Previous state not available for undo"@) && final(document)@ == old(document)@,
            old(self).saved() is Some && old(self).node() >= old(document).nodes.len() ==> (r matches Err(EditError::IndexOutOfBounds))
                && final(document)@ == old(document)@,
            old(self).saved() is Some && old(self).node() < old(document).nodes.len() && !(old(document)@.nodes[old(self).node() as int] is List)
                ==> other_error(r, "Node is not a list"@) && final(document)@ == old(document)@,
            old(self).saved() is Some && old(self).node() < old(document).nodes.len() && old(document)@.nodes[old(self).node() as int] is List
                ==> r is Ok && final(document)@ == with_items(old(document)@, old(self).node() as int, old(self).saved()->0),
    {
        restore_items(document, self.node_idx, &self.previous_items)
    }
}

} // verus!
