//! Sorting the items of a task list.
use vstd::prelude::*;
use crate::document::{Document, lemma_nodes_update};
use crate::error::EditError;
use crate::node::{ListItem, ListItemV, ListType, Node, list_items_seq_v, lemma_list_items_seq_v_index, lemma_nodes_seq_v_index, copy_list_item, copy_list_items, list_item_v, item_text_v};
use crate::editor::command::{Command, with_items};
use crate::editor::task_commands::{items_of, task_list_error_msg, other_error};
use crate::editor::find_replace::{lowercase_of, to_lowercase};

verus! {

/// Criteria for sorting task list items
#[derive(Debug, Clone, Copy, PartialEq, Eq, Structural)]
pub enum SortCriteria {
    /// Sort alphabetically by task content
    Alphabetical,
    /// Sort with unchecked items first, then alphabetically
    UncheckedFirst,
    /// Sort with checked items first, then alphabetically
    CheckedFirst,
}

/// Where an item's checked state puts it: unchecked-first orders no state,
/// then unchecked, then checked; checked-first orders checked, then
/// unchecked, then no state; alphabetical ignores the state.
pub open spec fn rank(c: Option<bool>, crit: SortCriteria) -> int {
    match crit {
        SortCriteria::Alphabetical => 0,
        SortCriteria::UncheckedFirst => match c { None => 0, Some(false) => 1, Some(true) => 2 },
        SortCriteria::CheckedFirst => match c { Some(true) => 0, Some(false) => 1, None => 2 },
    }
}

/// `a` comes before `b` in the order of characters, as strings compare.
pub open spec fn text_less(a: Seq<char>, b: Seq<char>) -> bool
    decreases a.len(),
{
    if b.len() == 0 {
        false
    } else if a.len() == 0 {
        true
    } else if a[0] != b[0] {
        (a[0] as u32) < (b[0] as u32)
    } else {
        text_less(a.drop_first(), b.drop_first())
    }
}

/// The text an item is sorted by: its first text run, in lowercase (or
/// nothing).
pub open spec fn sort_text(it: ListItemV) -> Seq<char> {
    lowercase_of(match item_text_v(it) { Some(t) => t, None => Seq::empty() })
}

/// `a` sorts strictly before `b`: by rank, then by text.
pub open spec fn sorts_before(a: ListItemV, b: ListItemV, crit: SortCriteria) -> bool {
    rank(a.checked, crit) < rank(b.checked, crit)
        || (rank(a.checked, crit) == rank(b.checked, crit) && text_less(sort_text(a), sort_text(b)))
}

/// `x` inserted into `s` after every item it does not sort before.
pub open spec fn insert_sorted(s: Seq<ListItemV>, x: ListItemV, crit: SortCriteria) -> Seq<ListItemV>
    decreases s.len(),
{
    if s.len() == 0 {
        seq![x]
    } else if sorts_before(x, s.last(), crit) {
        insert_sorted(s.drop_last(), x, crit).push(s.last())
    } else {
        s.push(x)
    }
}

/// The first `k` items in stable sorted order: items that sort alike keep
/// their order.
pub open spec fn stable_sorted(items: Seq<ListItemV>, crit: SortCriteria, k: int) -> Seq<ListItemV>
    decreases k,
{
    if k <= 0 { Seq::empty() } else { insert_sorted(stable_sorted(items, crit, k - 1), items[k - 1], crit) }
}

/// Whether `a` comes before `b` in the order of characters.
fn text_less_exec(a: &str, b: &str) -> (r: bool)
    ensures r == text_less(a@, b@),
{
    let n = a.unicode_len();
    let m = b.unicode_len();
    let mut i: usize = 0;
    proof {
        assert(a@.skip(0) =~= a@);
        assert(b@.skip(0) =~= b@);
    }
    while i < n && i < m && a.get_char(i) == b.get_char(i)
        invariant
            i <= n,
            i <= m,
            n == a@.len(),
            m == b@.len(),
            text_less(a@, b@) == text_less(a@.skip(i as int), b@.skip(i as int)),
        decreases n - i,
    {
        proof {
            assert(a@.skip(i as int).drop_first() =~= a@.skip(i + 1));
            assert(b@.skip(i as int).drop_first() =~= b@.skip(i + 1));
        }
        i = i + 1;
    }
    proof {
        if i < n && i < m {
            assert(a@.skip(i as int)[0] == a@[i as int]);
            assert(b@.skip(i as int)[0] == b@[i as int]);
        }
    }
    if i == m {
        false
    } else if i == n {
        true
    } else {
        (a.get_char(i) as u32) < (b.get_char(i) as u32)
    }
}

fn rank_exec(c: Option<bool>, crit: SortCriteria) -> (r: u8)
    ensures r == rank(c, crit),
{
    match crit {
        SortCriteria::Alphabetical => 0,
        SortCriteria::UncheckedFirst => match c { None => 0, Some(false) => 1, Some(true) => 2 },
        SortCriteria::CheckedFirst => match c { Some(true) => 0, Some(false) => 1, None => 2 },
    }
}

/// The sort key of an item: its rank and its lowercase text.
fn sort_key(it: &ListItem, crit: SortCriteria) -> (r: (u8, String))
    ensures r.0 == rank(list_item_v(it).checked, crit), r.1@ == sort_text(list_item_v(it)),
{
    let t = match it.as_text() {
        Some(t) => to_lowercase(t),
        None => {
            let e = String::new();
            proof { assert(e@ =~= Seq::<char>::empty()); }
            to_lowercase(e.as_str())
        },
    };
    (rank_exec(it.checked, crit), t)
}

/// `x` inserted into `s` at `j` equals inserting it in sorted position,
/// when it sorts before everything after `j` and not before the item at
/// `j - 1`.
proof fn lemma_insert_at(s: Seq<ListItemV>, x: ListItemV, crit: SortCriteria, j: int)
    requires
        0 <= j <= s.len(),
        forall|q: int| j <= q < s.len() ==> sorts_before(x, #[trigger] s[q], crit),
        j > 0 ==> !sorts_before(x, s[j - 1], crit),
    ensures insert_sorted(s, x, crit) == s.take(j) + seq![x] + s.skip(j),
    decreases s.len(),
{
    if s.len() == 0 {
        assert(s.take(j) + seq![x] + s.skip(j) =~= seq![x]);
    } else if j == s.len() {
        assert(s.take(j) + seq![x] + s.skip(j) =~= s.push(x));
    } else {
        let t = s.drop_last();
        assert forall|q: int| j <= q < t.len() implies sorts_before(x, #[trigger] t[q], crit) by {
            assert(t[q] == s[q]);
        }
        if j > 0 { assert(t[j - 1] == s[j - 1]); }
        lemma_insert_at(t, x, crit, j);
        assert(s.take(j) + seq![x] + s.skip(j) =~= (t.take(j) + seq![x] + t.skip(j)).push(s.last()));
    }
}

/// The items in stable sorted order.
fn sort_items(items: &Vec<ListItem>, crit: SortCriteria) -> (r: Vec<ListItem>)
    ensures list_items_seq_v(r@) == stable_sorted(list_items_seq_v(items@), crit, items.len() as int),
{
    proof { lemma_list_items_seq_v_index(items@); }
    let ghost s = list_items_seq_v(items@);
    let mut out: Vec<ListItem> = Vec::new();
    let mut keys: Vec<(u8, String)> = Vec::new();
    let mut k: usize = 0;
    while k < items.len()
        invariant
            k <= items.len(),
            s == list_items_seq_v(items@),
            s.len() == items.len(),
            forall|q: int| 0 <= q < s.len() ==> #[trigger] s[q] == list_item_v(&items@[q]),
            list_items_seq_v(out@) == stable_sorted(s, crit, k as int),
            keys.len() == out.len(),
            forall|q: int| 0 <= q < out.len() ==> (#[trigger] keys@[q]).0 == rank(list_item_v(&out@[q]).checked, crit)
                && keys@[q].1@ == sort_text(list_item_v(&out@[q])),
        decreases items.len() - k,
    {
        let x = copy_list_item(&items[k]);
        let key = sort_key(&x, crit);
        proof { lemma_list_items_seq_v_index(out@); }
        let ghost o = list_items_seq_v(out@);
        let mut j: usize = out.len();
        while j > 0 && (key.0 < keys[j - 1].0 || (key.0 == keys[j - 1].0 && text_less_exec(key.1.as_str(), keys[j - 1].1.as_str())))
            invariant
                j <= out.len(),
                o == list_items_seq_v(out@),
                o.len() == out.len(),
                keys.len() == out.len(),
                key.0 == rank(list_item_v(&x).checked, crit),
                key.1@ == sort_text(list_item_v(&x)),
                forall|q: int| 0 <= q < out.len() ==> (#[trigger] keys@[q]).0 == rank(list_item_v(&out@[q]).checked, crit)
                    && keys@[q].1@ == sort_text(list_item_v(&out@[q])),
                forall|q: int| 0 <= q < o.len() ==> #[trigger] o[q] == list_item_v(&out@[q]),
                forall|q: int| j <= q < o.len() ==> sorts_before(list_item_v(&x), #[trigger] o[q], crit),
            decreases j,
        {
            proof { assert(o[j - 1] == list_item_v(&out@[j - 1])); }
            j = j - 1;
        }
        proof {
            if j > 0 { assert(o[j - 1] == list_item_v(&out@[j - 1])); }
            lemma_insert_at(o, list_item_v(&x), crit, j as int);
            assert(items@[k as int]@ == s[k as int]);
        }
        let ghost o0 = out@;
        let ghost k0 = keys@;
        out.insert(j, x);
        keys.insert(j, key);
        proof {
            lemma_list_items_seq_v_index(out@);
            assert(list_items_seq_v(out@) =~= o.take(j as int) + seq![list_item_v(&x)] + o.skip(j as int));
            assert forall|q: int| 0 <= q < out.len() implies (#[trigger] keys@[q]).0 == rank(list_item_v(&out@[q]).checked, crit)
                && keys@[q].1@ == sort_text(list_item_v(&out@[q])) by {
                if q < j {
                    assert(keys@[q] == k0[q] && out@[q] == o0[q]);
                } else if q > j {
                    assert(keys@[q] == k0[q - 1] && out@[q] == o0[q - 1]);
                }
            }
        }
        k = k + 1;
    }
    out
}

/// Command to sort task list items based on different criteria
pub struct SortTaskListCommand {
    node_idx: usize,
    criteria: SortCriteria,
    original_items: Option<Vec<ListItem>>,
}

impl SortTaskListCommand {
    /// The index of the task list node.
    pub closed spec fn node(&self) -> usize { self.node_idx }

    /// The sort criteria.
    pub closed spec fn criteria(&self) -> SortCriteria { self.criteria }

    /// The items saved for undo.
    pub closed spec fn saved(&self) -> Option<Seq<ListItemV>> {
        match self.original_items {
            Some(v) => Some(list_items_seq_v(v@)),
            None => None,
        }
    }

    /// Create a new sort task list command
    pub fn new(node_idx: usize, criteria: SortCriteria) -> (r: Self)
        ensures r.node() == node_idx, r.criteria() == criteria, r.saved() is None,
    {
        SortTaskListCommand { node_idx, criteria, original_items: None }
    }
}

impl Command for SortTaskListCommand {
    open spec fn can_execute(&self, document: &Document) -> bool { true }

    open spec fn can_undo(&self, document: &Document) -> bool { true }

    /// Sorts the items of the task list stably by the criteria, saving them
    /// first for undo.
    fn execute(&mut self, document: &mut Document) -> (r: Result<(), EditError>)
        ensures
            final(self).node() == old(self).node(),
            final(self).criteria() == old(self).criteria(),
            old(self).node() >= old(document).nodes.len() ==> (r matches Err(EditError::IndexOutOfBounds))
                && final(document)@ == old(document)@ && final(self).saved() == old(self).saved(),
            old(self).node() < old(document).nodes.len() ==> match task_list_error_msg(old(document)@, old(self).node() as int) {
                Some(m) => other_error(r, m) && final(document)@ == old(document)@ && final(self).saved() == old(self).saved(),
                None => {
                    let items = items_of(old(document)@, old(self).node() as int);
                    &&& r is Ok
                    &&& final(self).saved() == Some(items)
                    &&& final(document)@ == with_items(old(document)@, old(self).node() as int,
                        stable_sorted(items, old(self).criteria(), items.len() as int))
                },
            },
    {
        proof { lemma_nodes_seq_v_index(document.nodes@); }
        if self.node_idx >= document.nodes.len() {
            return Err(EditError::IndexOutOfBounds);
        }
        let i = self.node_idx;
        let sorted = match &document.nodes[i] {
            Node::List { list_type, items } => {
                match list_type {
                    ListType::Task => {},
                    _ => { return Err(EditError::Other("Node is not a task list".to_owned())); },
                }
                proof { lemma_list_items_seq_v_index(items@); }
                self.original_items = Some(copy_list_items(items));
                sort_items(items, self.criteria)
            },
            _ => { return Err(EditError::Other("Node is not a list".to_owned())); },
        };
        let ghost old_nodes = document.nodes@;
        let l = Node::List { list_type: ListType::Task, items: sorted };
        document.nodes.set(i, l);
        proof { lemma_nodes_update(old_nodes, i as int, l); }
        Ok(())
    }

    /// Puts the saved items back into the list node.
    fn undo(&mut self, document: &mut Document) -> (r: Result<(), EditError>)
        ensures
            *final(self) == *old(self),
            old(self).node() >= old(document).nodes.len() ==> (r matches Err(EditError::IndexOutOfBounds))
                && final(document)@ == old(document)@,
            old(self).node() < old(document).nodes.len() ==> match old(self).saved() {
                None => other_error(r, "No original items to restore"@) && final(document)@ == old(document)@,
                Some(items) => if old(document)@.nodes[old(self).node() as int] is List {
                    r is Ok && final(document)@ == with_items(old(document)@, old(self).node() as int, items)
                } else {
                    other_error(r, "Node is not a list"@) && final(document)@ == old(document)@
                },
            },
    {
        proof { lemma_nodes_seq_v_index(document.nodes@); }
        if self.node_idx >= document.nodes.len() {
            return Err(EditError::IndexOutOfBounds);
        }
        let saved = match &self.original_items {
            Some(v) => v,
            None => { return Err(EditError::Other("No original items to restore".to_owned())); },
        };
        let i = self.node_idx;
        let lt = match &document.nodes[i] {
            Node::List { list_type, .. } => *list_type,
            _ => { return Err(EditError::Other("Node is not a list".to_owned())); },
        };
        let ghost old_nodes = document.nodes@;
        let l = Node::List { list_type: lt, items: copy_list_items(saved) };
        document.nodes.set(i, l);
        proof { lemma_nodes_update(old_nodes, i as int, l); }
        Ok(())
    }
}

/// The text of a task item, empty when it has none.
pub open spec fn item_text_or_empty(it: ListItemV) -> Seq<char> {
    match item_text_v(it) { Some(t) => t, None => Seq::empty() }
}

/// Sorting compares item texts without regard to case: between items of
/// the same rank, one sorts before another exactly when the lowercase form
/// of its text comes first, and two items whose texts have the same
/// lowercase form sort alike (neither before the other); items of
/// different rank sort by rank.
pub proof fn law_sort_ignores_case(a: ListItemV, b: ListItemV, crit: SortCriteria)
    ensures
        rank(a.checked, crit) == rank(b.checked, crit) ==> (sorts_before(a, b, crit)
            <==> text_less(lowercase_of(item_text_or_empty(a)), lowercase_of(item_text_or_empty(b)))),
        rank(a.checked, crit) == rank(b.checked, crit)
            && lowercase_of(item_text_or_empty(a)) == lowercase_of(item_text_or_empty(b))
            ==> !sorts_before(a, b, crit) && !sorts_before(b, a, crit),
        rank(a.checked, crit) < rank(b.checked, crit) ==> sorts_before(a, b, crit) && !sorts_before(b, a, crit),
        crit == SortCriteria::Alphabetical ==> rank(a.checked, crit) == rank(b.checked, crit),
{
    lemma_text_less_irreflexive(lowercase_of(item_text_or_empty(a)));
}

/// No text comes before itself.
proof fn lemma_text_less_irreflexive(t: Seq<char>)
    ensures !text_less(t, t),
    decreases t.len(),
{
    if t.len() > 0 {
        lemma_text_less_irreflexive(t.drop_first());
    }
}

/// Sorting unchecked-first puts items without a checkbox first, then
/// unchecked ones, then checked ones; checked-first puts checked items
/// first, then unchecked ones, then those without a checkbox; alphabetical
/// sorting ignores the checkboxes.
pub proof fn law_sort_rank_order(a: ListItemV, b: ListItemV)
    ensures
        a.checked is None && b.checked is Some ==> sorts_before(a, b, SortCriteria::UncheckedFirst)
            && !sorts_before(b, a, SortCriteria::UncheckedFirst),
        a.checked == Some(false) && b.checked == Some(true) ==> sorts_before(a, b, SortCriteria::UncheckedFirst)
            && !sorts_before(b, a, SortCriteria::UncheckedFirst),
        a.checked == Some(true) && b.checked != Some(true) ==> sorts_before(a, b, SortCriteria::CheckedFirst)
            && !sorts_before(b, a, SortCriteria::CheckedFirst),
        a.checked == Some(false) && b.checked is None ==> sorts_before(a, b, SortCriteria::CheckedFirst)
            && !sorts_before(b, a, SortCriteria::CheckedFirst),
        a.checked == b.checked ==> forall|c: SortCriteria| rank(a.checked, c) == rank(b.checked, c),
        sorts_before(a, b, SortCriteria::Alphabetical)
            == text_less(lowercase_of(item_text_or_empty(a)), lowercase_of(item_text_or_empty(b))),
{
}

} // verus!
