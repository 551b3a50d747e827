//! Grouping nodes into a container node.
use vstd::prelude::*;
use crate::document::{Document};
use crate::error::EditError;
use crate::node::{Node, NodeV, nodes_seq_v, copy_nodes, lemma_nodes_seq_v_index};
use crate::editor::command::{Command, with_nodes};
use crate::editor::task_commands::other_error;

verus! {

/// `x` inserted into the descending sequence `s` after every index not
/// smaller than it.
pub open spec fn desc_insert(s: Seq<usize>, x: usize) -> Seq<usize>
    decreases s.len(),
{
    if s.len() == 0 {
        seq![x]
    } else if x > s.last() {
        desc_insert(s.drop_last(), x).push(s.last())
    } else {
        s.push(x)
    }
}

/// The first `k` indices in descending order.
pub open spec fn desc_sorted(v: Seq<usize>, k: int) -> Seq<usize>
    decreases k,
{
    if k <= 0 { Seq::empty() } else { desc_insert(desc_sorted(v, k - 1), v[k - 1]) }
}

/// Removing the nodes at the first `k` indices of `order`, one after the
/// other: the nodes left and the nodes removed, in the order removed;
/// `None` when an index is past the end at its turn.
pub open spec fn remove_in_turn(nodes: Seq<NodeV>, order: Seq<usize>, k: int) -> Option<(Seq<NodeV>, Seq<NodeV>)>
    decreases k,
{
    if k <= 0 {
        Some((nodes, Seq::empty()))
    } else {
        match remove_in_turn(nodes, order, k - 1) {
            None => None,
            Some((rest, removed)) => {
                let i = order[k - 1] as int;
                if i < rest.len() { Some((rest.remove(i), removed.push(rest[i]))) } else { None }
            },
        }
    }
}

/// The smallest index, or 0 when there are none.
pub open spec fn min_index(v: Seq<usize>) -> usize
    decreases v.len(),
{
    if v.len() == 0 {
        0
    } else if v.len() == 1 {
        v[0]
    } else {
        let m = min_index(v.drop_last());
        if v.last() < m { v.last() } else { m }
    }
}

/// What grouping does: `Err(())` when an index is past the end; else the
/// nodes with those at the indices (taken from the highest index down)
/// replaced by one group holding them in the order of their positions,
/// at the smallest index. `None` where a removal or the insertion would
/// fall past the end (with repeated indices).
pub open spec fn group_result(nodes: Seq<NodeV>, idx: Seq<usize>, name: Seq<char>) -> Option<Result<Seq<NodeV>, ()>> {
    if exists|j: int| 0 <= j < idx.len() && #[trigger] idx[j] >= nodes.len() {
        Some(Err(()))
    } else {
        match remove_in_turn(nodes, desc_sorted(idx, idx.len() as int), idx.len() as int) {
            None => None,
            Some((rest, removed)) => {
                let at = min_index(idx) as int;
                if at <= rest.len() {
                    Some(Ok(rest.insert(at, NodeV::Group { name, children: removed.reverse() })))
                } else {
                    None
                }
            },
        }
    }
}

proof fn lemma_desc_insert_len(s: Seq<usize>, x: usize)
    ensures desc_insert(s, x).len() == s.len() + 1,
    decreases s.len(),
{
    if s.len() > 0 && x > s.last() {
        lemma_desc_insert_len(s.drop_last(), x);
    }
}

proof fn lemma_desc_sorted_len(v: Seq<usize>, k: int)
    requires 0 <= k <= v.len(),
    ensures desc_sorted(v, k).len() == k,
    decreases k,
{
    if k > 0 {
        lemma_desc_sorted_len(v, k - 1);
        lemma_desc_insert_len(desc_sorted(v, k - 1), v[k - 1]);
    }
}

proof fn lemma_desc_insert_at(s: Seq<usize>, x: usize, j: int)
    requires
        0 <= j <= s.len(),
        forall|q: int| j <= q < s.len() ==> x > #[trigger] s[q],
        j > 0 ==> !(x > s[j - 1]),
    ensures desc_insert(s, x) == s.take(j) + seq![x] + s.skip(j),
    decreases s.len(),
{
    if s.len() == 0 {
        assert(s.take(j) + seq![x] + s.skip(j) =~= seq![x]);
    } else if j == s.len() {
        assert(s.take(j) + seq![x] + s.skip(j) =~= s.push(x));
    } else {
        let t = s.drop_last();
        assert forall|q: int| j <= q < t.len() implies x > #[trigger] t[q] by {
            assert(t[q] == s[q]);
        }
        if j > 0 { assert(t[j - 1] == s[j - 1]); }
        lemma_desc_insert_at(t, x, j);
        assert(s.take(j) + seq![x] + s.skip(j) =~= (t.take(j) + seq![x] + t.skip(j)).push(s.last()));
    }
}

/// The indices in descending order.
fn sort_desc(v: &Vec<usize>) -> (r: Vec<usize>)
    ensures r@ == desc_sorted(v@, v.len() as int),
{
    let mut out: Vec<usize> = Vec::new();
    let mut k: usize = 0;
    while k < v.len()
        invariant
            k <= v.len(),
            out@ == desc_sorted(v@, k as int),
        decreases v.len() - k,
    {
        let x = v[k];
        let mut j: usize = out.len();
        while j > 0 && x > out[j - 1]
            invariant
                j <= out.len(),
                forall|q: int| j <= q < out.len() ==> x > #[trigger] out@[q],
            decreases j,
        {
            j = j - 1;
        }
        proof { lemma_desc_insert_at(out@, x, j as int); }
        let ghost o0 = out@;
        out.insert(j, x);
        proof { assert(out@ =~= o0.take(j as int) + seq![x] + o0.skip(j as int)); }
        k = k + 1;
    }
    out
}

/// The smallest index, or 0.
fn min_of(v: &Vec<usize>) -> (r: usize)
    ensures r == min_index(v@),
{
    if v.len() == 0 {
        return 0;
    }
    let mut m = v[0];
    let mut k: usize = 1;
    proof { assert(v@.take(1) =~= seq![v@[0]]); }
    while k < v.len()
        invariant
            1 <= k <= v.len(),
            m == min_index(v@.take(k as int)),
        decreases v.len() - k,
    {
        proof { assert(v@.take(k + 1).drop_last() =~= v@.take(k as int)); }
        if v[k] < m {
            m = v[k];
        }
        k = k + 1;
    }
    proof { assert(v@.take(k as int) =~= v@); }
    m
}

/// Whether some index is past the end.
fn any_out_of_range(v: &Vec<usize>, len: usize) -> (r: bool)
    ensures r == exists|j: int| 0 <= j < v.len() && #[trigger] v@[j] >= len,
{
    let mut k: usize = 0;
    while k < v.len()
        invariant
            k <= v.len(),
            forall|j: int| 0 <= j < k ==> #[trigger] v@[j] < len,
        decreases v.len() - k,
    {
        if v[k] >= len {
            proof { assert(v@[k as int] >= len); }
            return true;
        }
        k = k + 1;
    }
    false
}

/// Command to group multiple nodes into a container node
pub struct GroupNodesCommand {
    node_indices: Vec<usize>,
    group_name: String,
    original_nodes: Option<Vec<Node>>,
}

impl GroupNodesCommand {
    /// The indices of the nodes to group.
    pub closed spec fn indices(&self) -> Seq<usize> { self.node_indices@ }

    /// The name of the group.
    pub closed spec fn name(&self) -> Seq<char> { self.group_name@ }

    /// The nodes saved for undo.
    pub closed spec fn saved(&self) -> Option<Seq<NodeV>> {
        match self.original_nodes {
            Some(v) => Some(nodes_seq_v(v@)),
            None => None,
        }
    }

    /// Create a new group nodes command
    pub fn new(node_indices: Vec<usize>, group_name: String) -> (r: Self)
        ensures r.indices() == node_indices@, r.name() == group_name@, r.saved() is None,
    {
        GroupNodesCommand { node_indices, group_name, original_nodes: None }
    }
}

impl Command for GroupNodesCommand {
    /// No removal or insertion falls past the end.
    open spec fn can_execute(&self, document: &Document) -> bool {
        group_result(document@.nodes, self.indices(), self.name()) is Some
    }

    open spec fn can_undo(&self, document: &Document) -> bool { true }

    /// Groups the nodes (see `group_result`), saving all nodes first.
    fn execute(&mut self, document: &mut Document) -> (r: Result<(), EditError>)
        ensures
            final(self).indices() == old(self).indices(),
            final(self).name() == old(self).name(),
            final(self).saved() == Some(old(document)@.nodes),
            match group_result(old(document)@.nodes, old(self).indices(), old(self).name()) {
                Some(Err(())) => (r matches Err(EditError::IndexOutOfBounds)) && final(document)@ == old(document)@,
                Some(Ok(ns)) => r is Ok && final(document)@ == with_nodes(old(document)@, ns),
                None => false,
            },
    {
        proof { lemma_nodes_seq_v_index(document.nodes@); }
        let ghost nv = document@.nodes;
        self.original_nodes = Some(copy_nodes(&document.nodes));
        if any_out_of_range(&self.node_indices, document.nodes.len()) {
            return Err(EditError::IndexOutOfBounds);
        }
        let order = sort_desc(&self.node_indices);
        proof { lemma_desc_sorted_len(self.node_indices@, self.node_indices.len() as int); }
        let mut removed: Vec<Node> = Vec::new();
        let mut k: usize = 0;
        while k < order.len()
            invariant
                k <= order.len(),
                order@ == desc_sorted(old(self).indices(), old(self).indices().len() as int),
                order.len() == old(self).indices().len(),
                group_result(nv, old(self).indices(), old(self).name()) is Some,
                !(exists|j: int| 0 <= j < old(self).indices().len() && #[trigger] old(self).indices()[j] >= nv.len()),
                remove_in_turn(nv, order@, k as int) == Some((nodes_seq_v(document.nodes@), nodes_seq_v(removed@))),
                document@ == with_nodes(old(document)@, nodes_seq_v(document.nodes@)),
            decreases order.len() - k,
        {
            proof {
                lemma_nodes_seq_v_index(document.nodes@);
                if order@[k as int] as int >= nodes_seq_v(document.nodes@).len() {
                    lemma_remove_in_turn_none(nv, order@, k as int + 1, order.len() as int);
                    assert(false);
                }
            }
            let i = order[k];
            let ghost n0 = document.nodes@;
            let x = document.nodes.remove(i);
            proof {
                lemma_nodes_seq_v_index(document.nodes@);
                assert(nodes_seq_v(document.nodes@) =~= nodes_seq_v(n0).remove(i as int));
                crate::node::lemma_nodes_seq_v_push(removed@, x);
            }
            removed.push(x);
            k = k + 1;
        }
        let mut group_children: Vec<Node> = Vec::new();
        let mut q: usize = removed.len();
        proof { lemma_nodes_seq_v_index(removed@); }
        while q > 0
            invariant
                q <= removed.len(),
                nodes_seq_v(removed@).len() == removed.len(),
                nodes_seq_v(group_children@) == nodes_seq_v(removed@).reverse().take((removed.len() - q) as int),
                forall|j: int| 0 <= j < removed.len() ==> #[trigger] nodes_seq_v(removed@)[j] == removed@[j]@,
            decreases q,
        {
            let c = crate::node::copy_node(&removed[q - 1]);
            proof {
                crate::node::lemma_nodes_seq_v_push(group_children@, c);
                assert(nodes_seq_v(removed@).reverse().take((removed.len() - q + 1) as int)
                    =~= nodes_seq_v(removed@).reverse().take((removed.len() - q) as int).push(c@));
            }
            group_children.push(c);
            q = q - 1;
        }
        proof { assert(nodes_seq_v(removed@).reverse().take(removed.len() as int) =~= nodes_seq_v(removed@).reverse()); }
        let at = min_of(&self.node_indices);
        let g = Node::Group { name: self.group_name.clone(), children: group_children };
        let ghost n1 = document.nodes@;
        proof { lemma_nodes_seq_v_index(n1); }
        document.nodes.insert(at, g);
        proof {
            lemma_nodes_seq_v_index(document.nodes@);
            assert(nodes_seq_v(document.nodes@) =~= nodes_seq_v(n1).insert(at as int, g@));
        }
        Ok(())
    }

    /// Puts the saved nodes back.
    fn undo(&mut self, document: &mut Document) -> (r: Result<(), EditError>)
        ensures
            final(self).indices() == old(self).indices(),
            final(self).name() == old(self).name(),
            final(self).saved() is None,
            match old(self).saved() {
                Some(ns) => r is Ok && final(document)@ == with_nodes(old(document)@, ns),
                None => other_error(r, "No original state to restore"@) && final(document)@ == old(document)@,
            },
    {
        match self.original_nodes.take() {
            Some(ns) => {
                document.nodes = ns;
                Ok(())
            },
            None => Err(EditError::Other("No original state to restore".to_owned())),
        }
    }
}

/// Once a removal falls past the end, every longer run of removals fails.
proof fn lemma_remove_in_turn_none(nodes: Seq<NodeV>, order: Seq<usize>, k: int, m: int)
    requires k <= m, remove_in_turn(nodes, order, k) is None,
    ensures remove_in_turn(nodes, order, m) is None,
    decreases m - k,
{
    if k < m {
        lemma_remove_in_turn_none(nodes, order, k, m - 1);
    }
}

} // verus!
