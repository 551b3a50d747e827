//! Running and undoing a batch of commands, one after another.
use vstd::prelude::*;
use crate::document::{Document, DocumentV};
use crate::error::EditError;
use crate::editor::command::Command;
use crate::editor::history::EditCommand;

verus! {

/// Undoing the batch from its last command to its first, stopping at the
/// first failure, takes `d` to `d2` with result `r`.
pub open spec fn batch_undone(cmds: Seq<EditCommand>, d: DocumentV, r: Result<(), EditError>, d2: DocumentV) -> bool
    decreases cmds.len(),
{
    if cmds.len() == 0 {
        r is Ok && d2 == d
    } else {
        exists|r1: Result<(), EditError>, m: DocumentV| #[trigger] cmds.last().undone(d, r1, m) && if r1 is Err {
            r == r1 && d2 == m
        } else {
            batch_undone(cmds.drop_last(), m, r, d2)
        }
    }
}

/// Every undo of the batch, from the last command on, stays within what the
/// command can do on the document it meets.
pub open spec fn batch_can_undo(cmds: Seq<EditCommand>, d: Document) -> bool
    decreases cmds.len(),
{
    cmds.len() == 0 || {
        &&& cmds.last().can_undo(&d)
        &&& forall|r: Result<(), EditError>, m: Document|
            #[trigger] cmds.last().undone(d@, r, m@) && r is Ok ==> batch_can_undo(cmds.drop_last(), m)
    }
}

/// Running the batch from its first command to its last, stopping at the
/// first failure, takes `d` to `d2` with result `r`.
pub open spec fn batch_ran(cmds: Seq<EditCommand>, d: DocumentV, r: Result<(), EditError>, d2: DocumentV) -> bool
    decreases cmds.len(),
{
    if cmds.len() == 0 {
        r is Ok && d2 == d
    } else {
        exists|r1: Result<(), EditError>, m: DocumentV| #[trigger] cmds[0].ran(d, r1, m) && if r1 is Err {
            r == r1 && d2 == m
        } else {
            batch_ran(cmds.drop_first(), m, r, d2)
        }
    }
}

/// Every command of the batch, run in order, stays within what it can do
/// on the document it meets.
pub open spec fn batch_can_run(cmds: Seq<EditCommand>, d: Document) -> bool
    decreases cmds.len(),
{
    cmds.len() == 0 || {
        &&& cmds[0].can_execute(&d)
        &&& forall|r: Result<(), EditError>, m: Document|
            #[trigger] cmds[0].ran(d@, r, m@) && r is Ok ==> batch_can_run(cmds.drop_first(), m)
    }
}

/// The two batches hold commands of the same kinds with the same arguments.
pub open spec fn same_kinds(a: Seq<EditCommand>, b: Seq<EditCommand>) -> bool {
    a.len() == b.len() && forall|j: int| 0 <= j < a.len() ==> #[trigger] a[j].same_kind(b[j])
}

/// Undoes the commands of the batch from the last to the first, stopping at
/// the first failure.
pub fn undo_batch(batch: &mut Vec<EditCommand>, document: &mut Document) -> (r: Result<(), EditError>)
    requires batch_can_undo(old(batch)@, *old(document)),
    ensures
        batch_undone(old(batch)@, old(document)@, r, final(document)@),
        same_kinds(final(batch)@, old(batch)@),
{
    let ghost b0 = batch@;
    let ghost d0 = document@;
    let mut k: usize = batch.len();
    let mut res: Result<(), EditError> = Ok(());
    proof { assert(b0.take(k as int) =~= b0); }
    while k > 0 && res.is_ok()
        invariant
            k <= b0.len(),
            batch@.len() == b0.len(),
            res is Ok ==> {
                &&& forall|j: int| 0 <= j < k ==> batch@[j] == b0[j]
                &&& forall|j: int| k <= j < b0.len() ==> #[trigger] batch@[j].same_kind(b0[j])
                &&& batch_can_undo(b0.take(k as int), *document)
                &&& forall|r: Result<(), EditError>, d2: DocumentV|
                    batch_undone(b0.take(k as int), document@, r, d2) ==> #[trigger] batch_undone(b0, d0, r, d2)
            },
            res is Err ==> batch_undone(b0, d0, res, document@) && same_kinds(batch@, b0),
        decreases 2 * k + (if res is Ok { 1int } else { 0int }),
    {
        let ghost cmds = b0.take(k as int);
        let ghost dk = document@;
        let ghost dd = *document;
        proof {
            assert(cmds.last() == b0[k - 1]);
            assert(cmds.drop_last() =~= b0.take(k - 1));
        }
        let r1 = batch[k - 1].undo(document);
        proof {
            assert(cmds.last().undone(dk, r1, document@));
            if r1 is Err {
                assert(batch_undone(cmds, dk, r1, document@));
                assert(batch_undone(b0, d0, r1, document@));
                assert forall|j: int| 0 <= j < batch@.len() implies #[trigger] batch@[j].same_kind(b0[j]) by {
                    if j < k - 1 {
                        assert(batch@[j] == b0[j]);
                    }
                }
            } else {
                assert forall|r: Result<(), EditError>, d2: DocumentV|
                    batch_undone(b0.take(k - 1), document@, r, d2) implies #[trigger] batch_undone(b0, d0, r, d2) by {
                    assert(cmds.last().undone(dk, r1, document@));
                    assert(batch_undone(cmds, dk, r, d2));
                }
                assert(cmds.last().undone(dd@, r1, document@));
            }
        }
        res = r1;
        if res.is_ok() {
            k = k - 1;
        }
    }
    proof {
        if res is Ok {
            assert(b0.take(0) =~= Seq::<EditCommand>::empty());
        }
    }
    res
}

/// Runs the commands of the batch from the first to the last, stopping at
/// the first failure.
pub fn run_batch(batch: &mut Vec<EditCommand>, document: &mut Document) -> (r: Result<(), EditError>)
    requires batch_can_run(old(batch)@, *old(document)),
    ensures
        batch_ran(old(batch)@, old(document)@, r, final(document)@),
        same_kinds(final(batch)@, old(batch)@),
{
    let ghost b0 = batch@;
    let ghost d0 = document@;
    let mut k: usize = 0;
    let mut res: Result<(), EditError> = Ok(());
    proof { assert(b0.skip(0) =~= b0); }
    while k < batch.len() && res.is_ok()
        invariant
            k <= b0.len(),
            batch@.len() == b0.len(),
            res is Ok ==> {
                &&& forall|j: int| k <= j < b0.len() ==> batch@[j] == b0[j]
                &&& forall|j: int| 0 <= j < k ==> #[trigger] batch@[j].same_kind(b0[j])
                &&& batch_can_run(b0.skip(k as int), *document)
                &&& forall|r: Result<(), EditError>, d2: DocumentV|
                    batch_ran(b0.skip(k as int), document@, r, d2) ==> #[trigger] batch_ran(b0, d0, r, d2)
            },
            res is Err ==> batch_ran(b0, d0, res, document@) && same_kinds(batch@, b0),
        decreases 2 * (b0.len() - k) + (if res is Ok { 1int } else { 0int }),
    {
        let ghost cmds = b0.skip(k as int);
        let ghost dk = document@;
        let ghost dd = *document;
        proof {
            assert(cmds[0] == b0[k as int]);
            assert(cmds.drop_first() =~= b0.skip(k + 1));
        }
        let r1 = batch[k].execute(document);
        proof {
            assert(cmds[0].ran(dk, r1, document@));
            if r1 is Err {
                assert(batch_ran(cmds, dk, r1, document@));
                assert(batch_ran(b0, d0, r1, document@));
                assert forall|j: int| 0 <= j < batch@.len() implies #[trigger] batch@[j].same_kind(b0[j]) by {
                    if j > k {
                        assert(batch@[j] == b0[j]);
                    }
                }
            } else {
                assert forall|r: Result<(), EditError>, d2: DocumentV|
                    batch_ran(b0.skip(k + 1), document@, r, d2) implies #[trigger] batch_ran(b0, d0, r, d2) by {
                    assert(cmds[0].ran(dk, r1, document@));
                    assert(batch_ran(cmds, dk, r, d2));
                }
                assert(cmds[0].ran(dd@, r1, document@));
            }
        }
        res = r1;
        if res.is_ok() {
            k = k + 1;
        }
    }
    proof {
        if res is Ok {
            assert(b0.skip(k as int) =~= Seq::<EditCommand>::empty());
        }
    }
    res
}

} // verus!
