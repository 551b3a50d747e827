//! The editor: a document together with its undo and redo history.
use vstd::prelude::*;
use crate::document::{Document, DocumentV};
use crate::error::EditError;
use crate::inline::TextFormatting;
use crate::node::{Node, NodeV, clamp_level, para_v, nodes_seq_v};
use crate::editor::find_replace::{FindReplaceCommand, find_replace_result, saturated};
use crate::editor::command::with_nodes;
use crate::editor::selection_format::{SelectionFormatCommand, sel_format_effect, sel_format_can_run, sel_format_saves, restore_present};
use crate::editor::selection_indent::{SelectionIndentCommand, IndentDirection, indent_effect, indent_can_run, indent_saves};
use crate::editor::clipboard::{
    CutSelectionCommand, CopySelectionCommand, cut_effect, cut_can_run, cut_done, cut_taken, cut_saves,
    cut_saved_selection, copy_can_run, copied_content, restore_saved,
};
use crate::inline::plain_text_v;
use crate::editor::command::Command;
use crate::editor::history::{
    EditCommand, insert_node_ran, delete_node_ran, move_node_ran, duplicate_node_ran, insert_text_ran,
    format_text_ran, delete_text_ran, merge_nodes_ran, convert_ran,
};
use crate::editor::batch::{batch_undone, batch_can_undo, batch_ran, batch_can_run, same_kinds, undo_batch, run_batch};
use crate::editor::node_commands::{InsertNodeCommand, DeleteNodeCommand, MoveNodeCommand, DuplicateNodeCommand};
use crate::editor::text_commands::{InsertTextCommand, FormatTextCommand, has_inlines, inlines_of, insert_cmd_ok, format_ok};
use crate::editor::edit_commands::{DeleteTextCommand, MergeNodesCommand};
use crate::editor::convert_command::{ConvertNodeTypeCommand, NodeConversionType};
use crate::doc_selection::node_selection_ok;
use crate::text::{blen, is_boundary};
use crate::editor::task_commands::other_error;
use crate::editor::find_replace::lemma_find_replace_total;
use crate::editor::laws::{lemma_find_replace_restores, law_selection_format_undo, law_cut_undo, lemma_selection_indent_restores};

verus! {

/// The history after recording a batch: the oldest entry goes once there
/// are more than `max` entries.
pub open spec fn trimmed(h: Seq<Seq<EditCommand>>, max: usize) -> Seq<Seq<EditCommand>> {
    if h.len() > max { h.remove(0) } else { h }
}

/// `h1` is `h0` with one more batch of a single command satisfying `p`
/// recorded.
pub open spec fn logged_one(h0: Seq<Seq<EditCommand>>, h1: Seq<Seq<EditCommand>>, max: usize, p: spec_fn(EditCommand) -> bool) -> bool {
    exists|c: EditCommand| #[trigger] p(c) && h1 == trimmed(h0.push(seq![c]), max)
}

/// A record that satisfies `p` satisfies every `q` that `p` implies.
pub proof fn lemma_logged_weaken(
    h0: Seq<Seq<EditCommand>>,
    h1: Seq<Seq<EditCommand>>,
    max: usize,
    p: spec_fn(EditCommand) -> bool,
    q: spec_fn(EditCommand) -> bool,
)
    requires
        logged_one(h0, h1, max, p),
        forall|c: EditCommand| #[trigger] p(c) ==> q(c),
    ensures logged_one(h0, h1, max, q),
{
    let c = choose|c: EditCommand| #[trigger] p(c) && h1 == trimmed(h0.push(seq![c]), max);
    assert(q(c));
}

/// The most recent batch of `h` is one command whose undo, on `after`,
/// succeeds and gives back `before`.
pub open spec fn last_restores(h: Seq<Seq<EditCommand>>, before: DocumentV, after: DocumentV) -> bool {
    h.len() > 0 && exists|c: EditCommand| h.last() == seq![c] && #[trigger] c.restores(before, after)
}

/// A batch of one command can be undone where that command can.
proof fn lemma_single_batch_can_undo(b: Seq<EditCommand>, c: EditCommand, d: Document)
    requires
        b == seq![c],
        c.can_undo(&d),
    ensures batch_can_undo(b, d),
{
    assert(b.last() == c);
    assert(b.drop_last() =~= Seq::<EditCommand>::empty());
    assert forall|r: Result<(), EditError>, m: Document| #[trigger] b.last().undone(d@, r, m@) && r is Ok
        implies batch_can_undo(b.drop_last(), m) by {
    }
}

impl Editor {
    /// After recording a batch of one command whose undo can run on the
    /// document, the most recent batch can be undone.
    proof fn lemma_recorded_one(&self, h0: Seq<Seq<EditCommand>>, c: EditCommand)
        requires
            self.undo_history() == trimmed(h0.push(seq![c]), self.history_limit()),
            c.can_undo(&self.document),
        ensures self.can_undo_last(),
    {
        if self.undo_stack.len() > 0 {
            let h = h0.push(seq![c]);
            assert(self.undo_history().len() == self.undo_stack@.len());
            if h.len() > self.max_history {
                assert(h.remove(0).last() == h.last());
            }
            assert(self.undo_history().last() == seq![c]);
            assert(self.undo_history().last() == self.undo_stack@.last()@);
            lemma_single_batch_can_undo(self.undo_stack@.last()@, c, self.document);
        }
    }
}

/// Editor that runs editing commands on a document and keeps them for undo
/// and redo
pub struct Editor {
    document: Document,
    undo_stack: Vec<Vec<EditCommand>>,
    redo_stack: Vec<Vec<EditCommand>>,
    max_history: usize,
}

/// The batches of a history, as sequences.
pub open spec fn batches(v: Seq<Vec<EditCommand>>) -> Seq<Seq<EditCommand>> {
    v.map_values(|b: Vec<EditCommand>| b@)
}

impl Editor {
    /// The document being edited.
    pub closed spec fn doc(&self) -> DocumentV {
        self.document@
    }

    /// The batches that undo takes back, the most recent last.
    pub closed spec fn undo_history(&self) -> Seq<Seq<EditCommand>> {
        batches(self.undo_stack@)
    }

    /// The batches that redo runs again, the most recently undone last.
    pub closed spec fn redo_history(&self) -> Seq<Seq<EditCommand>> {
        batches(self.redo_stack@)
    }

    /// How many batches the undo history keeps.
    pub closed spec fn history_limit(&self) -> usize {
        self.max_history
    }

    /// The most recent batch can be undone on the current document without
    /// a run-time fault.
    pub closed spec fn can_undo_last(&self) -> bool {
        self.undo_stack.len() > 0 ==> batch_can_undo(self.undo_stack@.last()@, self.document)
    }

    /// The most recently undone batch can be run again on the current
    /// document without a run-time fault.
    pub closed spec fn can_redo_last(&self) -> bool {
        self.redo_stack.len() > 0 ==> batch_can_run(self.redo_stack@.last()@, self.document)
    }

    /// Creates an editor for the document, with empty history and room for
    /// 100 batches of undo.
    pub fn new(document: Document) -> (r: Self)
        ensures
            r.doc() == document@,
            r.undo_history().len() == 0,
            r.redo_history().len() == 0,
            r.history_limit() == 100,
            r.can_undo_last(),
            r.can_redo_last(),
    {
        Editor { document, undo_stack: Vec::new(), redo_stack: Vec::new(), max_history: 100 }
    }

    /// The document being edited.
    pub fn document(&self) -> (r: &Document)
        ensures r@ == self.doc(),
    {
        &self.document
    }

    /// Sets how many batches the history keeps, dropping the oldest ones of
    /// each history beyond that.
    pub fn set_max_history(&mut self, max: usize)
        ensures
            final(self).doc() == old(self).doc(),
            final(self).history_limit() == max,
            final(self).undo_history() == if old(self).undo_history().len() > max {
                old(self).undo_history().subrange(old(self).undo_history().len() - max, old(self).undo_history().len() as int)
            } else {
                old(self).undo_history()
            },
            final(self).redo_history() == if old(self).redo_history().len() > max {
                old(self).redo_history().subrange(old(self).redo_history().len() - max, old(self).redo_history().len() as int)
            } else {
                old(self).redo_history()
            },
    {
        self.max_history = max;
        if self.undo_stack.len() > max {
            let keep = self.undo_stack.split_off(self.undo_stack.len() - max);
            self.undo_stack = keep;
        }
        if self.redo_stack.len() > max {
            let keep = self.redo_stack.split_off(self.redo_stack.len() - max);
            self.redo_stack = keep;
        }
        proof {
            assert(batches(self.undo_stack@) =~= (if old(self).undo_history().len() > max {
                old(self).undo_history().subrange(old(self).undo_history().len() - max, old(self).undo_history().len() as int)
            } else {
                old(self).undo_history()
            }));
            assert(batches(self.redo_stack@) =~= (if old(self).redo_history().len() > max {
                old(self).redo_history().subrange(old(self).redo_history().len() - max, old(self).redo_history().len() as int)
            } else {
                old(self).redo_history()
            }));
        }
    }

    /// Records a batch that has just been run: it goes on the undo history,
    /// the redo history is cleared, and the oldest batch goes when there are
    /// too many.
    fn record(&mut self, batch: Vec<EditCommand>)
        ensures
            final(self).document == old(self).document,
            final(self).doc() == old(self).doc(),
            final(self).history_limit() == old(self).history_limit(),
            final(self).undo_history() == trimmed(old(self).undo_history().push(batch@), old(self).history_limit()),
            final(self).redo_history().len() == 0,
    {
        self.undo_stack.push(batch);
        self.redo_stack.clear();
        if self.undo_stack.len() > self.max_history {
            self.undo_stack.remove(0);
        }
        proof {
            assert(batches(self.redo_stack@) =~= Seq::<Seq<EditCommand>>::empty());
            assert(batches(self.undo_stack@) =~= trimmed(old(self).undo_history().push(batch@), old(self).history_limit()));
        }
    }

    /// Runs one command and, when it succeeds, records it.
    fn run_one(&mut self, cmd: EditCommand) -> (r: Result<(), EditError>)
        requires cmd.can_execute(&old(self).document),
        ensures
            cmd.ran(old(self).doc(), r, final(self).doc()),
            final(self).history_limit() == old(self).history_limit(),
            r is Ok ==> logged_one(old(self).undo_history(), final(self).undo_history(), old(self).history_limit(),
                |c: EditCommand| c.same_kind(cmd)) && final(self).redo_history().len() == 0,
            r is Ok && old(self).history_limit() > 0 && cmd.exact_undo(old(self).doc())
                ==> last_restores(final(self).undo_history(), old(self).doc(), final(self).doc()),
            r is Ok ==> final(self).can_undo_last(),
            r is Err ==> final(self).undo_history() == old(self).undo_history()
                && final(self).redo_history() == old(self).redo_history(),
    {
        let mut c = cmd;
        let ghost d0 = self.document@;
        let r = c.execute(&mut self.document);
        if r.is_ok() {
            let ghost c2 = c;
            let ghost d1 = self.document@;
            let mut b: Vec<EditCommand> = Vec::new();
            b.push(c);
            proof { assert(b@ =~= seq![c2]); }
            self.record(b);
            proof {
                let p = |x: EditCommand| x.same_kind(cmd);
                assert(p(c2));
                if self.max_history > 0 && cmd.exact_undo(d0) {
                    let h = old(self).undo_history().push(seq![c2]);
                    assert(self.undo_history() == trimmed(h, self.max_history));
                    if h.len() > self.max_history {
                        assert(h.remove(0).last() == h.last());
                    }
                    assert(self.undo_history().last() == seq![c2]);
                    assert(c2.restores(d0, d1));
                }
                if self.undo_stack.len() > 0 {
                    let h = old(self).undo_history().push(seq![c2]);
                    assert(self.undo_history().len() == self.undo_stack@.len());
                    if h.len() > self.max_history {
                        assert(h.remove(0).last() == h.last());
                    }
                    assert(self.undo_history().last() == seq![c2]);
                    assert(self.undo_history().last() == self.undo_stack@.last()@);
                    lemma_single_batch_can_undo(self.undo_stack@.last()@, c2, self.document);
                }
            }
        }
        r
    }

    /// Deletes bytes `start..end` of a paragraph or code block.
    pub fn delete_text(&mut self, node_index: usize, start: usize, end: usize) -> (r: Result<(), EditError>)
        requires
            node_index < old(self).doc().nodes.len() && start < end
                ==> node_selection_ok(old(self).doc().nodes[node_index as int], start as int, end as int),
        ensures
            delete_text_ran(node_index, start, end, old(self).doc(), r, final(self).doc()),
            r is Ok ==> logged_one(old(self).undo_history(), final(self).undo_history(), old(self).history_limit(),
                |c: EditCommand| c matches EditCommand::DeleteText(x) && x.node() == node_index && x.start() == start && x.end() == end)
                && final(self).redo_history().len() == 0,
            r is Ok ==> final(self).can_undo_last(),
            r is Ok && old(self).history_limit() > 0
                ==> last_restores(final(self).undo_history(), old(self).doc(), final(self).doc()),
            r is Err ==> final(self).undo_history() == old(self).undo_history()
                && final(self).redo_history() == old(self).redo_history(),
    {
        let cmd = EditCommand::DeleteText(DeleteTextCommand::new(node_index, start, end));
        proof { crate::node::lemma_nodes_seq_v_index(self.document.nodes@); }
        let ghost gc = cmd;
        let r = self.run_one(cmd);
        proof {
            if r is Ok {
                lemma_logged_weaken(old(self).undo_history(), self.undo_history(), old(self).history_limit(),
                    |c: EditCommand| c.same_kind(gc), |c: EditCommand| c matches EditCommand::DeleteText(x) && x.node() == node_index && x.start() == start && x.end() == end);
            }
        }
        r
    }

    /// Merges the node at `second_index` into the one at `first_index`.
    pub fn merge_nodes(&mut self, first_index: usize, second_index: usize) -> (r: Result<(), EditError>)
        ensures
            merge_nodes_ran(first_index, second_index, old(self).doc(), r, final(self).doc()),
            r is Ok ==> logged_one(old(self).undo_history(), final(self).undo_history(), old(self).history_limit(),
                |c: EditCommand| c matches EditCommand::MergeNodes(x) && x.first() == first_index && x.second() == second_index)
                && final(self).redo_history().len() == 0,
            r is Ok ==> final(self).can_undo_last(),
            r is Ok && old(self).history_limit() > 0
                ==> last_restores(final(self).undo_history(), old(self).doc(), final(self).doc()),
            r is Err ==> final(self).undo_history() == old(self).undo_history()
                && final(self).redo_history() == old(self).redo_history(),
    {
        let cmd = EditCommand::MergeNodes(MergeNodesCommand::new(first_index, second_index));
        let ghost gc = cmd;
        let r = self.run_one(cmd);
        proof {
            if r is Ok {
                lemma_logged_weaken(old(self).undo_history(), self.undo_history(), old(self).history_limit(),
                    |c: EditCommand| c.same_kind(gc), |c: EditCommand| c matches EditCommand::MergeNodes(x) && x.first() == first_index && x.second() == second_index);
            }
        }
        r
    }

    /// Adds the formatting to bytes `start..end` of a paragraph or heading.
    pub fn format_text(&mut self, node_index: usize, start: usize, end: usize, formatting: TextFormatting) -> (r: Result<(), EditError>)
        requires
            node_index < old(self).doc().nodes.len() && start < end && has_inlines(old(self).doc().nodes[node_index as int])
                ==> format_ok(inlines_of(old(self).doc().nodes[node_index as int]), start as int, end as int),
        ensures
            format_text_ran(node_index, start, end, formatting, old(self).doc(), r, final(self).doc()),
            r is Ok ==> logged_one(old(self).undo_history(), final(self).undo_history(), old(self).history_limit(),
                |c: EditCommand| c matches EditCommand::FormatText(x) && x.node() == node_index && x.start() == start
                    && x.end() == end && x.formatting() == formatting)
                && final(self).redo_history().len() == 0,
            r is Ok && old(self).history_limit() > 0
                ==> last_restores(final(self).undo_history(), old(self).doc(), final(self).doc()),
            r is Ok ==> final(self).can_undo_last(),
            r is Err ==> final(self).undo_history() == old(self).undo_history()
                && final(self).redo_history() == old(self).redo_history(),
    {
        let cmd = EditCommand::FormatText(FormatTextCommand::new(node_index, start, end, formatting));
        proof { crate::node::lemma_nodes_seq_v_index(self.document.nodes@); }
        let ghost gc = cmd;
        let r = self.run_one(cmd);
        proof {
            if r is Ok {
                lemma_logged_weaken(old(self).undo_history(), self.undo_history(), old(self).history_limit(),
                    |c: EditCommand| c.same_kind(gc), |c: EditCommand| c matches EditCommand::FormatText(x) && x.node() == node_index && x.start() == start
                    && x.end() == end && x.formatting() == formatting);
            }
        }
        r
    }

    /// Moves the node at `from_index` to before the node at `to_index`.
    pub fn move_node(&mut self, from_index: usize, to_index: usize) -> (r: Result<(), EditError>)
        ensures
            move_node_ran(from_index, to_index, old(self).doc(), r, final(self).doc()),
            r is Ok ==> logged_one(old(self).undo_history(), final(self).undo_history(), old(self).history_limit(),
                |c: EditCommand| c matches EditCommand::MoveNode(x) && x.from() == from_index && x.to() == to_index)
                && final(self).redo_history().len() == 0,
            r is Ok && old(self).history_limit() > 0
                ==> last_restores(final(self).undo_history(), old(self).doc(), final(self).doc()),
            r is Ok ==> final(self).can_undo_last(),
            r is Err ==> final(self).undo_history() == old(self).undo_history()
                && final(self).redo_history() == old(self).redo_history(),
    {
        let cmd = EditCommand::MoveNode(MoveNodeCommand::new(from_index, to_index));
        let ghost gc = cmd;
        let r = self.run_one(cmd);
        proof {
            if r is Ok {
                lemma_logged_weaken(old(self).undo_history(), self.undo_history(), old(self).history_limit(),
                    |c: EditCommand| c.same_kind(gc), |c: EditCommand| c matches EditCommand::MoveNode(x) && x.from() == from_index && x.to() == to_index);
            }
        }
        r
    }

    /// Converts the node at `node_index` to another kind.
    pub fn convert_node_type(&mut self, node_index: usize, target_type: NodeConversionType) -> (r: Result<(), EditError>)
        ensures
            convert_ran(node_index, target_type, old(self).doc(), r, final(self).doc()),
            r is Ok ==> logged_one(old(self).undo_history(), final(self).undo_history(), old(self).history_limit(),
                |c: EditCommand| c matches EditCommand::ConvertNodeType(x) && x.node() == node_index && x.target() == target_type)
                && final(self).redo_history().len() == 0,
            r is Ok && old(self).history_limit() > 0
                ==> last_restores(final(self).undo_history(), old(self).doc(), final(self).doc()),
            r is Ok ==> final(self).can_undo_last(),
            r is Err ==> final(self).undo_history() == old(self).undo_history()
                && final(self).redo_history() == old(self).redo_history(),
    {
        let ghost t = target_type;
        let cmd = EditCommand::ConvertNodeType(ConvertNodeTypeCommand::new(node_index, target_type));
        let ghost gc = cmd;
        let r = self.run_one(cmd);
        proof {
            if r is Ok {
                lemma_logged_weaken(old(self).undo_history(), self.undo_history(), old(self).history_limit(),
                    |c: EditCommand| c.same_kind(gc), |c: EditCommand| c matches EditCommand::ConvertNodeType(x) && x.node() == node_index && x.target() == target_type);
            }
        }
        r
    }

    /// Deletes the node at `node_index`.
    pub fn delete_node(&mut self, node_index: usize) -> (r: Result<(), EditError>)
        ensures
            delete_node_ran(node_index, old(self).doc(), r, final(self).doc()),
            r is Ok ==> logged_one(old(self).undo_history(), final(self).undo_history(), old(self).history_limit(),
                |c: EditCommand| c matches EditCommand::DeleteNode(x) && x.index() == node_index)
                && final(self).redo_history().len() == 0,
            r is Ok && old(self).history_limit() > 0
                ==> last_restores(final(self).undo_history(), old(self).doc(), final(self).doc()),
            r is Ok ==> final(self).can_undo_last(),
            r is Err ==> final(self).undo_history() == old(self).undo_history()
                && final(self).redo_history() == old(self).redo_history(),
    {
        let cmd = EditCommand::DeleteNode(DeleteNodeCommand::new(node_index));
        let ghost gc = cmd;
        let r = self.run_one(cmd);
        proof {
            if r is Ok {
                lemma_logged_weaken(old(self).undo_history(), self.undo_history(), old(self).history_limit(),
                    |c: EditCommand| c.same_kind(gc), |c: EditCommand| c matches EditCommand::DeleteNode(x) && x.index() == node_index);
            }
        }
        r
    }

    /// Undoes the most recent batch, from its last command to its first. On
    /// success the batch moves to the redo history; on failure it is
    /// dropped. With nothing to undo, nothing changes.
    pub fn undo(&mut self) -> (r: Result<(), EditError>)
        requires old(self).can_undo_last(),
        ensures
            final(self).history_limit() == old(self).history_limit(),
            old(self).undo_history().len() == 0 ==> other_error(r, "Nothing to undo"@) && final(self).doc() == old(self).doc()
                && final(self).undo_history() == old(self).undo_history()
                && final(self).redo_history() == old(self).redo_history(),
            old(self).undo_history().len() > 0 ==> {
                let b = old(self).undo_history().last();
                &&& batch_undone(b, old(self).doc(), r, final(self).doc())
                &&& final(self).undo_history() == old(self).undo_history().drop_last()
                &&& r is Ok ==> final(self).redo_history().len() == old(self).redo_history().len() + 1
                    && final(self).redo_history().drop_last() == old(self).redo_history()
                    && same_kinds(final(self).redo_history().last(), b)
                &&& r is Err ==> final(self).redo_history() == old(self).redo_history()
            },
    {
        match self.undo_stack.pop() {
            Some(mut batch) => {
                proof {
                    assert(batches(self.undo_stack@) =~= old(self).undo_history().drop_last());
                }
                let r = undo_batch(&mut batch, &mut self.document);
                if r.is_ok() {
                    self.redo_stack.push(batch);
                    proof {
                        assert(batches(self.redo_stack@).drop_last() =~= old(self).redo_history());
                    }
                }
                r
            },
            None => Err(EditError::Other("Nothing to undo".to_owned())),
        }
    }

    /// Runs the most recently undone batch again. On success it moves back
    /// to the undo history; on failure it is dropped. With nothing to redo,
    /// nothing changes.
    pub fn redo(&mut self) -> (r: Result<(), EditError>)
        requires old(self).can_redo_last(),
        ensures
            final(self).history_limit() == old(self).history_limit(),
            old(self).redo_history().len() == 0 ==> other_error(r, "Nothing to redo"@) && final(self).doc() == old(self).doc()
                && final(self).undo_history() == old(self).undo_history()
                && final(self).redo_history() == old(self).redo_history(),
            old(self).redo_history().len() > 0 ==> {
                let b = old(self).redo_history().last();
                &&& batch_ran(b, old(self).doc(), r, final(self).doc())
                &&& final(self).redo_history() == old(self).redo_history().drop_last()
                &&& r is Ok ==> final(self).undo_history().len() == old(self).undo_history().len() + 1
                    && final(self).undo_history().drop_last() == old(self).undo_history()
                    && same_kinds(final(self).undo_history().last(), b)
                &&& r is Err ==> final(self).undo_history() == old(self).undo_history()
            },
    {
        match self.redo_stack.pop() {
            Some(mut batch) => {
                proof {
                    assert(batches(self.redo_stack@) =~= old(self).redo_history().drop_last());
                }
                let r = run_batch(&mut batch, &mut self.document);
                if r.is_ok() {
                    self.undo_stack.push(batch);
                    proof {
                        assert(batches(self.undo_stack@).drop_last() =~= old(self).undo_history());
                    }
                }
                r
            },
            None => Err(EditError::Other("Nothing to redo".to_owned())),
        }
    }

    /// Records commands that a committed transaction has already applied,
    /// as one batch that undo takes back at once.
    pub fn execute_transaction_commands(&mut self, commands: Vec<EditCommand>) -> (r: Result<(), EditError>)
        ensures
            r is Ok,
            final(self).doc() == old(self).doc(),
            final(self).history_limit() == old(self).history_limit(),
            commands.len() == 0 ==> final(self).undo_history() == old(self).undo_history()
                && final(self).redo_history() == old(self).redo_history(),
            commands.len() > 0 ==> final(self).undo_history() == trimmed(old(self).undo_history().push(commands@), old(self).history_limit())
                && final(self).redo_history().len() == 0,
    {
        if commands.len() > 0 {
            self.record(commands);
        }
        Ok(())
    }

    /// The document, for changes made outside the history (such as
    /// committing a transaction).
    pub fn document_mut(&mut self) -> (r: &mut Document)
        ensures
            r@ == old(self).doc(),
            final(self).doc() == final(r)@,
            final(self).undo_history() == old(self).undo_history(),
            final(self).redo_history() == old(self).redo_history(),
            final(self).history_limit() == old(self).history_limit(),
    {
        &mut self.document
    }

    /// Inserts text at byte `position` of a paragraph, heading or code block.
    pub fn insert_text(&mut self, node_index: usize, position: usize, text: &str) -> (r: Result<(), EditError>)
        requires
            node_index < old(self).doc().nodes.len() ==> {
                let n = old(self).doc().nodes[node_index as int];
                &&& has_inlines(n) ==> insert_cmd_ok(inlines_of(n), position as int)
                &&& n is CodeBlock && position <= blen(n->CodeBlock_code)
                    ==> is_boundary(n->CodeBlock_code, position as int)
            },
        ensures
            insert_text_ran(node_index, position, text@, old(self).doc(), r, final(self).doc()),
            r is Ok ==> logged_one(old(self).undo_history(), final(self).undo_history(), old(self).history_limit(),
                |c: EditCommand| c matches EditCommand::InsertText(x) && x.node() == node_index && x.position() == position && x.text() == text@)
                && final(self).redo_history().len() == 0,
            r is Ok && old(self).history_limit() > 0
                ==> last_restores(final(self).undo_history(), old(self).doc(), final(self).doc()),
            r is Ok ==> final(self).can_undo_last(),
            r is Err ==> final(self).undo_history() == old(self).undo_history()
                && final(self).redo_history() == old(self).redo_history(),
    {
        let cmd = EditCommand::InsertText(InsertTextCommand::new(node_index, position, text.to_owned()));
        proof { crate::node::lemma_nodes_seq_v_index(self.document.nodes@); }
        let ghost gc = cmd;
        let r = self.run_one(cmd);
        proof {
            if r is Ok {
                lemma_logged_weaken(old(self).undo_history(), self.undo_history(), old(self).history_limit(),
                    |c: EditCommand| c.same_kind(gc), |c: EditCommand| c matches EditCommand::InsertText(x) && x.node() == node_index && x.position() == position && x.text() == text@);
            }
        }
        r
    }

    /// Inserts a node at `position`.
    pub fn insert_node(&mut self, position: usize, node: Node) -> (r: Result<(), EditError>)
        ensures
            insert_node_ran(position, node@, old(self).doc(), r, final(self).doc()),
            r is Ok ==> logged_one(old(self).undo_history(), final(self).undo_history(), old(self).history_limit(),
                |c: EditCommand| c matches EditCommand::InsertNode(x) && x.position() == position && x.node_v() == node@)
                && final(self).redo_history().len() == 0,
            r is Ok && old(self).history_limit() > 0
                ==> last_restores(final(self).undo_history(), old(self).doc(), final(self).doc()),
            r is Ok ==> final(self).can_undo_last(),
            r is Err ==> final(self).undo_history() == old(self).undo_history()
                && final(self).redo_history() == old(self).redo_history(),
    {
        let ghost nv = node@;
        let cmd = EditCommand::InsertNode(InsertNodeCommand::new(position, node));
        let ghost gc = cmd;
        let r = self.run_one(cmd);
        proof {
            if r is Ok {
                lemma_logged_weaken(old(self).undo_history(), self.undo_history(), old(self).history_limit(),
                    |c: EditCommand| c.same_kind(gc), |c: EditCommand| c matches EditCommand::InsertNode(x) && x.position() == position && x.node_v() == node@);
            }
        }
        r
    }

    /// Inserts a paragraph holding `text` at `position`.
    pub fn insert_paragraph(&mut self, position: usize, text: &str) -> (r: Result<(), EditError>)
        ensures
            insert_node_ran(position, para_v(text@), old(self).doc(), r, final(self).doc()),
            r is Ok ==> logged_one(old(self).undo_history(), final(self).undo_history(), old(self).history_limit(),
                |c: EditCommand| c matches EditCommand::InsertNode(x) && x.position() == position && x.node_v() == para_v(text@))
                && final(self).redo_history().len() == 0,
            r is Ok && old(self).history_limit() > 0
                ==> last_restores(final(self).undo_history(), old(self).doc(), final(self).doc()),
            r is Ok ==> final(self).can_undo_last(),
            r is Err ==> final(self).undo_history() == old(self).undo_history()
                && final(self).redo_history() == old(self).redo_history(),
    {
        let cmd = EditCommand::InsertNode(InsertNodeCommand::new_paragraph(position, text));
        let ghost gc = cmd;
        let r = self.run_one(cmd);
        proof {
            if r is Ok {
                lemma_logged_weaken(old(self).undo_history(), self.undo_history(), old(self).history_limit(),
                    |c: EditCommand| c.same_kind(gc), |c: EditCommand| c matches EditCommand::InsertNode(x) && x.position() == position && x.node_v() == para_v(text@));
            }
        }
        r
    }

    /// Inserts a heading (level clamped to 1..=6) holding `text` at `position`.
    pub fn insert_heading(&mut self, position: usize, level: u8, text: &str) -> (r: Result<(), EditError>)
        ensures
            insert_node_ran(position, NodeV::Heading { level: clamp_level(level), children: seq![plain_text_v(text@)] },
                old(self).doc(), r, final(self).doc()),
            r is Ok ==> logged_one(old(self).undo_history(), final(self).undo_history(), old(self).history_limit(),
                |c: EditCommand| c matches EditCommand::InsertNode(x) && x.position() == position
                    && x.node_v() == (NodeV::Heading { level: clamp_level(level), children: seq![plain_text_v(text@)] }))
                && final(self).redo_history().len() == 0,
            r is Ok && old(self).history_limit() > 0
                ==> last_restores(final(self).undo_history(), old(self).doc(), final(self).doc()),
            r is Ok ==> final(self).can_undo_last(),
            r is Err ==> final(self).undo_history() == old(self).undo_history()
                && final(self).redo_history() == old(self).redo_history(),
    {
        let cmd = EditCommand::InsertNode(InsertNodeCommand::new_heading(position, level, text));
        let ghost gc = cmd;
        let r = self.run_one(cmd);
        proof {
            if r is Ok {
                lemma_logged_weaken(old(self).undo_history(), self.undo_history(), old(self).history_limit(),
                    |c: EditCommand| c.same_kind(gc), |c: EditCommand| c matches EditCommand::InsertNode(x) && x.position() == position
                    && x.node_v() == (NodeV::Heading { level: clamp_level(level), children: seq![plain_text_v(text@)] }));
            }
        }
        r
    }

    /// Inserts a code block at `position`.
    pub fn insert_code_block(&mut self, position: usize, code: &str, language: &str) -> (r: Result<(), EditError>)
        ensures
            insert_node_ran(position, NodeV::CodeBlock { language: language@, code: code@ }, old(self).doc(), r, final(self).doc()),
            r is Ok ==> logged_one(old(self).undo_history(), final(self).undo_history(), old(self).history_limit(),
                |c: EditCommand| c matches EditCommand::InsertNode(x) && x.position() == position
                    && x.node_v() == (NodeV::CodeBlock { language: language@, code: code@ }))
                && final(self).redo_history().len() == 0,
            r is Ok && old(self).history_limit() > 0
                ==> last_restores(final(self).undo_history(), old(self).doc(), final(self).doc()),
            r is Ok ==> final(self).can_undo_last(),
            r is Err ==> final(self).undo_history() == old(self).undo_history()
                && final(self).redo_history() == old(self).redo_history(),
    {
        let cmd = EditCommand::InsertNode(InsertNodeCommand::new_code_block(position, code, language));
        let ghost gc = cmd;
        let r = self.run_one(cmd);
        proof {
            if r is Ok {
                lemma_logged_weaken(old(self).undo_history(), self.undo_history(), old(self).history_limit(),
                    |c: EditCommand| c.same_kind(gc), |c: EditCommand| c matches EditCommand::InsertNode(x) && x.position() == position
                    && x.node_v() == (NodeV::CodeBlock { language: language@, code: code@ }));
            }
        }
        r
    }

    /// Inserts a copy of the node at `node_index` right after it.
    pub fn duplicate_node(&mut self, node_index: usize) -> (r: Result<(), EditError>)
        ensures
            duplicate_node_ran(node_index, old(self).doc(), r, final(self).doc()),
            r is Ok ==> logged_one(old(self).undo_history(), final(self).undo_history(), old(self).history_limit(),
                |c: EditCommand| c matches EditCommand::DuplicateNode(x) && x.index() == node_index)
                && final(self).redo_history().len() == 0,
            r is Ok && old(self).history_limit() > 0
                ==> last_restores(final(self).undo_history(), old(self).doc(), final(self).doc()),
            r is Ok ==> final(self).can_undo_last(),
            r is Err ==> final(self).undo_history() == old(self).undo_history()
                && final(self).redo_history() == old(self).redo_history(),
    {
        let cmd = EditCommand::DuplicateNode(DuplicateNodeCommand::new(node_index));
        let ghost gc = cmd;
        let r = self.run_one(cmd);
        proof {
            if r is Ok {
                lemma_logged_weaken(old(self).undo_history(), self.undo_history(), old(self).history_limit(),
                    |c: EditCommand| c.same_kind(gc), |c: EditCommand| c matches EditCommand::DuplicateNode(x) && x.index() == node_index);
            }
        }
        r
    }
}

impl Editor {
    /// Cuts the selection (see `cut_effect`) and returns what it took out.
    /// A cut that succeeds is recorded, even one that had nothing to take;
    /// one that fails is not, and then nothing is returned.
    pub fn cut_selection(&mut self) -> (r: Vec<Node>)
        requires cut_can_run(old(self).doc()),
        ensures
            final(self).doc() == cut_effect(old(self).doc()).1,
            final(self).history_limit() == old(self).history_limit(),
            nodes_seq_v(r@) == if cut_done(old(self).doc()) { cut_taken(old(self).doc()) } else { Seq::<NodeV>::empty() },
            cut_effect(old(self).doc()).0 is Ok ==> logged_one(old(self).undo_history(), final(self).undo_history(),
                old(self).history_limit(),
                |c: EditCommand| c matches EditCommand::CutSelection(x) && x.saved() == cut_saves(old(self).doc())
                    && x.saved_selection() == cut_saved_selection(old(self).doc()))
                && final(self).redo_history().len() == 0,
            cut_effect(old(self).doc()).0 is Ok && old(self).history_limit() > 0
                ==> last_restores(final(self).undo_history(), old(self).doc(), final(self).doc()),
            cut_effect(old(self).doc()).0 is Ok ==> final(self).can_undo_last(),
            cut_effect(old(self).doc()).0 is Err ==> final(self).undo_history() == old(self).undo_history()
                && final(self).redo_history() == old(self).redo_history(),
    {
        let mut cmd = CutSelectionCommand::new();
        let ghost d = self.document@;
        let n0 = self.document.nodes.len();
        proof { crate::node::lemma_nodes_seq_v_index(self.document.nodes@); }
        assert(d.nodes.len() == n0);
        let r = cmd.execute(&mut self.document);
        match r {
            Ok(()) => {
                let content = cmd.content_copy();
                let ghost gc = EditCommand::CutSelection(cmd);
                let mut b: Vec<EditCommand> = Vec::new();
                b.push(EditCommand::CutSelection(cmd));
                proof { assert(b@ =~= seq![gc]); }
                self.record(b);
                proof {
                    let p = |c: EditCommand| c matches EditCommand::CutSelection(x) && x.saved() == cut_saves(d)
                        && x.saved_selection() == cut_saved_selection(d);
                    assert(p(gc));
                    self.lemma_recorded_one(old(self).undo_history(), gc);
                    let d1 = self.document@;
                    if self.max_history > 0 {
                        assert forall|r2: Result<(), EditError>, d2: DocumentV| #[trigger] gc.undone(d1, r2, d2)
                            implies r2 is Ok && d2 == d by {
                            law_cut_undo(d, cmd, r2, d2);
                        }
                        assert(gc.restores(d, d1));
                        let h = old(self).undo_history().push(seq![gc]);
                        if h.len() > self.max_history {
                            assert(h.remove(0).last() == h.last());
                        }
                        assert(self.undo_history().last() == seq![gc]);
                    }
                }
                content
            },
            Err(_) => {
                let v: Vec<Node> = Vec::new();
                proof { assert(nodes_seq_v(v@) =~= Seq::<NodeV>::empty()); }
                v
            },
        }
    }

    /// Copies the selection (see `copied_content`) and returns the copy;
    /// the document and the history are left as they are.
    pub fn copy_selection(&mut self) -> (r: Vec<Node>)
        requires copy_can_run(old(self).doc()),
        ensures
            final(self).doc() == old(self).doc(),
            final(self).history_limit() == old(self).history_limit(),
            final(self).undo_history() == old(self).undo_history(),
            final(self).redo_history() == old(self).redo_history(),
            nodes_seq_v(r@) == copied_content(old(self).doc()),
    {
        let mut cmd = CopySelectionCommand::new();
        let _ = cmd.execute(&mut self.document);
        cmd.copied_copy()
    }
}

impl Editor {
    /// Replaces `find` by `replace` throughout the document (see
    /// `find_replace_result`), records the change and returns the number of
    /// replacements. A case-insensitive search replaces each stretch of text
    /// as long as `find` whose lowercase form is that of `find`.
    pub fn find_replace(&mut self, find: &str, replace: &str, case_sensitive: bool) -> (r: usize)
        ensures
            final(self).history_limit() == old(self).history_limit(),
            find_replace_result(old(self).doc().nodes, find@, replace@, case_sensitive) is Some,
            match find_replace_result(old(self).doc().nodes, find@, replace@, case_sensitive) {
                Some((ns, n, saved)) => {
                    &&& final(self).doc() == with_nodes(old(self).doc(), ns)
                    &&& r == (if find@.len() == 0 { 0 } else { saturated(n) })
                    &&& logged_one(old(self).undo_history(), final(self).undo_history(), old(self).history_limit(),
                        |c: EditCommand| c matches EditCommand::FindReplace(x) && x.find() == find@
                            && x.replacement() == replace@ && x.is_case_sensitive() == case_sensitive && x.saved() == saved)
                    &&& final(self).redo_history().len() == 0
                    &&& old(self).history_limit() > 0
                        ==> last_restores(final(self).undo_history(), old(self).doc(), final(self).doc())
                    &&& final(self).can_undo_last()
                },
                None => r == 0 && final(self).doc() == old(self).doc()
                    && final(self).undo_history() == old(self).undo_history()
                    && final(self).redo_history() == old(self).redo_history(),
            },
    {
        proof { lemma_find_replace_total(self.document@.nodes, find@, replace@, case_sensitive); }
        let mut cmd = FindReplaceCommand::new(find, replace, case_sensitive);
        if !cmd.can_run(&self.document) {
            return 0;
        }
        let ghost d = self.document@;
        let n0 = self.document.nodes.len();
        proof { crate::node::lemma_nodes_seq_v_index(self.document.nodes@); }
        assert(d.nodes.len() == n0);
        let _ = cmd.execute(&mut self.document);
        let count = cmd.replacements();
        let ghost gc = EditCommand::FindReplace(cmd);
        let ghost d1 = self.document@;
        proof {
            if find@.len() > 0 {
                assert(Seq::<(usize, NodeV)>::empty() + (find_replace_result(d.nodes, find@, replace@, case_sensitive)->0).2
                    =~= (find_replace_result(d.nodes, find@, replace@, case_sensitive)->0).2);
                lemma_find_replace_restores(d, cmd);
            } else {
                assert forall|r2: Result<(), EditError>, d2: DocumentV| #[trigger] gc.undone(d1, r2, d2)
                    implies r2 is Ok && d2 == d by {
                    assert(d.nodes =~= d1.nodes);
                }
            }
            assert(gc.restores(d, d1));
        }
        let mut b: Vec<EditCommand> = Vec::new();
        b.push(EditCommand::FindReplace(cmd));
        proof { assert(b@ =~= seq![gc]); }
        self.record(b);
        proof {
            self.lemma_recorded_one(old(self).undo_history(), gc);
            if self.max_history > 0 {
                let h = old(self).undo_history().push(seq![gc]);
                if h.len() > self.max_history {
                    assert(h.remove(0).last() == h.last());
                }
                assert(self.undo_history().last() == seq![gc]);
            }
            let saved = match find_replace_result(d.nodes, find@, replace@, case_sensitive) {
                Some(t) => t.2,
                None => Seq::empty(),
            };
            let p = |c: EditCommand| c matches EditCommand::FindReplace(x) && x.find() == find@
                && x.replacement() == replace@ && x.is_case_sensitive() == case_sensitive && x.saved() == saved;
            assert(Seq::<(usize, NodeV)>::empty() + saved =~= saved);
            assert(p(gc));
        }
        count
    }
}

impl Editor {
    /// Applies `formatting` to the selected text (see `sel_format_effect`);
    /// on success the command is recorded.
    pub fn format_selection(&mut self, formatting: TextFormatting) -> (r: Result<(), EditError>)
        requires sel_format_can_run(old(self).doc()),
        ensures
            r == sel_format_effect(old(self).doc(), formatting).0,
            final(self).doc() == sel_format_effect(old(self).doc(), formatting).1,
            final(self).history_limit() == old(self).history_limit(),
            r is Ok ==> logged_one(old(self).undo_history(), final(self).undo_history(), old(self).history_limit(),
                |c: EditCommand| c matches EditCommand::SelectionFormat(x) && x.formatting() == formatting
                    && x.saved() == sel_format_saves(old(self).doc()) && x.saved_selection() == cut_saved_selection(old(self).doc()))
                && final(self).redo_history().len() == 0,
            r is Ok && old(self).history_limit() > 0
                ==> last_restores(final(self).undo_history(), old(self).doc(), final(self).doc()),
            r is Ok ==> final(self).can_undo_last(),
            r is Err ==> final(self).undo_history() == old(self).undo_history()
                && final(self).redo_history() == old(self).redo_history(),
    {
        let mut cmd = SelectionFormatCommand::new(formatting);
        let ghost d = self.document@;
        let r = cmd.execute(&mut self.document);
        if r.is_ok() {
            let ghost gc = EditCommand::SelectionFormat(cmd);
            let mut b: Vec<EditCommand> = Vec::new();
            b.push(EditCommand::SelectionFormat(cmd));
            proof { assert(b@ =~= seq![gc]); }
            self.record(b);
            proof {
                self.lemma_recorded_one(old(self).undo_history(), gc);
                let p = |c: EditCommand| c matches EditCommand::SelectionFormat(x) && x.formatting() == formatting
                    && x.saved() == sel_format_saves(d) && x.saved_selection() == cut_saved_selection(d);
                assert(Seq::<(usize, NodeV)>::empty() + sel_format_saves(d) =~= sel_format_saves(d));
                assert(p(gc));
                let d1 = self.document@;
                assert forall|r2: Result<(), EditError>, d2: DocumentV| #[trigger] gc.undone(d1, r2, d2)
                    implies r2 is Ok && d2 == d by {
                    if d.selection is Some && !d.selection->0.is_collapsed {
                        law_selection_format_undo(d, formatting, d2);
                    } else {
                        assert(sel_format_saves(d).len() == 0);
                        assert(restore_present(d1.nodes, sel_format_saves(d), 0) == d1.nodes);
                    }
                }
                assert(gc.restores(d, d1));
                if self.max_history > 0 {
                    let h = old(self).undo_history().push(seq![gc]);
                    if h.len() > self.max_history {
                        assert(h.remove(0).last() == h.last());
                    }
                    assert(self.undo_history().last() == seq![gc]);
                }
            }
        }
        r
    }
}

impl Editor {
    fn shift_selection(&mut self, dir: IndentDirection) -> (r: Result<(), EditError>)
        requires indent_can_run(old(self).doc()),
        ensures
            r is Ok,
            final(self).doc() == indent_effect(old(self).doc(), dir),
            final(self).history_limit() == old(self).history_limit(),
            logged_one(old(self).undo_history(), final(self).undo_history(), old(self).history_limit(),
                |c: EditCommand| c matches EditCommand::SelectionIndent(x) && x.direction() == dir
                    && x.saved() == indent_saves(old(self).doc()) && x.saved_selection() == old(self).doc().selection),
            final(self).redo_history().len() == 0,
            old(self).history_limit() > 0 ==> last_restores(final(self).undo_history(), old(self).doc(), final(self).doc()),
            final(self).can_undo_last(),
    {
        let mut cmd = SelectionIndentCommand::new(dir);
        let ghost d = self.document@;
        let r = cmd.execute(&mut self.document);
        let ghost gc = EditCommand::SelectionIndent(cmd);
        let mut b: Vec<EditCommand> = Vec::new();
        b.push(EditCommand::SelectionIndent(cmd));
        proof { assert(b@ =~= seq![gc]); }
        self.record(b);
        proof {
            let p = |c: EditCommand| c matches EditCommand::SelectionIndent(x) && x.direction() == dir
                && x.saved() == indent_saves(d) && x.saved_selection() == d.selection;
            assert(p(gc));
            self.lemma_recorded_one(old(self).undo_history(), gc);
            lemma_selection_indent_restores(d, cmd);
            assert(gc.restores(d, self.document@));
            if self.max_history > 0 {
                let h = old(self).undo_history().push(seq![gc]);
                if h.len() > self.max_history {
                    assert(h.remove(0).last() == h.last());
                }
                assert(self.undo_history().last() == seq![gc]);
            }
        }
        r
    }

    /// Indents the selected nodes (see `indent_effect`) and records the
    /// command.
    pub fn indent_selection(&mut self) -> (r: Result<(), EditError>)
        requires indent_can_run(old(self).doc()),
        ensures
            r is Ok,
            final(self).doc() == indent_effect(old(self).doc(), IndentDirection::Increase),
            final(self).history_limit() == old(self).history_limit(),
            logged_one(old(self).undo_history(), final(self).undo_history(), old(self).history_limit(),
                |c: EditCommand| c matches EditCommand::SelectionIndent(x) && x.direction() == IndentDirection::Increase
                    && x.saved() == indent_saves(old(self).doc()) && x.saved_selection() == old(self).doc().selection),
            final(self).redo_history().len() == 0,
            old(self).history_limit() > 0 ==> last_restores(final(self).undo_history(), old(self).doc(), final(self).doc()),
            final(self).can_undo_last(),
    {
        self.shift_selection(IndentDirection::Increase)
    }

    /// Unindents the selected nodes (see `indent_effect`) and records the
    /// command.
    pub fn unindent_selection(&mut self) -> (r: Result<(), EditError>)
        requires indent_can_run(old(self).doc()),
        ensures
            r is Ok,
            final(self).doc() == indent_effect(old(self).doc(), IndentDirection::Decrease),
            final(self).history_limit() == old(self).history_limit(),
            logged_one(old(self).undo_history(), final(self).undo_history(), old(self).history_limit(),
                |c: EditCommand| c matches EditCommand::SelectionIndent(x) && x.direction() == IndentDirection::Decrease
                    && x.saved() == indent_saves(old(self).doc()) && x.saved_selection() == old(self).doc().selection),
            final(self).redo_history().len() == 0,
            old(self).history_limit() > 0 ==> last_restores(final(self).undo_history(), old(self).doc(), final(self).doc()),
            final(self).can_undo_last(),
    {
        self.shift_selection(IndentDirection::Decrease)
    }
}

} // verus!
