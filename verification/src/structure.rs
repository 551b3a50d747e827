//! A plain-text outline of a document's block structure.
use vstd::prelude::*;
use crate::node::{ListType, Node, NodeV, nodes_seq_v, lemma_nodes_seq_v_index};
use crate::selection::{Position, PositionV, Selection, SelectionV};
use crate::document::{Document, DocumentV};
use crate::convert::{decimal, push_decimal};

verus! {

/// The name of a list type.
pub open spec fn list_type_name(t: ListType) -> Seq<char> {
    match t {
        ListType::Ordered => "Ordered"@,
        ListType::Unordered => "Unordered"@,
        ListType::Task => "Task"@,
    }
}

/// The label of one block node in the outline.
pub open spec fn kind_label(n: NodeV) -> Seq<char> {
    match n {
        NodeV::Heading { level, .. } => "Heading (level "@ + decimal(level as nat) + ")"@,
        NodeV::Paragraph { .. } => "Paragraph"@,
        NodeV::List { list_type, .. } => "List ("@ + list_type_name(list_type) + ")"@,
        NodeV::CodeBlock { language, .. } => "CodeBlock ("@ + language + ")"@,
        NodeV::BlockQuote { .. } => "BlockQuote"@,
        NodeV::ThematicBreak => "ThematicBreak"@,
        NodeV::Table { .. } => "Table"@,
        NodeV::Group { name, .. } => "Group ("@ + name + ")"@,
        NodeV::FootnoteReference { .. } => "FootnoteReference"@,
        NodeV::FootnoteDefinition { .. } => "FootnoteDefinition"@,
        NodeV::DefinitionList { .. } => "DefinitionList"@,
        NodeV::MathBlock { .. } => "MathBlock"@,
        NodeV::TempListItem(_) => "TempListItem (Internal)"@,
        NodeV::TempTableCell(_) => "TempTableCell (Internal)"@,
    }
}

/// One outline line per node: its index, a dot, a space, its label.
pub open spec fn structure_lines(nodes: Seq<NodeV>) -> Seq<char>
    decreases nodes.len(),
{
    if nodes.len() == 0 {
        Seq::empty()
    } else {
        structure_lines(nodes.drop_last()) + decimal((nodes.len() - 1) as nat) + ". "@
            + kind_label(nodes.last()) + "\n"@
    }
}

/// The numbers of a list, separated by a comma and a space.
pub open spec fn joined_numbers(s: Seq<usize>) -> Seq<char>
    decreases s.len(),
{
    if s.len() == 0 {
        Seq::empty()
    } else if s.len() == 1 {
        decimal(s[0] as nat)
    } else {
        joined_numbers(s.drop_last()) + ", "@ + decimal(s.last() as nat)
    }
}

/// A position as its derived `Debug` form prints it.
pub open spec fn position_debug_text(p: PositionV) -> Seq<char> {
    "Position { path: ["@ + joined_numbers(p.path) + "], offset: "@ + decimal(p.offset as nat) + " }"@
}

/// A selection as its derived `Debug` form prints it.
pub open spec fn selection_debug_text(s: SelectionV) -> Seq<char> {
    "Selection { start: "@ + position_debug_text(s.start) + ", end: "@ + position_debug_text(s.end)
        + ", is_collapsed: "@ + (if s.is_collapsed { "true"@ } else { "false"@ }) + " }"@
}

/// The whole outline: the node lines, then the selection if there is one.
pub open spec fn structure_of(d: DocumentV) -> Seq<char> {
    structure_lines(d.nodes) + match d.selection {
        None => Seq::<char>::empty(),
        Some(s) => "\nSelection: "@ + selection_debug_text(s),
    }
}

fn push_position_debug(r: &mut String, p: &Position)
    ensures final(r)@ == old(r)@ + position_debug_text(p@),
{
    r.append("Position { path: [");
    let mut i: usize = 0;
    let ghost r0 = r@;
    proof { assert(p.path@.take(0) =~= Seq::<usize>::empty()); }
    while i < p.path.len()
        invariant
            i <= p.path.len(),
            r@ == r0 + joined_numbers(p.path@.take(i as int)),
        decreases p.path.len() - i,
    {
        proof { assert(p.path@.take(i + 1).drop_last() =~= p.path@.take(i as int)); }
        if i > 0 {
            r.append(", ");
        }
        push_decimal(r, p.path[i]);
        i = i + 1;
    }
    proof { assert(p.path@.take(i as int) =~= p.path@); }
    r.append("], offset: ");
    push_decimal(r, p.offset);
    r.append(" }");
}

/// The `Debug` text of a selection.
fn selection_debug(s: &Selection) -> (r: String)
    ensures r@ == selection_debug_text(s@),
{
    let mut r = String::new();
    r.append("Selection { start: ");
    push_position_debug(&mut r, &s.start);
    r.append(", end: ");
    push_position_debug(&mut r, &s.end);
    r.append(", is_collapsed: ");
    if s.is_collapsed {
        r.append("true");
    } else {
        r.append("false");
    }
    r.append(" }");
    r
}

fn kind_label_exec(n: &Node) -> (r: String)
    ensures r@ == kind_label(n@),
{
    let mut r = String::new();
    match n {
        Node::Heading { level, .. } => {
            r.append("Heading (level ");
            push_decimal(&mut r, *level as usize);
            r.append(")");
        },
        Node::Paragraph { .. } => r.append("Paragraph"),
        Node::List { list_type, .. } => {
            r.append("List (");
            match list_type {
                ListType::Ordered => r.append("Ordered"),
                ListType::Unordered => r.append("Unordered"),
                ListType::Task => r.append("Task"),
            }
            r.append(")");
        },
        Node::CodeBlock { language, .. } => {
            r.append("CodeBlock (");
            r.append(language.as_str());
            r.append(")");
        },
        Node::BlockQuote { .. } => r.append("BlockQuote"),
        Node::ThematicBreak => r.append("ThematicBreak"),
        Node::Table { .. } => r.append("Table"),
        Node::Group { name, .. } => {
            r.append("Group (");
            r.append(name.as_str());
            r.append(")");
        },
        Node::FootnoteReference(_) => r.append("FootnoteReference"),
        Node::FootnoteDefinition(_) => r.append("FootnoteDefinition"),
        Node::DefinitionList { .. } => r.append("DefinitionList"),
        Node::MathBlock { .. } => r.append("MathBlock"),
        Node::TempListItem(_) => r.append("TempListItem (Internal)"),
        Node::TempTableCell(_) => r.append("TempTableCell (Internal)"),
    }
    r
}

impl Document {
    /// A string outline of the document: one numbered line per block node
    /// naming its kind, then the selection, if any.
    pub fn debug_structure(&self) -> (r: String)
        ensures r@ == structure_of(self@),
    {
        let ghost nv = nodes_seq_v(self.nodes@);
        proof { lemma_nodes_seq_v_index(self.nodes@); }
        let mut r = String::new();
        let mut i: usize = 0;
        proof { assert(nv.take(0) =~= Seq::<NodeV>::empty()); }
        while i < self.nodes.len()
            invariant
                nv == nodes_seq_v(self.nodes@),
                nv.len() == self.nodes.len(),
                forall|j: int| 0 <= j < self.nodes.len() ==> #[trigger] nv[j] == self.nodes@[j]@,
                i <= self.nodes.len(),
                r@ == structure_lines(nv.take(i as int)),
            decreases self.nodes.len() - i,
        {
            proof { assert(nv.take(i + 1).drop_last() =~= nv.take(i as int)); }
            push_decimal(&mut r, i);
            r.append(". ");
            let label = kind_label_exec(&self.nodes[i]);
            r.append(label.as_str());
            r.append("\n");
            i = i + 1;
        }
        proof { assert(nv.take(i as int) =~= nv); }
        match &self.selection {
            None => {},
            Some(s) => {
                r.append("\nSelection: ");
                let t = selection_debug(s);
                r.append(t.as_str());
            },
        }
        r
    }
}

} // verus!
