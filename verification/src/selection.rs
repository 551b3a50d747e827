use vstd::prelude::*;

verus! {

/// A position within the document: a path of indices into the document tree
/// and a byte offset within the node at the end of the path.
#[derive(Debug, PartialEq, Eq)]
pub struct Position {
    /// Path to the node containing the position
    pub path: Vec<usize>,
    /// Offset within the node
    pub offset: usize,
}

/// A selection range within the document.
#[derive(Debug, PartialEq, Eq)]
pub struct Selection {
    /// Start position of the selection
    pub start: Position,
    /// End position of the selection
    pub end: Position,
    /// Whether the selection is collapsed to a single point
    pub is_collapsed: bool,
}

pub struct PositionV {
    pub path: Seq<usize>,
    pub offset: usize,
}

pub struct SelectionV {
    pub start: PositionV,
    pub end: PositionV,
    pub is_collapsed: bool,
}

impl View for Position {
    type V = PositionV;

    open spec fn view(&self) -> PositionV {
        PositionV { path: self.path@, offset: self.offset }
    }
}

impl View for Selection {
    type V = SelectionV;

    open spec fn view(&self) -> SelectionV {
        SelectionV { start: self.start@, end: self.end@, is_collapsed: self.is_collapsed }
    }
}

pub open spec fn opt_selection_v(s: Option<Selection>) -> Option<SelectionV> {
    match s {
        Some(x) => Some(x@),
        None => None,
    }
}

/// A position on the node at `index`, at byte `offset`.
pub open spec fn pos_v(index: usize, offset: usize) -> PositionV {
    PositionV { path: seq![index], offset }
}

/// The selection from `start` to `end`, collapsed when they coincide.
pub open spec fn selection_v(start: PositionV, end: PositionV) -> SelectionV {
    SelectionV { start, end, is_collapsed: start == end }
}

fn copy_path(v: &Vec<usize>) -> (r: Vec<usize>)
    ensures r@ == v@,
{
    let mut r: Vec<usize> = Vec::new();
    let mut i: usize = 0;
    while i < v.len()
        invariant
            i <= v.len(),
            r@ == v@.take(i as int),
        decreases v.len() - i,
    {
        r.push(v[i]);
        proof { assert(v@.take(i + 1) =~= v@.take(i as int).push(v@[i as int])); }
        i = i + 1;
    }
    proof { assert(v@.take(i as int) =~= v@); }
    r
}

/// Whether two positions denote the same place.
pub fn positions_equal(a: &Position, b: &Position) -> (r: bool)
    ensures r == (a@ == b@),
{
    if a.offset != b.offset || a.path.len() != b.path.len() {
        return false;
    }
    let mut i: usize = 0;
    while i < a.path.len()
        invariant
            a.path.len() == b.path.len(),
            i <= a.path.len(),
            forall|j: int| 0 <= j < i ==> a.path@[j] == b.path@[j],
        decreases a.path.len() - i,
    {
        if a.path[i] != b.path[i] {
            return false;
        }
        i = i + 1;
    }
    proof { assert(a.path@ =~= b.path@); }
    true
}

impl Clone for Position {
    fn clone(&self) -> (r: Self)
        ensures r@ == self@,
    {
        Position { path: copy_path(&self.path), offset: self.offset }
    }
}

impl Clone for Selection {
    fn clone(&self) -> (r: Self)
        ensures r@ == self@,
    {
        Selection { start: self.start.clone(), end: self.end.clone(), is_collapsed: self.is_collapsed }
    }
}

impl Position {
    /// Creates a new position
    pub fn new(path: Vec<usize>, offset: usize) -> (r: Self)
        ensures r.path == path, r.offset == offset,
    {
        Position { path, offset }
    }

    /// Creates a position at the start of the document
    pub fn start() -> (r: Self)
        ensures r@ == pos_v(0, 0),
    {
        let mut path = Vec::new();
        path.push(0);
        proof { assert(path@ =~= seq![0usize]); }
        Position { path, offset: 0 }
    }

    /// A position on a top-level node.
    pub fn at_node(index: usize, offset: usize) -> (r: Self)
        ensures r@ == pos_v(index, offset),
    {
        let mut path = Vec::new();
        path.push(index);
        proof { assert(path@ =~= seq![index]); }
        Position { path, offset }
    }
}

impl Selection {
    /// Creates a new selection; it is collapsed when start and end are equal
    pub fn new(start: Position, end: Position) -> (r: Self)
        ensures r.start == start, r.end == end, r.is_collapsed == (start@ == end@),
    {
        let is_collapsed = positions_equal(&start, &end);
        Selection { start, end, is_collapsed }
    }

    /// Creates a collapsed selection at the specified position
    pub fn collapsed(position: Position) -> (r: Self)
        ensures r.start@ == position@, r.end == position, r.is_collapsed,
    {
        let start = position.clone();
        Selection { start, end: position, is_collapsed: true }
    }

    /// Creates a selection at the start of the document
    pub fn at_start() -> (r: Self)
        ensures r@ == selection_v(pos_v(0, 0), pos_v(0, 0)),
    {
        Self::collapsed(Position::start())
    }
}

} // verus!
