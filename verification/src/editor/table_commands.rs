//! Commands that create tables and change existing ones.
use vstd::prelude::*;
use crate::document::{Document, lemma_nodes_insert, lemma_nodes_update};
use crate::error::EditError;
use crate::node::{
    Node, NodeV, TableAlignment, TableCell, TableCellV, TableProperties, TablePropertiesV, nodes_seq_v,
    cells_seq_v, rows_seq_v, copy_nodes, copy_cells, copy_rows, copy_props, copy_alignments, copy_node,
    lemma_nodes_seq_v_index, lemma_cells_seq_v_index, lemma_rows_seq_v_index, lemma_cells_seq_v_push,
    lemma_rows_seq_v_push, text_cell_v, default_props_v, copy_cell,
};
use crate::convert::{decimal, push_decimal};
use crate::editor::command::{Command, with_nodes};
use crate::editor::text_commands::with_node_at;
use crate::editor::task_commands::other_error;

verus! {

/// `prefix` followed by the decimal digits of `n`.
pub open spec fn numbered(prefix: Seq<char>, n: nat) -> Seq<char> {
    prefix + decimal(n)
}

/// A string: `prefix` followed by the decimal digits of `n`.
fn numbered_string(prefix: &str, n: usize) -> (r: String)
    ensures r@ == numbered(prefix@, n as nat),
{
    let mut s = prefix.to_owned();
    push_decimal(&mut s, n);
    s
}

/// The text of header cell `i` of a new table: from the first data row
/// when it has that many cells, else `Header i+1`.
pub open spec fn header_text(data: Option<Seq<Seq<Seq<char>>>>, i: int) -> Seq<char> {
    match data {
        Some(d) => if d.len() > 0 && i < d[0].len() { d[0][i] } else { numbered("Header "@, (i + 1) as nat) },
        None => numbered("Header "@, (i + 1) as nat),
    }
}

/// A row of plain text cells.
pub open spec fn text_row(row: Seq<Seq<char>>) -> Seq<TableCellV> {
    Seq::new(row.len(), |i: int| text_cell_v(row[i], false))
}

/// The table a create command builds: a header row when asked for, body
/// rows from the data (after its first row when that is the header) or
/// numbered placeholder cells, the alignments, and default properties.
pub open spec fn created_table(
    columns: nat,
    rows: nat,
    with_header: bool,
    alignments: Seq<TableAlignment>,
    data: Option<Seq<Seq<Seq<char>>>>,
) -> NodeV {
    NodeV::Table {
        header: if with_header {
            Seq::new(columns, |i: int| text_cell_v(header_text(data, i), false))
        } else {
            Seq::empty()
        },
        rows: match data {
            Some(d) => {
                let start = if with_header && d.len() > 0 { 1int } else { 0int };
                Seq::new((d.len() - start) as nat, |k: int| text_row(d[k + start]))
            },
            None => Seq::new(rows, |k: int| Seq::new(columns, |i: int| text_cell_v(numbered("Cell "@, (i + 1) as nat), false))),
        },
        alignments,
        properties: default_props_v(),
    }
}

/// Command to create a table and insert it into the document
pub struct CreateTableCommand {
    position: usize,
    columns: usize,
    rows: usize,
    with_header: bool,
    alignments: Vec<TableAlignment>,
    data: Option<Vec<Vec<String>>>,
    original_nodes: Option<Vec<Node>>,
}

/// The model of table data.
pub open spec fn data_v(data: Option<Vec<Vec<String>>>) -> Option<Seq<Seq<Seq<char>>>> {
    match data {
        Some(d) => Some(d@.map_values(|row: Vec<String>| row@.map_values(|s: String| s@))),
        None => None,
    }
}

/// `n` unaligned columns.
fn default_alignments(n: usize) -> (r: Vec<TableAlignment>)
    ensures r@ == Seq::new(n as nat, |i: int| TableAlignment::Unaligned),
{
    let mut v: Vec<TableAlignment> = Vec::new();
    let mut i: usize = 0;
    while i < n
        invariant
            i <= n,
            v@ == Seq::new(i as nat, |j: int| TableAlignment::Unaligned),
        decreases n - i,
    {
        v.push(TableAlignment::Unaligned);
        proof { assert(v@ =~= Seq::new((i + 1) as nat, |j: int| TableAlignment::Unaligned)); }
        i = i + 1;
    }
    v
}

impl CreateTableCommand {
    pub closed spec fn position(&self) -> usize { self.position }
    pub closed spec fn columns(&self) -> usize { self.columns }
    pub closed spec fn rows(&self) -> usize { self.rows }
    pub closed spec fn with_header(&self) -> bool { self.with_header }
    pub closed spec fn alignments(&self) -> Seq<TableAlignment> { self.alignments@ }
    pub closed spec fn data(&self) -> Option<Seq<Seq<Seq<char>>>> { data_v(self.data) }

    /// The document's nodes as they were before the last execution, if any.
    pub closed spec fn saved(&self) -> Option<Seq<NodeV>> {
        match self.original_nodes {
            Some(v) => Some(nodes_seq_v(v@)),
            None => None,
        }
    }

    /// The table this command builds.
    pub open spec fn table(&self) -> NodeV {
        created_table(self.columns() as nat, self.rows() as nat, self.with_header(), self.alignments(), self.data())
    }

    /// Creates a command for an empty table with unaligned columns
    pub fn new(position: usize, columns: usize, rows: usize, with_header: bool) -> (r: Self)
        ensures
            r.position() == position, r.columns() == columns, r.rows() == rows, r.with_header() == with_header,
            r.alignments() == Seq::new(columns as nat, |i: int| TableAlignment::Unaligned),
            r.data() is None, r.saved() is None,
    {
        CreateTableCommand {
            position,
            columns,
            rows,
            with_header,
            alignments: default_alignments(columns),
            data: None,
            original_nodes: None,
        }
    }

    /// Creates a command for an empty table with the given alignments; they
    /// fall back to unaligned when their number is not the column count
    pub fn with_alignments(position: usize, columns: usize, rows: usize, with_header: bool, alignments: Vec<TableAlignment>) -> (r: Self)
        ensures
            r.position() == position, r.columns() == columns, r.rows() == rows, r.with_header() == with_header,
            r.alignments() == if alignments.len() == columns { alignments@ } else {
                Seq::new(columns as nat, |i: int| TableAlignment::Unaligned)
            },
            r.data() is None, r.saved() is None,
    {
        let alignments = if alignments.len() != columns { default_alignments(columns) } else { alignments };
        CreateTableCommand { position, columns, rows, with_header, alignments, data: None, original_nodes: None }
    }

    /// Creates a command for a table filled with the data; the first row is
    /// the header when `with_header` is set. Empty data gives a one-by-one
    /// empty table.
    pub fn with_data(position: usize, data: Vec<Vec<String>>, with_header: bool, alignments: Option<Vec<TableAlignment>>) -> (r: Self)
        ensures
            r.position() == position,
            r.with_header() == with_header,
            r.saved() is None,
            data.len() == 0 ==> r.columns() == 1 && r.rows() == 1 && r.data() is None
                && r.alignments() == Seq::new(1, |i: int| TableAlignment::Unaligned),
            data.len() > 0 ==> {
                &&& r.columns() == data@[0].len()
                &&& r.rows() == if with_header { data.len() - 1 } else { data.len() as int }
                &&& r.data() == data_v(Some(data))
                &&& r.alignments() == match alignments {
                    Some(a) => if a.len() == data@[0].len() { a@ } else { Seq::new(data@[0].len() as nat, |i: int| TableAlignment::Unaligned) },
                    None => Seq::new(data@[0].len() as nat, |i: int| TableAlignment::Unaligned),
                }
            },
    {
        if data.len() == 0 {
            return Self::new(position, 1, 1, with_header);
        }
        let rows = if with_header { data.len() - 1 } else { data.len() };
        let columns = data[0].len();
        let alignments = match alignments {
            Some(a) => if a.len() == columns { a } else { default_alignments(columns) },
            None => default_alignments(columns),
        };
        CreateTableCommand { position, columns, rows, with_header, alignments, data: Some(data), original_nodes: None }
    }

    /// Builds the header row.
    fn build_header(&self) -> (r: Vec<TableCell>)
        ensures cells_seq_v(r@) == (if self.with_header() {
            Seq::new(self.columns() as nat, |i: int| text_cell_v(header_text(self.data(), i), false))
        } else {
            Seq::empty()
        }),
    {
        let mut h: Vec<TableCell> = Vec::new();
        if !self.with_header {
            proof { assert(cells_seq_v(h@) =~= Seq::<TableCellV>::empty()); }
            return h;
        }
        let ghost dv = self.data();
        let mut i: usize = 0;
        while i < self.columns
            invariant
                i <= self.columns,
                dv == self.data(),
                cells_seq_v(h@) =~= Seq::new(i as nat, |j: int| text_cell_v(header_text(dv, j), false)),
            decreases self.columns - i,
        {
            let cell = match &self.data {
                Some(d) => if d.len() > 0 && i < d[0].len() {
                    TableCell::text(d[0][i].as_str())
                } else {
                    TableCell::text(numbered_string("Header ", i + 1).as_str())
                },
                None => TableCell::text(numbered_string("Header ", i + 1).as_str()),
            };
            proof {
                lemma_cells_seq_v_push(h@, cell);
                assert(cell@ == text_cell_v(header_text(dv, i as int), false));
            }
            h.push(cell);
            i = i + 1;
        }
        h
    }

    /// Builds the body rows.
    fn build_rows(&self) -> (r: Vec<Vec<TableCell>>)
        ensures rows_seq_v(r@) == created_table(self.columns() as nat, self.rows() as nat, self.with_header(),
            self.alignments(), self.data())->Table_rows,
    {
        let mut out: Vec<Vec<TableCell>> = Vec::new();
        match &self.data {
            Some(d) => {
                let start: usize = if self.with_header && d.len() > 0 { 1 } else { 0 };
                let ghost dv = data_v(Some(*d))->0;
                let mut k: usize = start;
                proof { assert(rows_seq_v(out@) =~= Seq::new(0, |x: int| text_row(dv[x + start]))); }
                while k < d.len()
                    invariant
                        start <= k <= d.len(),
                        dv == d@.map_values(|row: Vec<String>| row@.map_values(|s: String| s@)),
                        rows_seq_v(out@) =~= Seq::new((k - start) as nat, |x: int| text_row(dv[x + start])),
                    decreases d.len() - k,
                {
                    let src = &d[k];
                    let mut row: Vec<TableCell> = Vec::new();
                    let mut j: usize = 0;
                    while j < src.len()
                        invariant
                            j <= src.len(),
                            k < d.len(),
                            src == d@[k as int],
                            dv == d@.map_values(|row: Vec<String>| row@.map_values(|s: String| s@)),
                            cells_seq_v(row@) =~= Seq::new(j as nat, |x: int| text_cell_v(dv[k as int][x], false)),
                        decreases src.len() - j,
                    {
                        let cell = TableCell::text(src[j].as_str());
                        proof { lemma_cells_seq_v_push(row@, cell); }
                        row.push(cell);
                        j = j + 1;
                    }
                    proof {
                        lemma_rows_seq_v_push(out@, row);
                        assert(cells_seq_v(row@) =~= text_row(dv[k as int]));
                    }
                    out.push(row);
                    k = k + 1;
                }
            },
            None => {
                let mut k: usize = 0;
                while k < self.rows
                    invariant
                        k <= self.rows,
                        rows_seq_v(out@) =~= Seq::new(k as nat, |x: int| Seq::new(self.columns() as nat,
                            |i: int| text_cell_v(numbered("Cell "@, (i + 1) as nat), false))),
                    decreases self.rows - k,
                {
                    let mut row: Vec<TableCell> = Vec::new();
                    let mut j: usize = 0;
                    while j < self.columns
                        invariant
                            j <= self.columns,
                            cells_seq_v(row@) =~= Seq::new(j as nat, |i: int| text_cell_v(numbered("Cell "@, (i + 1) as nat), false)),
                        decreases self.columns - j,
                    {
                        let cell = TableCell::text(numbered_string("Cell ", j + 1).as_str());
                        proof { lemma_cells_seq_v_push(row@, cell); }
                        row.push(cell);
                        j = j + 1;
                    }
                    proof { lemma_rows_seq_v_push(out@, row); }
                    out.push(row);
                    k = k + 1;
                }
            },
        }
        out
    }
}

impl Command for CreateTableCommand {
    open spec fn can_execute(&self, document: &Document) -> bool {
        true
    }

    open spec fn can_undo(&self, document: &Document) -> bool {
        true
    }

    /// Inserts the table at the position (or at the end), saving the nodes
    /// for undo.
    fn execute(&mut self, document: &mut Document) -> (r: Result<(), EditError>)
        ensures
            final(self).position() == old(self).position(),
            final(self).columns() == old(self).columns(),
            final(self).rows() == old(self).rows(),
            final(self).with_header() == old(self).with_header(),
            final(self).alignments() == old(self).alignments(),
            final(self).data() == old(self).data(),
            final(self).saved() == Some(old(document)@.nodes),
            r is Ok,
            final(document)@ == with_nodes(old(document)@, old(document)@.nodes.insert(
                if old(self).position() < old(document).nodes.len() { old(self).position() as int } else { old(document).nodes.len() as int },
                old(self).table())),
    {
        proof { lemma_nodes_seq_v_index(document.nodes@); }
        self.original_nodes = Some(copy_nodes(&document.nodes));
        let position = if self.position < document.nodes.len() { self.position } else { document.nodes.len() };
        let header = self.build_header();
        let rows = self.build_rows();
        let alignments = copy_alignments(&self.alignments);
        let table = Node::Table { header, rows, alignments, properties: TableProperties::default() };
        proof { lemma_nodes_insert(document.nodes@, position as int, table); }
        document.nodes.insert(position, table);
        Ok(())
    }

    /// Puts the saved nodes back.
    fn undo(&mut self, document: &mut Document) -> (r: Result<(), EditError>)
        ensures
            final(self).position() == old(self).position(),
            final(self).columns() == old(self).columns(),
            final(self).rows() == old(self).rows(),
            final(self).with_header() == old(self).with_header(),
            final(self).alignments() == old(self).alignments(),
            final(self).data() == old(self).data(),
            final(self).saved() is None,
            match old(self).saved() {
                Some(n) => r is Ok && final(document)@ == with_nodes(old(document)@, n),
                None => other_error(r, "No original state to restore"@) && final(document)@ == old(document)@,
            },
    {
        match self.original_nodes.take() {
            Some(n) => {
                document.nodes = n;
                Ok(())
            },
            None => Err(EditError::Other("No original state to restore".to_owned())),
        }
    }
}

// ---------------------------------------------------------------------------
// Changing an existing table
// ---------------------------------------------------------------------------

/// A change to an existing table
pub enum TableOperation {
    /// Add a row at the index (clamped to the number of rows)
    AddRow(usize),
    /// Remove the row at the index
    RemoveRow(usize),
    /// Add a column at the index (clamped to the number of columns)
    AddColumn(usize),
    /// Remove the column at the index
    RemoveColumn(usize),
    /// Replace a cell by a plain text cell
    SetCell { row: usize, column: usize, content: String, is_header: bool },
    /// Set a column's alignment
    SetAlignment { column: usize, alignment: TableAlignment },
    /// Set a cell's background colour
    SetCellBackground { row: usize, column: usize, color: String, is_header: bool },
    /// Set a cell's style
    SetCellStyle { row: usize, column: usize, style: String, is_header: bool },
    /// Set a cell's spans
    SetCellSpan { row: usize, column: usize, colspan: u32, rowspan: u32, is_header: bool },
    /// Replace the table's properties
    SetTableProperties(TableProperties),
}

/// The parts of a table model.
pub struct TableV {
    pub header: Seq<TableCellV>,
    pub rows: Seq<Seq<TableCellV>>,
    pub alignments: Seq<TableAlignment>,
    pub properties: TablePropertiesV,
}

/// The parts of a table node.
pub open spec fn table_of(n: NodeV) -> TableV {
    TableV {
        header: n->Table_header,
        rows: n->Table_rows,
        alignments: n->Table_alignments,
        properties: n->Table_properties,
    }
}

/// The table node with these parts.
pub open spec fn table_node(t: TableV) -> NodeV {
    NodeV::Table { header: t.header, rows: t.rows, alignments: t.alignments, properties: t.properties }
}

/// The smaller of `a` and `b`.
pub open spec fn min_int(a: int, b: int) -> int {
    if a < b { a } else { b }
}

/// `Row r, Col c` as a plain text cell.
pub open spec fn row_col_cell(r: nat, c: nat) -> TableCellV {
    text_cell_v(numbered("Row "@, r) + numbered(", Col "@, c), false)
}

/// Which cell a cell operation addresses exists: a header cell needs a
/// header that long, a body cell a row that long.
pub open spec fn cell_exists(t: TableV, row: usize, column: usize, is_header: bool) -> bool {
    if is_header {
        t.header.len() > 0 && column < t.header.len()
    } else {
        row < t.rows.len() && column < t.rows[row as int].len()
    }
}

/// The table with the addressed cell replaced by `f` of it.
pub open spec fn with_cell(t: TableV, row: usize, column: usize, is_header: bool, c: TableCellV) -> TableV {
    if is_header {
        TableV { header: t.header.update(column as int, c), ..t }
    } else {
        TableV { rows: t.rows.update(row as int, t.rows[row as int].update(column as int, c)), ..t }
    }
}

/// The addressed cell.
pub open spec fn cell_at(t: TableV, row: usize, column: usize, is_header: bool) -> TableCellV {
    if is_header { t.header[column as int] } else { t.rows[row as int][column as int] }
}

/// What an operation makes of a table, or the error it reports.
pub open spec fn table_op_result(t: TableV, op: TableOperation) -> Result<TableV, EditError> {
    match op {
        TableOperation::AddRow(index) => {
            let ri = min_int(index as int, t.rows.len() as int);
            let row = Seq::new(t.alignments.len(), |i: int| row_col_cell((t.rows.len() + 1) as nat, (i + 1) as nat));
            Ok(TableV { rows: t.rows.insert(ri, row), ..t })
        },
        TableOperation::RemoveRow(index) => if index < t.rows.len() {
            Ok(TableV { rows: t.rows.remove(index as int), ..t })
        } else {
            Err(EditError::IndexOutOfBounds)
        },
        TableOperation::AddColumn(index) => {
            let ci = min_int(index as int, t.alignments.len() as int);
            let n = (t.alignments.len() + 1) as nat;
            Ok(TableV {
                header: if t.header.len() > 0 {
                    t.header.insert(ci, text_cell_v(numbered("Column "@, n), false))
                } else {
                    t.header
                },
                rows: Seq::new(t.rows.len(), |k: int| t.rows[k].insert(ci, row_col_cell((k + 1) as nat, n))),
                alignments: t.alignments.insert(ci, TableAlignment::Unaligned),
                properties: t.properties,
            })
        },
        TableOperation::RemoveColumn(index) => if index < t.alignments.len() {
            Ok(TableV {
                header: if t.header.len() > 0 { t.header.remove(index as int) } else { t.header },
                rows: Seq::new(t.rows.len(), |k: int| if index < t.rows[k].len() { t.rows[k].remove(index as int) } else { t.rows[k] }),
                alignments: t.alignments.remove(index as int),
                properties: t.properties,
            })
        } else {
            Err(EditError::IndexOutOfBounds)
        },
        TableOperation::SetCell { row, column, content, is_header } => if cell_exists(t, row, column, is_header) {
            Ok(with_cell(t, row, column, is_header, text_cell_v(content@, false)))
        } else {
            Err(EditError::IndexOutOfBounds)
        },
        TableOperation::SetAlignment { column, alignment } => if column < t.alignments.len() {
            Ok(TableV { alignments: t.alignments.update(column as int, alignment), ..t })
        } else {
            Err(EditError::IndexOutOfBounds)
        },
        TableOperation::SetCellBackground { row, column, color, is_header } => if cell_exists(t, row, column, is_header) {
            Ok(with_cell(t, row, column, is_header, TableCellV { background_color: Some(color@), ..cell_at(t, row, column, is_header) }))
        } else {
            Err(EditError::IndexOutOfBounds)
        },
        TableOperation::SetCellStyle { row, column, style, is_header } => if cell_exists(t, row, column, is_header) {
            Ok(with_cell(t, row, column, is_header, TableCellV { style: Some(style@), ..cell_at(t, row, column, is_header) }))
        } else {
            Err(EditError::IndexOutOfBounds)
        },
        TableOperation::SetCellSpan { row, column, colspan, rowspan, is_header } => if cell_exists(t, row, column, is_header) {
            Ok(with_cell(t, row, column, is_header, TableCellV { colspan, rowspan, ..cell_at(t, row, column, is_header) }))
        } else {
            Err(EditError::IndexOutOfBounds)
        },
        TableOperation::SetTableProperties(p) => Ok(TableV { properties: p@, ..t }),
    }
}

/// The operation fits the table's shape: a new column goes where the
/// header and every row reach, a removed column exists in a header, and
/// the numbers written into new cells fit in a `usize`.
pub open spec fn table_op_fits(t: TableV, op: TableOperation) -> bool {
    match op {
        TableOperation::AddRow(_) => t.rows.len() < usize::MAX,
        TableOperation::AddColumn(index) => {
            let ci = min_int(index as int, t.alignments.len() as int);
            &&& t.alignments.len() < usize::MAX
            &&& t.rows.len() < usize::MAX
            &&& t.header.len() > 0 ==> ci <= t.header.len()
            &&& forall|k: int| 0 <= k < t.rows.len() ==> ci <= #[trigger] t.rows[k].len()
        },
        TableOperation::RemoveColumn(index) => index < t.alignments.len() && t.header.len() > 0 ==> index < t.header.len(),
        _ => true,
    }
}

proof fn lemma_cells_insert(v: Seq<TableCell>, j: int, x: TableCell)
    requires 0 <= j <= v.len(),
    ensures cells_seq_v(v.insert(j, x)) == cells_seq_v(v).insert(j, x@),
{
    lemma_cells_seq_v_index(v);
    lemma_cells_seq_v_index(v.insert(j, x));
    assert(cells_seq_v(v.insert(j, x)) =~= cells_seq_v(v).insert(j, x@));
}

proof fn lemma_cells_remove(v: Seq<TableCell>, j: int)
    requires 0 <= j < v.len(),
    ensures cells_seq_v(v.remove(j)) == cells_seq_v(v).remove(j),
{
    lemma_cells_seq_v_index(v);
    lemma_cells_seq_v_index(v.remove(j));
    assert(cells_seq_v(v.remove(j)) =~= cells_seq_v(v).remove(j));
}

proof fn lemma_cells_update(v: Seq<TableCell>, j: int, x: TableCell)
    requires 0 <= j < v.len(),
    ensures cells_seq_v(v.update(j, x)) == cells_seq_v(v).update(j, x@),
{
    lemma_cells_seq_v_index(v);
    lemma_cells_seq_v_index(v.update(j, x));
    assert(cells_seq_v(v.update(j, x)) =~= cells_seq_v(v).update(j, x@));
}

proof fn lemma_rows_insert(v: Seq<Vec<TableCell>>, j: int, x: Vec<TableCell>)
    requires 0 <= j <= v.len(),
    ensures rows_seq_v(v.insert(j, x)) == rows_seq_v(v).insert(j, cells_seq_v(x@)),
{
    lemma_rows_seq_v_index(v);
    lemma_rows_seq_v_index(v.insert(j, x));
    assert(rows_seq_v(v.insert(j, x)) =~= rows_seq_v(v).insert(j, cells_seq_v(x@)));
}

proof fn lemma_rows_remove(v: Seq<Vec<TableCell>>, j: int)
    requires 0 <= j < v.len(),
    ensures rows_seq_v(v.remove(j)) == rows_seq_v(v).remove(j),
{
    lemma_rows_seq_v_index(v);
    lemma_rows_seq_v_index(v.remove(j));
    assert(rows_seq_v(v.remove(j)) =~= rows_seq_v(v).remove(j));
}

proof fn lemma_rows_update(v: Seq<Vec<TableCell>>, j: int, x: Vec<TableCell>)
    requires 0 <= j < v.len(),
    ensures rows_seq_v(v.update(j, x)) == rows_seq_v(v).update(j, cells_seq_v(x@)),
{
    lemma_rows_seq_v_index(v);
    lemma_rows_seq_v_index(v.update(j, x));
    assert(rows_seq_v(v.update(j, x)) =~= rows_seq_v(v).update(j, cells_seq_v(x@)));
}

/// `Row r, Col c` as a plain text cell.
fn row_col_text_cell(r: usize, c: usize) -> (x: TableCell)
    ensures x@ == row_col_cell(r as nat, c as nat),
{
    let mut s = numbered_string("Row ", r);
    let t = numbered_string(", Col ", c);
    s.append(t.as_str());
    TableCell::text(s.as_str())
}

/// The parts of a table, worked on as values.
struct TableParts {
    header: Vec<TableCell>,
    rows: Vec<Vec<TableCell>>,
    alignments: Vec<TableAlignment>,
    properties: TableProperties,
}

impl TableParts {
    spec fn view_parts(&self) -> TableV {
        TableV {
            header: cells_seq_v(self.header@),
            rows: rows_seq_v(self.rows@),
            alignments: self.alignments@,
            properties: self.properties@,
        }
    }
}

/// Applies an operation to the cell the operation addresses.
fn change_cell(t: &mut TableParts, row: usize, column: usize, is_header: bool, c: TableCell)
    requires cell_exists(old(t).view_parts(), row, column, is_header),
    ensures final(t).view_parts() == with_cell(old(t).view_parts(), row, column, is_header, c@),
{
    proof {
        lemma_cells_seq_v_index(t.header@);
        lemma_rows_seq_v_index(t.rows@);
    }
    if is_header {
        proof { lemma_cells_update(t.header@, column as int, c); }
        t.header.set(column, c);
    } else {
        proof { lemma_cells_seq_v_index(t.rows@[row as int]@); }
        let mut r = copy_cells(&t.rows[row]);
        proof { lemma_cells_update(r@, column as int, c); }
        r.set(column, c);
        proof { lemma_rows_update(t.rows@, row as int, r); }
        t.rows.set(row, r);
    }
}

/// The addressed cell, copied.
fn get_cell(t: &TableParts, row: usize, column: usize, is_header: bool) -> (c: TableCell)
    requires cell_exists(t.view_parts(), row, column, is_header),
    ensures c@ == cell_at(t.view_parts(), row, column, is_header),
{
    proof {
        lemma_cells_seq_v_index(t.header@);
        lemma_rows_seq_v_index(t.rows@);
    }
    if is_header {
        copy_cell_of(&t.header, column)
    } else {
        proof { lemma_cells_seq_v_index(t.rows@[row as int]@); }
        copy_cell_of(&t.rows[row], column)
    }
}

fn copy_cell_of(v: &Vec<TableCell>, i: usize) -> (c: TableCell)
    requires i < v.len(),
    ensures c@ == cells_seq_v(v@)[i as int],
{
    proof { lemma_cells_seq_v_index(v@); }
    crate::node::copy_cell(&v[i])
}

/// Whether the addressed cell exists, tested at run time.
fn cell_exists_exec(t: &TableParts, row: usize, column: usize, is_header: bool) -> (b: bool)
    ensures b == cell_exists(t.view_parts(), row, column, is_header),
{
    proof {
        lemma_cells_seq_v_index(t.header@);
        lemma_rows_seq_v_index(t.rows@);
    }
    if is_header {
        t.header.len() > 0 && column < t.header.len()
    } else {
        if row < t.rows.len() {
            proof { lemma_cells_seq_v_index(t.rows@[row as int]@); }
            column < t.rows[row].len()
        } else {
            false
        }
    }
}

/// Applies the operation to the parts, or reports why it cannot.
fn apply_table_op(t: &mut TableParts, op: &TableOperation) -> (r: Result<(), EditError>)
    requires table_op_fits(old(t).view_parts(), *op),
    ensures
        match table_op_result(old(t).view_parts(), *op) {
            Ok(t2) => r is Ok && final(t).view_parts() == t2,
            Err(e) => r == Err::<(), EditError>(e) && final(t).view_parts() == old(t).view_parts(),
        },
{
    proof {
        lemma_cells_seq_v_index(t.header@);
        lemma_rows_seq_v_index(t.rows@);
    }
    let ghost t0 = t.view_parts();
    match op {
        TableOperation::AddRow(index) => {
            let ri = if *index < t.rows.len() { *index } else { t.rows.len() };
            let n = t.alignments.len();
            let mut row: Vec<TableCell> = Vec::new();
            let mut i: usize = 0;
            while i < n
                invariant
                    i <= n,
                    n == t0.alignments.len(),
                    t0.rows.len() == t.rows.len(),
                    t0.rows.len() < usize::MAX,
                    cells_seq_v(row@) =~= Seq::new(i as nat, |j: int| row_col_cell((t0.rows.len() + 1) as nat, (j + 1) as nat)),
                decreases n - i,
            {
                let c = row_col_text_cell(t.rows.len() + 1, i + 1);
                proof { lemma_cells_seq_v_push(row@, c); }
                row.push(c);
                i = i + 1;
            }
            proof { lemma_rows_insert(t.rows@, ri as int, row); }
            t.rows.insert(ri, row);
            Ok(())
        },
        TableOperation::RemoveRow(index) => {
            if *index < t.rows.len() {
                proof { lemma_rows_remove(t.rows@, *index as int); }
                t.rows.remove(*index);
                Ok(())
            } else {
                Err(EditError::IndexOutOfBounds)
            }
        },
        TableOperation::AddColumn(index) => {
            let n = t.alignments.len();
            let ci = if *index < n { *index } else { n };
            if t.header.len() > 0 {
                let c = TableCell::text(numbered_string("Column ", n + 1).as_str());
                proof { lemma_cells_insert(t.header@, ci as int, c); }
                t.header.insert(ci, c);
            }
            let mut rows: Vec<Vec<TableCell>> = Vec::new();
            let mut k: usize = 0;
            while k < t.rows.len()
                invariant
                    k <= t.rows.len(),
                    rows_seq_v(t.rows@) == t0.rows,
                    t0.rows.len() == t.rows.len(),
                    n == t0.alignments.len(),
                    n < usize::MAX,
                    ci == min_int(*index as int, n as int),
                    forall|x: int| 0 <= x < t0.rows.len() ==> ci <= #[trigger] t0.rows[x].len(),
                    rows_seq_v(rows@) =~= Seq::new(k as nat, |x: int| t0.rows[x].insert(ci as int, row_col_cell((x + 1) as nat, (n + 1) as nat))),
                decreases t.rows.len() - k,
            {
                proof {
                    lemma_rows_seq_v_index(t.rows@);
                    lemma_cells_seq_v_index(t.rows@[k as int]@);
                }
                let mut row = copy_cells(&t.rows[k]);
                let c = row_col_text_cell(k + 1, n + 1);
                proof {
                    assert(ci <= t0.rows[k as int].len());
                    lemma_cells_insert(row@, ci as int, c);
                }
                row.insert(ci, c);
                proof { lemma_rows_seq_v_push(rows@, row); }
                rows.push(row);
                k = k + 1;
            }
            t.rows = rows;
            t.alignments.insert(ci, TableAlignment::Unaligned);
            proof {
                assert(t.view_parts() =~= table_op_result(t0, *op)->Ok_0);
            }
            Ok(())
        },
        TableOperation::RemoveColumn(index) => {
            if *index < t.alignments.len() {
                if t.header.len() > 0 {
                    proof { lemma_cells_remove(t.header@, *index as int); }
                    t.header.remove(*index);
                }
                let mut rows: Vec<Vec<TableCell>> = Vec::new();
                let mut k: usize = 0;
                while k < t.rows.len()
                    invariant
                        k <= t.rows.len(),
                        rows_seq_v(t.rows@) == t0.rows,
                        t0.rows.len() == t.rows.len(),
                        rows_seq_v(rows@) =~= Seq::new(k as nat, |x: int|
                            if *index < t0.rows[x].len() { t0.rows[x].remove(*index as int) } else { t0.rows[x] }),
                    decreases t.rows.len() - k,
                {
                    proof {
                        lemma_rows_seq_v_index(t.rows@);
                        lemma_cells_seq_v_index(t.rows@[k as int]@);
                    }
                    let mut row = copy_cells(&t.rows[k]);
                    if *index < row.len() {
                        proof { lemma_cells_remove(row@, *index as int); }
                        row.remove(*index);
                    }
                    proof { lemma_rows_seq_v_push(rows@, row); }
                    rows.push(row);
                    k = k + 1;
                }
                t.rows = rows;
                t.alignments.remove(*index);
                proof {
                    assert(t.view_parts() =~= table_op_result(t0, *op)->Ok_0);
                }
                Ok(())
            } else {
                Err(EditError::IndexOutOfBounds)
            }
        },
        TableOperation::SetCell { row, column, content, is_header } => {
            if cell_exists_exec(t, *row, *column, *is_header) {
                change_cell(t, *row, *column, *is_header, TableCell::text(content.as_str()));
                Ok(())
            } else {
                Err(EditError::IndexOutOfBounds)
            }
        },
        TableOperation::SetAlignment { column, alignment } => {
            if *column < t.alignments.len() {
                t.alignments.set(*column, *alignment);
                Ok(())
            } else {
                Err(EditError::IndexOutOfBounds)
            }
        },
        TableOperation::SetCellBackground { row, column, color, is_header } => {
            if cell_exists_exec(t, *row, *column, *is_header) {
                let mut c = get_cell(t, *row, *column, *is_header);
                c.background_color = Some(color.clone());
                change_cell(t, *row, *column, *is_header, c);
                Ok(())
            } else {
                Err(EditError::IndexOutOfBounds)
            }
        },
        TableOperation::SetCellStyle { row, column, style, is_header } => {
            if cell_exists_exec(t, *row, *column, *is_header) {
                let mut c = get_cell(t, *row, *column, *is_header);
                c.style = Some(style.clone());
                change_cell(t, *row, *column, *is_header, c);
                Ok(())
            } else {
                Err(EditError::IndexOutOfBounds)
            }
        },
        TableOperation::SetCellSpan { row, column, colspan, rowspan, is_header } => {
            if cell_exists_exec(t, *row, *column, *is_header) {
                let mut c = get_cell(t, *row, *column, *is_header);
                c.colspan = *colspan;
                c.rowspan = *rowspan;
                change_cell(t, *row, *column, *is_header, c);
                Ok(())
            } else {
                Err(EditError::IndexOutOfBounds)
            }
        },
        TableOperation::SetTableProperties(p) => {
            t.properties = copy_props(p);
            Ok(())
        },
    }
}

/// Command to change an existing table
pub struct TableOperationsCommand {
    node_index: usize,
    operation: TableOperation,
    original_node: Option<Node>,
}

impl TableOperationsCommand {
    pub closed spec fn node(&self) -> usize { self.node_index }
    pub closed spec fn operation(&self) -> TableOperation { self.operation }

    /// The table as it was before the last execution, while it is kept.
    pub closed spec fn saved(&self) -> Option<NodeV> {
        match self.original_node {
            Some(n) => Some(n@),
            None => None,
        }
    }

    /// Creates a command that applies `operation` to the table at `node_index`
    pub fn new(node_index: usize, operation: TableOperation) -> (r: Self)
        ensures r.node() == node_index, r.operation() == operation, r.saved() is None,
    {
        TableOperationsCommand { node_index, operation, original_node: None }
    }
}

impl Command for TableOperationsCommand {
    /// The operation fits the table's shape.
    open spec fn can_execute(&self, document: &Document) -> bool {
        self.node() < document.nodes.len() && document@.nodes[self.node() as int] is Table
            ==> table_op_fits(table_of(document@.nodes[self.node() as int]), self.operation())
    }

    open spec fn can_undo(&self, document: &Document) -> bool {
        true
    }

    /// Applies the operation to the table, keeping the table as it was for
    /// undo (also when the operation then fails).
    fn execute(&mut self, document: &mut Document) -> (r: Result<(), EditError>)
        ensures
            final(self).node() == old(self).node(),
            final(self).operation() == old(self).operation(),
            old(self).node() >= old(document).nodes.len() ==> (r matches Err(EditError::IndexOutOfBounds))
                && final(document)@ == old(document)@ && final(self).saved() == old(self).saved(),
            old(self).node() < old(document).nodes.len() ==> {
                let n = old(document)@.nodes[old(self).node() as int];
                if n is Table {
                    &&& final(self).saved() == Some(n)
                    &&& match table_op_result(table_of(n), old(self).operation()) {
                        Ok(t) => r is Ok && final(document)@ == with_node_at(old(document)@, old(self).node() as int, table_node(t)),
                        Err(e) => r == Err::<(), EditError>(e) && final(document)@ == old(document)@,
                    }
                } else {
                    other_error(r, "Node is not a table"@) && final(document)@ == old(document)@
                        && final(self).saved() == old(self).saved()
                }
            },
    {
        proof { lemma_nodes_seq_v_index(document.nodes@); }
        if self.node_index >= document.nodes.len() {
            return Err(EditError::IndexOutOfBounds);
        }
        let i = self.node_index;
        let mut parts = match &document.nodes[i] {
            Node::Table { header, rows, alignments, properties } => TableParts {
                header: copy_cells(header),
                rows: copy_rows(rows),
                alignments: copy_alignments(alignments),
                properties: copy_props(properties),
            },
            _ => { return Err(EditError::Other("Node is not a table".to_owned())); },
        };
        self.original_node = Some(copy_node(&document.nodes[i]));
        let r = apply_table_op(&mut parts, &self.operation);
        if r.is_ok() {
            let node = Node::Table { header: parts.header, rows: parts.rows, alignments: parts.alignments, properties: parts.properties };
            proof { lemma_nodes_update(document.nodes@, i as int, node); }
            document.nodes.set(i, node);
        }
        r
    }

    /// Puts the saved table back; the saved table is used up either way.
    fn undo(&mut self, document: &mut Document) -> (r: Result<(), EditError>)
        ensures
            final(self).node() == old(self).node(),
            final(self).operation() == old(self).operation(),
            final(self).saved() is None,
            match old(self).saved() {
                Some(n) => if old(self).node() < old(document).nodes.len() {
                    r is Ok && final(document)@ == with_node_at(old(document)@, old(self).node() as int, n)
                } else {
                    (r matches Err(EditError::IndexOutOfBounds)) && final(document)@ == old(document)@
                },
                None => other_error(r, "No original state to restore"@) && final(document)@ == old(document)@,
            },
    {
        match self.original_node.take() {
            Some(n) => {
                if self.node_index < document.nodes.len() {
                    proof { lemma_nodes_update(document.nodes@, self.node_index as int, n); }
                    document.nodes.set(self.node_index, n);
                    Ok(())
                } else {
                    Err(EditError::IndexOutOfBounds)
                }
            },
            None => Err(EditError::Other("No original state to restore".to_owned())),
        }
    }
}

/// Where a column of the table lands after a new column goes in at `ci`:
/// columns before it stay, the others move one to the right.
pub open spec fn shifted_column(j: int, ci: int) -> int {
    if j < ci { j } else { j + 1 }
}

/// Adding a column at `index` puts the new column at the same place
/// `ci = min(index, columns)` in the header (when there is one), in every
/// row and among the alignments: each old cell keeps its column, moved one
/// to the right from `ci` on, so it stays under the same header cell; the
/// new cells are `Column n` in the header, `Row k, Col n` in row `k` and
/// an unset alignment, where `n` is the new number of columns.
pub proof fn law_add_column_places(t: TableV, index: usize)
    requires table_op_fits(t, TableOperation::AddColumn(index)),
    ensures ({
        let ci = min_int(index as int, t.alignments.len() as int);
        let n = (t.alignments.len() + 1) as nat;
        &&& table_op_result(t, TableOperation::AddColumn(index)) is Ok
        &&& {
            let t2 = table_op_result(t, TableOperation::AddColumn(index))->Ok_0;
            &&& t2.properties == t.properties
            &&& t2.rows.len() == t.rows.len()
            &&& forall|k: int| 0 <= k < t.rows.len() ==> {
                &&& #[trigger] t2.rows[k].len() == t.rows[k].len() + 1
                &&& t2.rows[k][ci] == row_col_cell((k + 1) as nat, n)
                &&& forall|j: int| 0 <= j < t.rows[k].len() ==> t2.rows[k][shifted_column(j, ci)] == #[trigger] t.rows[k][j]
            }
            &&& t2.alignments.len() == t.alignments.len() + 1
            &&& t2.alignments[ci] == TableAlignment::Unaligned
            &&& forall|j: int| 0 <= j < t.alignments.len() ==> t2.alignments[shifted_column(j, ci)] == #[trigger] t.alignments[j]
            &&& t.header.len() == 0 ==> t2.header.len() == 0
            &&& t.header.len() > 0 ==> {
                &&& t2.header.len() == t.header.len() + 1
                &&& t2.header[ci] == text_cell_v(numbered("Column "@, n), false)
                &&& forall|j: int| 0 <= j < t.header.len() ==> t2.header[shifted_column(j, ci)] == #[trigger] t.header[j]
            }
        }
    }),
{
    let ci = min_int(index as int, t.alignments.len() as int);
    let t2 = table_op_result(t, TableOperation::AddColumn(index))->Ok_0;
    assert forall|k: int| 0 <= k < t.rows.len() implies {
        &&& #[trigger] t2.rows[k].len() == t.rows[k].len() + 1
        &&& t2.rows[k][ci] == row_col_cell((k + 1) as nat, (t.alignments.len() + 1) as nat)
        &&& forall|j: int| 0 <= j < t.rows[k].len() ==> t2.rows[k][shifted_column(j, ci)] == #[trigger] t.rows[k][j]
    } by {
        assert(ci <= t.rows[k].len());
    }
}

/// Where a row or column lands after one at `i` is removed: those before
/// it stay, the others move one back.
pub open spec fn after_removed(j: int, i: int) -> int {
    if j < i { j } else { j + 1 }
}

/// Adding a row at `index` puts a new row of one cell per column,
/// `Row r, Col c` with `r` the new number of rows, at `min(index, rows)`;
/// the other rows keep their order, and the header, the alignments and the
/// properties stay.
pub proof fn law_add_row_places(t: TableV, index: usize)
    ensures ({
        let ri = min_int(index as int, t.rows.len() as int);
        &&& table_op_result(t, TableOperation::AddRow(index)) is Ok
        &&& {
            let t2 = table_op_result(t, TableOperation::AddRow(index))->Ok_0;
            &&& t2.header == t.header && t2.alignments == t.alignments && t2.properties == t.properties
            &&& t2.rows.len() == t.rows.len() + 1
            &&& t2.rows[ri].len() == t.alignments.len()
            &&& forall|c: int| 0 <= c < t.alignments.len()
                ==> #[trigger] t2.rows[ri][c] == row_col_cell((t.rows.len() + 1) as nat, (c + 1) as nat)
            &&& forall|k: int| 0 <= k < t.rows.len() ==> t2.rows[shifted_column(k, ri)] == #[trigger] t.rows[k]
        }
    }),
{
}

/// Removing row `index` of a table that has it takes out exactly that row;
/// the others keep their order. Without it the operation fails.
pub proof fn law_remove_row(t: TableV, index: usize)
    ensures
        index < t.rows.len() ==> {
            let t2 = table_op_result(t, TableOperation::RemoveRow(index))->Ok_0;
            &&& table_op_result(t, TableOperation::RemoveRow(index)) is Ok
            &&& t2.header == t.header && t2.alignments == t.alignments && t2.properties == t.properties
            &&& t2.rows.len() == t.rows.len() - 1
            &&& forall|k: int| 0 <= k < t2.rows.len() ==> #[trigger] t2.rows[k] == t.rows[after_removed(k, index as int)]
        },
        index >= t.rows.len() ==> table_op_result(t, TableOperation::RemoveRow(index)) is Err,
{
}

/// Removing column `index` takes that column out of the alignments, the
/// header (when there is one) and every row that reaches it; the other
/// columns keep their order.
pub proof fn law_remove_column(t: TableV, index: usize)
    requires table_op_fits(t, TableOperation::RemoveColumn(index)),
    ensures
        index < t.alignments.len() ==> {
            let t2 = table_op_result(t, TableOperation::RemoveColumn(index))->Ok_0;
            let i = index as int;
            &&& table_op_result(t, TableOperation::RemoveColumn(index)) is Ok
            &&& t2.properties == t.properties
            &&& t2.alignments.len() == t.alignments.len() - 1
            &&& forall|j: int| 0 <= j < t2.alignments.len() ==> #[trigger] t2.alignments[j] == t.alignments[after_removed(j, i)]
            &&& t.header.len() > 0 ==> t2.header.len() == t.header.len() - 1
                && forall|j: int| 0 <= j < t2.header.len() ==> #[trigger] t2.header[j] == t.header[after_removed(j, i)]
            &&& t2.rows.len() == t.rows.len()
            &&& forall|k: int| 0 <= k < t.rows.len() && i < t.rows[k].len() ==> {
                &&& #[trigger] t2.rows[k].len() == t.rows[k].len() - 1
                &&& forall|j: int| 0 <= j < t2.rows[k].len() ==> #[trigger] t2.rows[k][j] == t.rows[k][after_removed(j, i)]
            }
            &&& forall|k: int| 0 <= k < t.rows.len() && i >= t.rows[k].len() ==> #[trigger] t2.rows[k] == t.rows[k]
        },
        index >= t.alignments.len() ==> table_op_result(t, TableOperation::RemoveColumn(index)) is Err,
{
}

/// Setting a cell of a body row that exists makes that cell a plain text
/// cell of the content and leaves every other cell, the header, the
/// alignments and the properties as they were.
pub proof fn law_set_body_cell(t: TableV, row: usize, column: usize, content: String)
    requires row < t.rows.len(), column < t.rows[row as int].len(),
    ensures ({
        let op = TableOperation::SetCell { row, column, content, is_header: false };
        let t2 = table_op_result(t, op)->Ok_0;
        &&& table_op_result(t, op) is Ok
        &&& t2.header == t.header && t2.alignments == t.alignments && t2.properties == t.properties
        &&& t2.rows.len() == t.rows.len()
        &&& t2.rows[row as int][column as int] == text_cell_v(content@, false)
        &&& forall|k: int, c: int| 0 <= k < t.rows.len() && 0 <= c < t.rows[k].len() && (k != row || c != column)
            ==> #[trigger] t2.rows[k][c] == t.rows[k][c]
        &&& forall|k: int| 0 <= k < t.rows.len() ==> #[trigger] t2.rows[k].len() == t.rows[k].len()
    }),
{
}

} // verus!
