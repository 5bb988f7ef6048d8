use crate::btree::{leaf_cells_view, traverse, walk_spec, MAX_DEPTH};
use crate::cell::{BTreeLeafTableCell, LeafCellModel};
use crate::error::{lemma_prepend_ok_assoc, prepend_ok, DecodeError};
use crate::header::{header_of, header_ok, read_header, DatabaseHeader};
use crate::overflow::{full_payload, read_payload};
use crate::record::{read, row_of, values_view, Record, ValueModel};
use crate::schema::{load_schema, schema_of, schema_view, SchemaRecord};
use vstd::prelude::*;

verus! {

/// One table row: its rowid and its decoded record.
#[derive(Clone, Debug)]
pub struct RecordCell {
    pub rowid: i64,
    pub record: Record,
}

/// The rowid and the column values of the row that leaf cell `c` holds.
pub open spec fn row_cell_of(file: Seq<u8>, header: DatabaseHeader, c: LeafCellModel) -> Result<
    (i64, Seq<ValueModel>),
    DecodeError,
> {
    match full_payload(file, header, c) {
        Err(e) => Err(e),
        Ok(p) => match row_of(p) {
            Err(e) => Err(e),
            Ok(row) => Ok((c.rowid, row)),
        },
    }
}

/// Decodes the row that a leaf cell holds, overflow included.
pub fn parse_cell(file: &[u8], header: &DatabaseHeader, cell: &BTreeLeafTableCell) -> (r: Result<
    RecordCell,
    DecodeError,
>)
    requires
        header.wf(),
    ensures
        match row_cell_of(file@, *header, cell@) {
            Ok((rowid, row)) => r matches Ok(x) && x.rowid == rowid && values_view(
                x.record.columns.cells@,
            ) == row,
            Err(e) => r matches Err(e2) && e2 == e,
        },
{
    let payload = match read_payload(file, header, cell) {
        Ok(p) => p,
        Err(e) => return Err(e),
    };
    match read(payload.as_slice()) {
        Ok(record) => Ok(RecordCell { rowid: cell.rowid, record }),
        Err(e) => Err(e),
    }
}

/// The rows that the leaf cells `cells[i..]` hold.
pub open spec fn rows_from(
    file: Seq<u8>,
    header: DatabaseHeader,
    cells: Seq<LeafCellModel>,
    i: nat,
) -> Result<Seq<(i64, Seq<ValueModel>)>, DecodeError>
    decreases cells.len() - i,
{
    if i >= cells.len() {
        Ok(Seq::empty())
    } else {
        match row_cell_of(file, header, cells[i as int]) {
            Err(e) => Err(e),
            Ok(x) => prepend_ok(seq![x], rows_from(file, header, cells, i + 1)),
        }
    }
}

/// The rows of the table whose B-tree is rooted at page `root`, in the
/// order the tree keeps them.
pub open spec fn table_rows(file: Seq<u8>, header: DatabaseHeader, root: u32) -> Result<
    Seq<(i64, Seq<ValueModel>)>,
    DecodeError,
> {
    match walk_spec(file, header, root, MAX_DEPTH as nat) {
        Err(e) => Err(e),
        Ok(cells) => rows_from(file, header, cells, 0),
    }
}

/// The rowids and column values of a run of rows.
pub open spec fn rows_view(v: Seq<RecordCell>) -> Seq<(i64, Seq<ValueModel>)> {
    Seq::new(v.len(), |i: int| (v[i].rowid, values_view(v[i].record.columns.cells@)))
}

/// Reads every row of the table whose B-tree is rooted at `root_page`.
pub fn read_rows(file: &[u8], header: &DatabaseHeader, root_page: u32) -> (r: Result<
    Vec<RecordCell>,
    DecodeError,
>)
    requires
        header.wf(),
    ensures
        match table_rows(file@, *header, root_page) {
            Ok(s) => r matches Ok(v) && rows_view(v@) == s,
            Err(e) => r matches Err(e2) && e2 == e,
        },
{
    let cells = match traverse(file, header, root_page) {
        Ok(c) => c,
        Err(e) => return Err(e),
    };
    let ghost cm = leaf_cells_view(cells@);
    let ghost whole = rows_from(file@, *header, cm, 0);
    assert(table_rows(file@, *header, root_page) == whole);
    let mut out: Vec<RecordCell> = Vec::new();
    let mut i: usize = 0;
    while i < cells.len()
        invariant
            header.wf(),
            table_rows(file@, *header, root_page) == whole,
            cm == leaf_cells_view(cells@),
            i <= cells@.len(),
            whole == rows_from(file@, *header, cm, 0),
            whole == prepend_ok(rows_view(out@), rows_from(file@, *header, cm, i as nat)),
        decreases cells@.len() - i,
    {
        assert(cm[i as int] == cells@[i as int]@);
        let row = match parse_cell(file, header, &cells[i]) {
            Ok(x) => x,
            Err(e) => return Err(e),
        };
        let ghost item = (row.rowid, values_view(row.record.columns.cells@));
        proof {
            lemma_prepend_ok_assoc(
                rows_view(out@),
                seq![item],
                rows_from(file@, *header, cm, (i + 1) as nat),
            );
        }
        let ghost prev = out@;
        out.push(row);
        assert(rows_view(out@) =~= rows_view(prev) + seq![item]);
        i = i + 1;
    }
    assert(rows_view(out@) + Seq::<(i64, Seq<ValueModel>)>::empty() =~= rows_view(out@));
    Ok(out)
}

/// An opened database: its file header and its schema catalog. The file's
/// bytes stay with the caller.
#[derive(Clone, Debug)]
pub struct Database {
    pub header: DatabaseHeader,
    pub schema_cells: Vec<SchemaRecord>,
}

/// Decodes the file header and the schema catalog of `file`.
pub fn open(file: &[u8]) -> (r: Result<Database, DecodeError>)
    ensures
        file@.len() < 100 ==> (r matches Err(e) && e == DecodeError::TruncatedInput),
        file@.len() >= 100 && !header_ok(file@) ==> (r matches Err(e) && e
            == DecodeError::MalformedHeader),
        header_ok(file@) ==> match schema_of(file@, header_of(file@)) {
            Ok(s) => r matches Ok(db) && db.header == header_of(file@) && schema_view(
                db.schema_cells@,
            ) == s,
            Err(e) => r matches Err(e2) && e2 == e,
        },
        r matches Ok(db) ==> db.header.wf(),
{
    let header = match read_header(file) {
        Ok(h) => h,
        Err(e) => return Err(e),
    };
    match load_schema(file, &header) {
        Ok(schema_cells) => Ok(Database { header, schema_cells }),
        Err(e) => Err(e),
    }
}

} // verus!
