use crate::btree::{traverse, walk_spec, MAX_DEPTH};
use crate::bytes::bytes_equal;
use crate::cell::{BTreeLeafTableCell, LeafCellModel};
use crate::error::{lemma_prepend_ok_assoc, prepend_ok, DecodeError};
use crate::header::DatabaseHeader;
use crate::overflow::{full_payload, read_payload};
use crate::record::{read, row_of, values_view, RawColumn, RecordHeader, RecordValue, ValueModel};
use vstd::prelude::*;
use vstd::slice::slice_to_vec;

verus! {

/// One row of the schema catalog: a table, index, view or trigger.
#[derive(Clone, Debug, PartialEq, Eq)]
pub struct SchemaColumn {
    /// "table", "index", "view" or "trigger".
    pub object_type: Vec<u8>,
    pub name: Vec<u8>,
    /// The table that the object belongs to.
    pub table_name: Vec<u8>,
    /// Root page of the object's B-tree; zero for views and triggers.
    pub rootpage: u32,
    /// The object's DDL text.
    pub sql: Vec<u8>,
}

/// What a schema row holds, with its texts as sequences.
pub struct SchemaModel {
    pub object_type: Seq<u8>,
    pub name: Seq<u8>,
    pub table_name: Seq<u8>,
    pub rootpage: u32,
    pub sql: Seq<u8>,
}

impl View for SchemaColumn {
    type V = SchemaModel;

    open spec fn view(&self) -> SchemaModel {
        SchemaModel {
            object_type: self.object_type@,
            name: self.name@,
            table_name: self.table_name@,
            rootpage: self.rootpage,
            sql: self.sql@,
        }
    }
}

/// The text that a text column holds; a NULL column reads as empty text.
pub open spec fn text_of(v: ValueModel) -> Option<Seq<u8>> {
    match v {
        ValueModel::Text(t) => Some(t),
        ValueModel::Null => Some(Seq::empty()),
        _ => None,
    }
}

/// The page number that an integer-shaped column holds, if it is one.
pub open spec fn root_page_of(v: ValueModel) -> Option<u32> {
    match v {
        ValueModel::Integer(i) => if 0 <= i <= u32::MAX {
            Some(i as u32)
        } else {
            None
        },
        ValueModel::ZeroLiteral => Some(0),
        ValueModel::OneLiteral => Some(1),
        _ => None,
    }
}

/// The schema entry that a five-column catalog row describes.
pub open spec fn schema_entry_of(row: Seq<ValueModel>) -> Result<SchemaModel, DecodeError> {
    if row.len() != 5 {
        Err(DecodeError::MalformedSchemaRow)
    } else {
        match (text_of(row[0]), text_of(row[1]), text_of(row[2]), root_page_of(row[3]), text_of(row[4])) {
            (Some(t), Some(n), Some(tn), Some(rp), Some(sql)) => Ok(
                SchemaModel { object_type: t, name: n, table_name: tn, rootpage: rp, sql },
            ),
            _ => Err(DecodeError::MalformedSchemaRow),
        }
    }
}

fn text_value(v: &RecordValue) -> (r: Option<Vec<u8>>)
    ensures
        match text_of(v@) {
            Some(t) => r matches Some(x) && x@ == t,
            None => r is None,
        },
{
    match v {
        RecordValue::Text(t) => Some(slice_to_vec(t.as_slice())),
        RecordValue::Null => Some(Vec::new()),
        _ => None,
    }
}

fn root_page_value(v: &RecordValue) -> (r: Option<u32>)
    ensures
        r == root_page_of(v@),
{
    match v {
        RecordValue::Integer(i) => if 0 <= *i && *i <= u32::MAX as i64 {
            Some(*i as u32)
        } else {
            None
        },
        RecordValue::ZeroLiteral => Some(0),
        RecordValue::OneLiteral => Some(1),
        _ => None,
    }
}

impl SchemaColumn {
    /// Lifts the five columns of a catalog row, by position, into a
    /// schema entry.
    pub fn from_raw_column(column: &RawColumn) -> (r: Result<SchemaColumn, DecodeError>)
        ensures
            match schema_entry_of(values_view(column.cells@)) {
                Ok(m) => r matches Ok(e) && e@ == m,
                Err(e) => r matches Err(e2) && e2 == e,
            },
    {
        let cells = &column.cells;
        if cells.len() != 5 {
            return Err(DecodeError::MalformedSchemaRow);
        }
        assert(values_view(cells@)[0] == cells@[0]@);
        assert(values_view(cells@)[1] == cells@[1]@);
        assert(values_view(cells@)[2] == cells@[2]@);
        assert(values_view(cells@)[3] == cells@[3]@);
        assert(values_view(cells@)[4] == cells@[4]@);
        let object_type = text_value(&cells[0]);
        let name = text_value(&cells[1]);
        let table_name = text_value(&cells[2]);
        let rootpage = root_page_value(&cells[3]);
        let sql = text_value(&cells[4]);
        match (object_type, name, table_name, rootpage, sql) {
            (Some(object_type), Some(name), Some(table_name), Some(rootpage), Some(sql)) => Ok(
                SchemaColumn { object_type, name, table_name, rootpage, sql },
            ),
            _ => Err(DecodeError::MalformedSchemaRow),
        }
    }
}

/// The text of a text value.
pub fn lift_encoded_string(value: &RecordValue) -> (r: Option<Vec<u8>>)
    ensures
        match value@ {
            ValueModel::Text(t) => r matches Some(x) && x@ == t,
            _ => r is None,
        },
{
    match value {
        RecordValue::Text(t) => Some(slice_to_vec(t.as_slice())),
        _ => None,
    }
}

/// A decoded catalog row: its record header and the entry it describes.
#[derive(Clone, Debug)]
pub struct SchemaRecord {
    pub header: RecordHeader,
    pub column: SchemaColumn,
}

/// The schema entry that leaf cell `c` of the catalog holds.
pub open spec fn schema_row_of(file: Seq<u8>, header: DatabaseHeader, c: LeafCellModel) -> Result<
    SchemaModel,
    DecodeError,
> {
    match full_payload(file, header, c) {
        Err(e) => Err(e),
        Ok(p) => match row_of(p) {
            Err(e) => Err(e),
            Ok(row) => schema_entry_of(row),
        },
    }
}

/// The schema entries that the leaf cells `cells[i..]` of the catalog hold.
pub open spec fn schema_entries_from(
    file: Seq<u8>,
    header: DatabaseHeader,
    cells: Seq<LeafCellModel>,
    i: nat,
) -> Result<Seq<SchemaModel>, DecodeError>
    decreases cells.len() - i,
{
    if i >= cells.len() {
        Ok(Seq::empty())
    } else {
        match schema_row_of(file, header, cells[i as int]) {
            Err(e) => Err(e),
            Ok(m) => prepend_ok(seq![m], schema_entries_from(file, header, cells, i + 1)),
        }
    }
}

/// Decodes the catalog row that leaf cell `cell` holds, overflow included.
fn read_schema_row(file: &[u8], header: &DatabaseHeader, cell: &BTreeLeafTableCell) -> (r: Result<
    SchemaRecord,
    DecodeError,
>)
    requires
        header.wf(),
    ensures
        match schema_row_of(file@, *header, cell@) {
            Ok(m) => r matches Ok(x) && x.column@ == m,
            Err(e) => r matches Err(e2) && e2 == e,
        },
{
    let payload = match read_payload(file, header, cell) {
        Ok(p) => p,
        Err(e) => return Err(e),
    };
    let record = match read(payload.as_slice()) {
        Ok(rec) => rec,
        Err(e) => return Err(e),
    };
    let column = match SchemaColumn::from_raw_column(&record.columns) {
        Ok(c) => c,
        Err(e) => return Err(e),
    };
    Ok(SchemaRecord { header: record.header, column })
}

/// The schema catalog of `file`: one entry per row of the table B-tree
/// rooted at page 1, in the tree's order.
pub open spec fn schema_of(file: Seq<u8>, header: DatabaseHeader) -> Result<
    Seq<SchemaModel>,
    DecodeError,
> {
    match walk_spec(file, header, 1, MAX_DEPTH as nat) {
        Err(e) => Err(e),
        Ok(cells) => schema_entries_from(file, header, cells, 0),
    }
}

/// The views of the entries of a run of catalog rows.
pub open spec fn schema_view(v: Seq<SchemaRecord>) -> Seq<SchemaModel> {
    Seq::new(v.len(), |i: int| v[i].column@)
}

/// Loads the schema catalog: walks the table B-tree rooted at page 1 and
/// decodes each row, overflow included, as a schema entry.
pub fn load_schema(file: &[u8], header: &DatabaseHeader) -> (r: Result<
    Vec<SchemaRecord>,
    DecodeError,
>)
    requires
        header.wf(),
    ensures
        match schema_of(file@, *header) {
            Ok(s) => r matches Ok(v) && schema_view(v@) == s,
            Err(e) => r matches Err(e2) && e2 == e,
        },
{
    let cells = match traverse(file, header, 1) {
        Ok(c) => c,
        Err(e) => return Err(e),
    };
    let ghost cm = crate::btree::leaf_cells_view(cells@);
    let ghost whole = schema_entries_from(file@, *header, cm, 0);
    assert(schema_of(file@, *header) == whole);
    let mut out: Vec<SchemaRecord> = Vec::new();
    let mut i: usize = 0;
    while i < cells.len()
        invariant
            header.wf(),
            schema_of(file@, *header) == whole,
            cm == crate::btree::leaf_cells_view(cells@),
            i <= cells@.len(),
            whole == schema_entries_from(file@, *header, cm, 0),
            whole == prepend_ok(schema_view(out@), schema_entries_from(file@, *header, cm, i as nat)),
        decreases cells@.len() - i,
    {
        assert(cm[i as int] == cells@[i as int]@);
        let entry = match read_schema_row(file, header, &cells[i]) {
            Ok(x) => x,
            Err(e) => return Err(e),
        };
        proof {
            lemma_prepend_ok_assoc(
                schema_view(out@),
                seq![entry.column@],
                schema_entries_from(file@, *header, cm, (i + 1) as nat),
            );
        }
        let ghost prev = out@;
        out.push(entry);
        assert(schema_view(out@) =~= schema_view(prev) + seq![entry.column@]);
        i = i + 1;
    }
    assert(schema_view(out@) + Seq::<SchemaModel>::empty() =~= schema_view(out@));
    Ok(out)
}

/// Index of the first catalog entry whose name is exactly `name`
/// (case-sensitive).
pub fn find_table(schema: &[SchemaRecord], name: &[u8]) -> (r: Option<usize>)
    ensures
        match r {
            Some(i) => i < schema@.len() && schema@[i as int].column.name@ == name@ && forall|j: int|
                0 <= j < i ==> schema@[j].column.name@ != name@,
            None => forall|j: int| 0 <= j < schema@.len() ==> schema@[j].column.name@ != name@,
        },
{
    let mut i: usize = 0;
    while i < schema.len()
        invariant
            i <= schema@.len(),
            forall|j: int| 0 <= j < i ==> schema@[j].column.name@ != name@,
        decreases schema@.len() - i,
    {
        if bytes_equal(schema[i].column.name.as_slice(), name) {
            return Some(i);
        }
        i = i + 1;
    }
    None
}


/// The bytes of "table".
pub open spec fn table_keyword() -> Seq<u8> {
    seq![116u8, 97, 98, 108, 101]
}

/// How many of the entries `s` describe tables.
pub open spec fn table_count(s: Seq<SchemaModel>) -> nat
    decreases s.len(),
{
    if s.len() == 0 {
        0
    } else {
        table_count(s.drop_last()) + if s.last().object_type == table_keyword() {
            1nat
        } else {
            0nat
        }
    }
}

/// Number of catalog entries whose type is "table".
pub fn count_tables(schema: &[SchemaRecord]) -> (r: usize)
    ensures
        r == table_count(schema_view(schema@)),
{
    let kw: [u8; 5] = [116, 97, 98, 108, 101];
    assert(kw@ == table_keyword());
    let mut n: usize = 0;
    let mut i: usize = 0;
    while i < schema.len()
        invariant
            kw@ == table_keyword(),
            i <= schema@.len(),
            n <= i,
            n == table_count(schema_view(schema@).take(i as int)),
        decreases schema@.len() - i,
    {
        assert(schema_view(schema@).take(i + 1).drop_last() == schema_view(schema@).take(i as int));
        if bytes_equal(schema[i].column.object_type.as_slice(), &kw) {
            n = n + 1;
        }
        i = i + 1;
    }
    assert(schema_view(schema@).take(schema@.len() as int) == schema_view(schema@));
    n
}

} // verus!
