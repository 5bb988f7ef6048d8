use sqlite_decode::btree::{cell_byte_window, page_slice, read_cells, traverse};
use sqlite_decode::cell::{
    get_cell_content, local_payload_threshold, read_cell, read_interior_table_cell, BTreeCell,
    TableBTreeInteriorCell,
};
use sqlite_decode::database::{open, parse_cell, read_rows};
use sqlite_decode::header::read_header;
use sqlite_decode::overflow::read_payload;
use sqlite_decode::page::{read_page, BTreePageType};
use sqlite_decode::record::RecordValue;
use sqlite_decode::schema::{count_tables, find_table};
use sqlite_decode::varint::encode;
use sqlite_decode::DecodeError;

const PS: usize = 512;

fn varint(v: u64) -> Vec<u8> {
    let e = encode(v);
    let mut out = vec![e.a0];
    out.extend_from_slice(&e.tail);
    out
}

fn file_header(n_pages: u32) -> Vec<u8> {
    let mut h = vec![0u8; 100];
    h[..16].copy_from_slice(b"SQLite format 3\0");
    h[16..18].copy_from_slice(&(PS as u16).to_be_bytes());
    h[18] = 1;
    h[19] = 1;
    h[21] = 64;
    h[22] = 32;
    h[23] = 32;
    h[28..32].copy_from_slice(&n_pages.to_be_bytes());
    h[44..48].copy_from_slice(&4u32.to_be_bytes());
    h[56..60].copy_from_slice(&1u32.to_be_bytes());
    h
}

enum Val<'a> {
    Null,
    Int(i64),
    Text(&'a [u8]),
}

/// A record whose integers are stored as 8-byte values.
fn record(values: &[Val]) -> Vec<u8> {
    let mut types = Vec::new();
    let mut body = Vec::new();
    for v in values {
        match v {
            Val::Null => types.extend(varint(0)),
            Val::Int(i) => {
                types.extend(varint(6));
                body.extend_from_slice(&i.to_be_bytes());
            }
            Val::Text(t) => {
                types.extend(varint(13 + 2 * t.len() as u64));
                body.extend_from_slice(t);
            }
        }
    }
    let mut out = varint(types.len() as u64 + 1);
    out.extend(types);
    out.extend(body);
    out
}

fn leaf_cell(rowid: i64, payload: &[u8]) -> Vec<u8> {
    let mut out = varint(payload.len() as u64);
    out.extend(varint(rowid as u64));
    out.extend_from_slice(payload);
    out
}

/// A page whose cells are written from the page's end in the order given,
/// with the cell-pointer array sorted by rowid.
fn table_page(tag: u8, header_offset: usize, cells: &[(i64, Vec<u8>)], right: Option<u32>) -> Vec<u8> {
    let mut page = vec![0u8; PS];
    let mut end = PS;
    let mut ptrs: Vec<(i64, u16)> = Vec::new();
    for (key, bytes) in cells {
        end -= bytes.len();
        page[end..end + bytes.len()].copy_from_slice(bytes);
        ptrs.push((*key, end as u16));
    }
    ptrs.sort();
    let h = header_offset;
    page[h] = tag;
    page[h + 3..h + 5].copy_from_slice(&(cells.len() as u16).to_be_bytes());
    page[h + 5..h + 7].copy_from_slice(&(end as u16).to_be_bytes());
    let mut at = h + 8;
    if let Some(r) = right {
        page[h + 8..h + 12].copy_from_slice(&r.to_be_bytes());
        at = h + 12;
    }
    for (i, (_, p)) in ptrs.iter().enumerate() {
        page[at + 2 * i..at + 2 * i + 2].copy_from_slice(&p.to_be_bytes());
    }
    page
}

fn leaf_page(header_offset: usize, rows: &[(i64, Vec<u8>)]) -> Vec<u8> {
    let cells: Vec<(i64, Vec<u8>)> = rows.iter().map(|(k, p)| (*k, leaf_cell(*k, p))).collect();
    table_page(0x0d, header_offset, &cells, None)
}

fn interior_page(header_offset: usize, children: &[(u32, i64)], right: u32) -> Vec<u8> {
    let cells: Vec<(i64, Vec<u8>)> = children
        .iter()
        .map(|(child, key)| {
            let mut c = child.to_be_bytes().to_vec();
            c.extend(varint(*key as u64));
            (*key, c)
        })
        .collect();
    table_page(0x05, header_offset, &cells, Some(right))
}

/// Joins pages into a file; page 1 gets the file header.
fn file(mut pages: Vec<Vec<u8>>) -> Vec<u8> {
    let h = file_header(pages.len() as u32);
    pages[0][..100].copy_from_slice(&h);
    pages.concat()
}

fn schema_row(name: &[u8], root: i64, sql: &[u8]) -> Vec<u8> {
    record(&[Val::Text(b"table"), Val::Text(name), Val::Text(name), Val::Int(root), Val::Text(sql)])
}

fn rowids(cells: &[sqlite_decode::cell::BTreeLeafTableCell]) -> Vec<i64> {
    cells.iter().map(|c| c.rowid).collect()
}

#[test]
fn page_leaf_header_with_three_cells() {
    let page = leaf_page(0, &[(1, vec![1]), (2, vec![2]), (3, vec![3])]);
    let p = read_page(&page, 0).unwrap();
    assert_eq!(p.header.inner.page_type, BTreePageType::LeafTable);
    assert_eq!(p.header.inner.cell_count, 3);
    assert_eq!(p.cell_pointers.0.len(), 3);
    assert_eq!(p.header.right_most_pointer, None);
    assert_eq!(p.header.inner.content_area_start as usize, PS - 3 * 3);
}

#[test]
fn page_interior_header_has_right_most_pointer() {
    let page = interior_page(0, &[(3, 10), (4, 20)], 5);
    let p = read_page(&page, 0).unwrap();
    assert_eq!(p.header.inner.page_type, BTreePageType::InteriorTable);
    assert_eq!(p.header.right_most_pointer, Some(5));
    assert_eq!(p.cell_pointers.0.len(), 2);
    let cells = read_cells(&page, &p, &read_header(&file_header(1)).unwrap()).unwrap();
    match &cells[1] {
        BTreeCell::InteriorTable(c) => assert_eq!(*c, TableBTreeInteriorCell { page_number: 4, key: 20 }),
        _ => panic!("expected an interior cell"),
    }
}

#[test]
fn page_unknown_type_and_too_short() {
    let mut page = leaf_page(0, &[(1, vec![1])]);
    page[0] = 0x07;
    assert_eq!(read_page(&page, 0).unwrap_err(), DecodeError::UnknownPageType(7));
    let page = leaf_page(0, &[(1, vec![1])]);
    assert_eq!(read_page(&page[..6], 0).unwrap_err(), DecodeError::PageTooShort);
    let mut page = leaf_page(0, &[(1, vec![1])]);
    page[3..5].copy_from_slice(&300u16.to_be_bytes());
    assert_eq!(read_page(&page, 0).unwrap_err(), DecodeError::PageTooShort);
    let mut page = leaf_page(0, &[(1, vec![1])]);
    page[8..10].copy_from_slice(&600u16.to_be_bytes());
    assert_eq!(read_page(&page, 0).unwrap_err(), DecodeError::PageTooShort);
    assert_eq!(read_page(&[], 0).unwrap_err(), DecodeError::PageTooShort);
}

#[test]
fn walker_follows_pointer_order_not_offset_order() {
    // Cells are written for rowids 3, 1, 2 in turn, so their offsets do not
    // follow the pointer array, which is in rowid order.
    let rows = vec![
        (3, record(&[Val::Int(30)])),
        (1, record(&[Val::Int(10)])),
        (2, record(&[Val::Int(20)])),
    ];
    let f = file(vec![leaf_page(100, &[]), leaf_page(0, &rows)]);
    let h = read_header(&f).unwrap();
    let page2 = &f[PS..2 * PS];
    let p = read_page(page2, 0).unwrap();
    let offsets: Vec<u16> = p.cell_pointers.0.iter().map(|c| c.0).collect();
    assert!(offsets[0] > offsets[1] && offsets[1] < offsets[2]);
    let cells = traverse(&f, &h, 2).unwrap();
    assert_eq!(rowids(&cells), vec![1, 2, 3]);
    let rows = read_rows(&f, &h, 2).unwrap();
    let firsts: Vec<RecordValue> = rows.iter().map(|r| r.record.columns.cells[0].clone()).collect();
    assert_eq!(
        firsts,
        vec![RecordValue::Integer(10), RecordValue::Integer(20), RecordValue::Integer(30)]
    );
}

#[test]
fn walker_descends_interior_pages_in_key_order() {
    let f = file(vec![
        leaf_page(100, &[]),
        interior_page(0, &[(3, 2), (4, 4)], 5),
        leaf_page(0, &[(1, record(&[Val::Null])), (2, record(&[Val::Null]))]),
        leaf_page(0, &[(4, record(&[Val::Null])), (3, record(&[Val::Null]))]),
        leaf_page(0, &[(5, record(&[Val::Null]))]),
    ]);
    let h = read_header(&f).unwrap();
    assert_eq!(rowids(&traverse(&f, &h, 2).unwrap()), vec![1, 2, 3, 4, 5]);
}

#[test]
fn walker_errors() {
    let f = file(vec![leaf_page(100, &[]), interior_page(0, &[], 2)]);
    let h = read_header(&f).unwrap();
    assert_eq!(traverse(&f, &h, 2).unwrap_err(), DecodeError::CorruptTree);
    assert_eq!(traverse(&f, &h, 9).unwrap_err(), DecodeError::PageOutOfRange(9));
    assert_eq!(traverse(&f, &h, 0).unwrap_err(), DecodeError::PageOutOfRange(0));
    let mut index = leaf_page(0, &[]);
    index[0] = 0x0a;
    let f = file(vec![leaf_page(100, &[]), index]);
    let h = read_header(&f).unwrap();
    assert_eq!(traverse(&f, &h, 2).unwrap_err(), DecodeError::CorruptTree);
}

#[test]
fn schema_resolution_end_to_end() {
    let schema = schema_row(b"t", 2, b"CREATE TABLE t (a, b)");
    let rows = vec![
        (1, record(&[Val::Text(b"x"), Val::Int(7)])),
        (2, record(&[Val::Text(b"y"), Val::Int(8)])),
    ];
    let f = file(vec![leaf_page(100, &[(1, schema)]), leaf_page(0, &rows)]);
    let db = open(&f).unwrap();
    assert_eq!(db.header.page_size, PS as u32);
    assert_eq!(db.schema_cells.len(), 1);
    let entry = &db.schema_cells[0].column;
    assert_eq!(entry.object_type, b"table".to_vec());
    assert_eq!(entry.name, b"t".to_vec());
    assert_eq!(entry.table_name, b"t".to_vec());
    assert_eq!(entry.rootpage, 2);
    assert_eq!(entry.sql, b"CREATE TABLE t (a, b)".to_vec());
    let i = find_table(&db.schema_cells, b"t").unwrap();
    assert_eq!(find_table(&db.schema_cells, b"T"), None);
    let rows = read_rows(&f, &db.header, db.schema_cells[i].column.rootpage).unwrap();
    assert_eq!(rows.len(), 2);
    assert_eq!(rows[0].rowid, 1);
    assert_eq!(rows[1].rowid, 2);
    assert_eq!(
        rows[1].record.columns.cells,
        vec![RecordValue::Text(b"y".to_vec()), RecordValue::Integer(8)]
    );
}

#[test]
fn schema_row_must_have_five_columns() {
    let bad = record(&[Val::Text(b"table"), Val::Text(b"t"), Val::Text(b"t"), Val::Int(2)]);
    let f = file(vec![leaf_page(100, &[(1, bad)])]);
    assert_eq!(open(&f).unwrap_err(), DecodeError::MalformedSchemaRow);
    let bad = record(&[Val::Text(b"table"), Val::Text(b"t"), Val::Text(b"t"), Val::Text(b"2"), Val::Null]);
    let f = file(vec![leaf_page(100, &[(1, bad)])]);
    assert_eq!(open(&f).unwrap_err(), DecodeError::MalformedSchemaRow);
    assert_eq!(open(&f[..50]).unwrap_err(), DecodeError::TruncatedInput);
}

#[test]
fn local_payload_threshold_values() {
    let h = read_header(&file_header(1)).unwrap();
    assert_eq!(local_payload_threshold(&h, 10), 10);
    assert_eq!(local_payload_threshold(&h, 477), 477);
    assert_eq!(local_payload_threshold(&h, 478), 39);
    assert_eq!(local_payload_threshold(&h, 600), 92);
    assert_eq!(local_payload_threshold(&h, 1000), 39);
    assert_eq!(local_payload_threshold(&h, 1500), 39);
}

/// A file whose page 2 is a leaf holding one row with `payload`, spilled
/// over overflow pages 3, 4, ... as the format lays them out.
fn overflow_file(payload: &[u8], local: usize) -> Vec<u8> {
    let mut cell = varint(payload.len() as u64);
    cell.extend(varint(1));
    cell.extend_from_slice(&payload[..local]);
    cell.extend_from_slice(&3u32.to_be_bytes());
    let mut pages = vec![leaf_page(100, &[]), table_page(0x0d, 0, &[(1, cell)], None)];
    let chunks: Vec<&[u8]> = payload[local..].chunks(PS - 4).collect();
    for (i, chunk) in chunks.iter().enumerate() {
        let mut page = vec![0u8; PS];
        let next = if i + 1 < chunks.len() { 4 + i as u32 } else { 0 };
        page[..4].copy_from_slice(&next.to_be_bytes());
        page[4..4 + chunk.len()].copy_from_slice(chunk);
        pages.push(page);
    }
    file(pages)
}

fn blob_record(len: usize) -> Vec<u8> {
    let mut out = vec![3u8];
    out.extend(varint(12 + 2 * len as u64));
    out.extend((0..len).map(|i| (i * 7 % 251) as u8));
    out
}

#[test]
fn overflow_chain_of_two_pages() {
    let payload = blob_record(997);
    assert_eq!(payload.len(), 1000);
    let f = overflow_file(&payload, 39);
    assert_eq!(f.len(), 4 * PS);
    let h = read_header(&f).unwrap();
    let cells = traverse(&f, &h, 2).unwrap();
    assert_eq!(cells[0].initial_payload.len(), 39);
    assert_eq!(cells[0].first_overflow_page_number, Some(3));
    assert_eq!(read_payload(&f, &h, &cells[0]).unwrap(), payload);
    let row = parse_cell(&f, &h, &cells[0]).unwrap();
    assert_eq!(row.record.columns.cells, vec![RecordValue::Blob(payload[3..].to_vec())]);
}

#[test]
fn overflow_chain_of_three_pages() {
    let payload = blob_record(1497);
    assert_eq!(payload.len(), 1500);
    let f = overflow_file(&payload, 39);
    assert_eq!(f.len(), 5 * PS);
    let h = read_header(&f).unwrap();
    let cells = traverse(&f, &h, 2).unwrap();
    assert_eq!(read_payload(&f, &h, &cells[0]).unwrap(), payload);
}

#[test]
fn overflow_chain_cut_short() {
    let payload = blob_record(1497);
    let mut f = overflow_file(&payload, 39);
    // Page 4 claims to be the last page of the chain.
    f[3 * PS..3 * PS + 4].copy_from_slice(&0u32.to_be_bytes());
    let h = read_header(&f).unwrap();
    let cells = traverse(&f, &h, 2).unwrap();
    assert_eq!(read_payload(&f, &h, &cells[0]).unwrap_err(), DecodeError::InvalidCell);
    // A chain that points past the end of the file.
    f[3 * PS..3 * PS + 4].copy_from_slice(&40u32.to_be_bytes());
    assert_eq!(read_payload(&f, &h, &cells[0]).unwrap_err(), DecodeError::PageOutOfRange(40));
}

#[test]
fn cell_decoding_and_content() {
    let h = read_header(&file_header(1)).unwrap();
    let page = leaf_page(0, &[(5, vec![9, 8, 7])]);
    let p = read_page(&page, 0).unwrap();
    let off = p.cell_pointers.0[0].0 as usize;
    let cell = read_cell(&page, off, BTreePageType::LeafTable, &h).unwrap();
    assert_eq!(get_cell_content(&cell), Some(&[9u8, 8, 7][..]));
    // A rowid whose varint runs off the end of the page.
    let mut bad = vec![0u8; 4];
    bad[2] = 3;
    bad[3] = 0xff;
    assert_eq!(read_cell(&bad, 2, BTreePageType::LeafTable, &h).unwrap_err(), DecodeError::InvalidCell);
    assert_eq!(read_cell(&page, off, BTreePageType::LeafIndex, &h).unwrap_err(), DecodeError::InvalidCell);
    let interior = [0u8, 0, 0, 9, 0x81, 0x00];
    let c = read_interior_table_cell(&interior, 0).unwrap();
    assert_eq!(c, TableBTreeInteriorCell { page_number: 9, key: 128 });
    let ic = read_cell(&interior, 0, BTreePageType::InteriorTable, &h).unwrap();
    assert!(get_cell_content(&ic).is_none());
    assert_eq!(read_interior_table_cell(&interior[..3], 0).unwrap_err(), DecodeError::InvalidCell);
    // A negative rowid is stored as its 64-bit two's-complement pattern.
    let neg = leaf_cell(-1, &[1]);
    let page = table_page(0x0d, 0, &[(-1, neg)], None);
    let f_cells = read_cells(&page, &read_page(&page, 0).unwrap(), &h).unwrap();
    match &f_cells[0] {
        BTreeCell::LeafTable(c) => assert_eq!(c.rowid, -1),
        _ => panic!("expected a leaf cell"),
    }
}

#[test]
fn cell_windows_end_at_next_greater_offset() {
    // Written in turn for rowids 2, 3, 1: offsets 509, 506, 503.
    let page = leaf_page(0, &[(2, vec![0xb]), (3, vec![0xc]), (1, vec![0xa])]);
    let p = read_page(&page, 0).unwrap();
    let offsets: Vec<u16> = p.cell_pointers.0.iter().map(|c| c.0).collect();
    assert_eq!(offsets, vec![503, 509, 506]);
    assert_eq!(cell_byte_window(&page, &p, 0), &[1u8, 1, 0xa][..]);
    assert_eq!(cell_byte_window(&page, &p, 1), &[1u8, 2, 0xb][..]);
    assert_eq!(cell_byte_window(&page, &p, 2), &[1u8, 3, 0xc][..]);
}

#[test]
fn pages_are_located_by_number() {
    let f = file(vec![leaf_page(100, &[]), leaf_page(0, &[(1, vec![7])])]);
    assert_eq!(page_slice(&f, PS as u32, 2).unwrap(), &f[PS..]);
    assert_eq!(page_slice(&f, PS as u32, 1).unwrap().len(), PS);
    assert_eq!(page_slice(&f, PS as u32, 3).unwrap_err(), DecodeError::PageOutOfRange(3));
}

#[test]
fn table_count_skips_other_objects() {
    let index = record(&[Val::Text(b"index"), Val::Text(b"i"), Val::Text(b"t"), Val::Int(3), Val::Null]);
    let rows = vec![
        (1, schema_row(b"t", 2, b"CREATE TABLE t (a)")),
        (2, index),
        (3, schema_row(b"u", 4, b"CREATE TABLE u (b)")),
    ];
    let f = file(vec![leaf_page(100, &rows)]);
    let db = open(&f).unwrap();
    assert_eq!(db.schema_cells.len(), 3);
    assert_eq!(count_tables(&db.schema_cells), 2);
    assert_eq!(find_table(&db.schema_cells, b"u"), Some(2));
    assert_eq!(db.schema_cells[1].column.sql, Vec::<u8>::new());
}
