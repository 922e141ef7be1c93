use pagedb::catalog::{find_table, table_configs_from_rows, DbTableConfig};
use pagedb::db::{Db, DbPage};
use pagedb::error::DbError;
use pagedb::record::{decode_cell, decode_leaf_page, get_type_definition, DataType, DataValue};
use pagedb::varint::{decode_varint, decode_varint_at};

const PAGE_SIZE: usize = 4096;

/// One record cell: payload length, row id, header, values. Every varint in
/// it fits in one byte.
fn cell(row_id: u8, cols: &[(u64, Vec<u8>)]) -> Vec<u8> {
    let mut header = vec![(cols.len() + 1) as u8];
    let mut body = Vec::new();
    for (code, bytes) in cols {
        assert!(*code < 128);
        header.push(*code as u8);
        body.extend_from_slice(bytes);
    }
    let mut payload = header;
    payload.extend_from_slice(&body);
    assert!(payload.len() < 128);
    let mut out = vec![payload.len() as u8, row_id];
    out.extend_from_slice(&payload);
    out
}

fn text(s: &str) -> (u64, Vec<u8>) {
    (13 + 2 * s.len() as u64, s.as_bytes().to_vec())
}

fn int8(v: i8) -> (u64, Vec<u8>) {
    (1, vec![v as u8])
}

/// A leaf table page of `PAGE_SIZE` bytes holding `cells`, as the buffer that
/// starts `start` bytes into the page.
fn leaf_page(cells: &[Vec<u8>], start: usize) -> Vec<u8> {
    let mut page = vec![0u8; PAGE_SIZE];
    page[start] = 0x0d;
    let n = cells.len() as u16;
    page[start + 3..start + 5].copy_from_slice(&n.to_be_bytes());
    let mut end = PAGE_SIZE;
    for (i, c) in cells.iter().enumerate() {
        let at = end - c.len();
        page[at..end].copy_from_slice(c);
        let ptr = at as u16;
        page[start + 8 + 2 * i..start + 10 + 2 * i].copy_from_slice(&ptr.to_be_bytes());
        end = at;
    }
    page[start..].to_vec()
}

fn catalog_row(row_id: u8, name: &str, root: i8) -> Vec<u8> {
    cell(
        row_id,
        &[text("table"), text(name), text(name), int8(root), text("CREATE TABLE x(a)")],
    )
}

fn header(page_size: u16, tables: u16) -> Vec<u8> {
    let mut h = vec![0u8; 108];
    h[16..18].copy_from_slice(&page_size.to_be_bytes());
    h[103..105].copy_from_slice(&tables.to_be_bytes());
    h
}

fn db() -> Db {
    Db::new("test.db", &header(PAGE_SIZE as u16, 1)).unwrap()
}

#[test]
fn varint_single_byte() {
    assert_eq!(decode_varint(&[0x05]), Ok((5, 1)));
    assert_eq!(decode_varint(&[0x7f, 0xff]), Ok((127, 1)));
}

#[test]
fn varint_two_bytes() {
    assert_eq!(decode_varint(&[0x81, 0x00]), Ok((128, 2)));
    assert_eq!(decode_varint(&[0x82, 0x2c]), Ok((300, 2)));
}

#[test]
fn varint_three_bytes() {
    // 0x4000 = 1 << 14
    assert_eq!(decode_varint(&[0x81, 0x80, 0x00]), Ok((0x4000, 3)));
}

#[test]
fn varint_nine_bytes_all_set() {
    assert_eq!(decode_varint(&[0xff; 9]), Ok((u64::MAX, 9)));
}

#[test]
fn varint_ninth_byte_top_bit_clear() {
    let mut b = vec![0xffu8; 8];
    b.push(0x01);
    b.push(0x55);
    assert_eq!(decode_varint(&b), Ok((((1u64 << 56) - 1) * 256 + 1, 9)));
}

#[test]
fn varint_nine_byte_encoding_of_two_to_fifty_six() {
    let b = [0x80, 0xc0, 0x80, 0x80, 0x80, 0x80, 0x80, 0x80, 0x00];
    assert_eq!(decode_varint(&b), Ok((1u64 << 56, 9)));
}

#[test]
fn varint_round_trip_values() {
    // shortest encodings written out by hand
    let cases: Vec<(u64, Vec<u8>)> = vec![
        (0, vec![0x00]),
        (127, vec![0x7f]),
        (128, vec![0x81, 0x00]),
        (16383, vec![0xff, 0x7f]),
        (16384, vec![0x81, 0x80, 0x00]),
        ((1u64 << 56) - 1, vec![0xff, 0xff, 0xff, 0xff, 0xff, 0xff, 0xff, 0x7f]),
    ];
    for (v, b) in cases {
        assert_eq!(decode_varint(&b), Ok((v, b.len())));
    }
}

#[test]
fn varint_exhausted() {
    assert_eq!(decode_varint(&[]), Err(DbError::Decode));
    assert_eq!(decode_varint(&[0x80]), Err(DbError::Decode));
    assert_eq!(decode_varint(&[0xff; 8]), Err(DbError::Decode));
}

#[test]
fn varint_stops_at_end_bound() {
    let b = [0x81, 0x00];
    assert_eq!(decode_varint_at(&b, 0, 1), Err(DbError::Decode));
    assert_eq!(decode_varint_at(&b, 1, 2), Ok((0, 1)));
}

#[test]
fn type_definitions_fixed() {
    assert_eq!(get_type_definition(0), (DataType::Null, 0));
    assert_eq!(get_type_definition(1), (DataType::Int8, 1));
    assert_eq!(get_type_definition(2), (DataType::Int16, 2));
    assert_eq!(get_type_definition(3), (DataType::Int24, 3));
    assert_eq!(get_type_definition(4), (DataType::Int32, 4));
    assert_eq!(get_type_definition(5), (DataType::Int48, 6));
    assert_eq!(get_type_definition(6), (DataType::Int64, 8));
}

#[test]
fn type_definitions_unhandled_codes() {
    for code in 7..12 {
        assert_eq!(get_type_definition(code), (DataType::Unrecognized, 0));
    }
}

#[test]
fn type_definitions_blob_and_text() {
    assert_eq!(get_type_definition(12), (DataType::Unrecognized, 0));
    assert_eq!(get_type_definition(20), (DataType::Unrecognized, 4));
    assert_eq!(get_type_definition(13), (DataType::Text, 0));
    assert_eq!(get_type_definition(19), (DataType::Text, 3));
}

#[test]
fn open_reads_header_fields() {
    let d = Db::new("x.db", &header(4096, 7)).unwrap();
    assert_eq!(d.page_size, 4096);
    assert_eq!(d.num_of_tables, 7);
    assert_eq!(d.file_path, "x.db");
    assert_eq!(d.info(), (4096, 7));
}

#[test]
fn open_short_header() {
    assert!(matches!(Db::new("x.db", &[0u8; 107]), Err(DbError::Io)));
}

#[test]
fn page_offsets() {
    let d = db();
    assert_eq!(d.page_span(1), Ok((100, 3996)));
    assert_eq!(d.page_span(2), Ok((4096, 4096)));
    assert_eq!(d.page_span(3), Ok((8192, 4096)));
    assert_eq!(d.page_span(0), Err(DbError::Decode));
}

#[test]
fn page_offsets_large() {
    let d = Db::new("x.db", &header(65535, 0)).unwrap();
    assert_eq!(d.page_span(65535), Ok((65534u64 * 65535, 65535)));
}

#[test]
fn page_one_smaller_than_header() {
    let d = Db::new("x.db", &header(64, 0)).unwrap();
    assert_eq!(d.page_span(1), Err(DbError::Decode));
}

#[test]
fn short_page_is_io_error() {
    let d = db();
    let p = leaf_page(&[], 0);
    assert_eq!(d.get_page(2, &p[..100]), Err(DbError::Io));
    assert_eq!(d.get_page(1, &p), Err(DbError::Io));
}

#[test]
fn end_to_end_scenario() {
    let d = db();
    let catalog = leaf_page(&[catalog_row(1, "t", 2)], 100);
    assert_eq!(catalog.len(), 3996);
    assert_eq!(d.get_table_names(&catalog), Ok(vec!["t".to_string()]));
    let page_number = d.get_table_page(&catalog, "t").unwrap();
    assert_eq!(page_number, 2);
    let rows = leaf_page(
        &[cell(1, &[text("apple")]), cell(2, &[text("pear")]), cell(3, &[text("fig")])],
        0,
    );
    let page = d.get_page(page_number, &rows).unwrap();
    assert_eq!(page.rows.len(), 3);
    assert_eq!(
        page,
        DbPage {
            rows: vec![
                vec![DataValue::Text("apple".to_string())],
                vec![DataValue::Text("pear".to_string())],
                vec![DataValue::Text("fig".to_string())],
            ],
        }
    );
}

#[test]
fn not_found_scenario() {
    let d = db();
    let catalog = leaf_page(&[catalog_row(1, "t", 2)], 100);
    assert_eq!(d.get_table_page(&catalog, "missing"), Err(DbError::NotFound));
    assert_eq!(d.get_table_page(&catalog, "T"), Err(DbError::NotFound));
}

#[test]
fn malformed_utf8_scenario() {
    let d = db();
    let bad = cell(1, &[(13 + 2 * 2, vec![0xff, 0xfe])]);
    let rows = leaf_page(&[cell(2, &[text("ok")]), bad], 0);
    assert_eq!(d.get_page(2, &rows), Err(DbError::Decode));
}

#[test]
fn catalog_skips_unnamed_and_rootless_rows() {
    let d = db();
    let catalog = leaf_page(
        &[
            catalog_row(1, "", 2),
            catalog_row(2, "zero", 0),
            catalog_row(3, "b", 3),
            cell(4, &[text("index"), text("i"), text("i")]),
            catalog_row(5, "c", 4),
        ],
        100,
    );
    assert_eq!(d.get_table_names(&catalog), Ok(vec!["b".to_string(), "c".to_string()]));
    assert_eq!(d.get_table_page(&catalog, "zero"), Err(DbError::NotFound));
    assert_eq!(d.get_table_page(&catalog, "c"), Ok(4));
}

#[test]
fn catalog_configs_in_order() {
    let d = db();
    let catalog = leaf_page(&[catalog_row(1, "a", 5), catalog_row(2, "b", 6)], 100);
    assert_eq!(
        d.get_table_configs(&catalog),
        Ok(vec![
            DbTableConfig { table_name: "a".to_string(), page_number: 5 },
            DbTableConfig { table_name: "b".to_string(), page_number: 6 },
        ])
    );
}

#[test]
fn negative_root_page_is_decode_error() {
    let d = db();
    let catalog = leaf_page(&[catalog_row(1, "neg", -3)], 100);
    assert_eq!(d.get_table_page(&catalog, "neg"), Err(DbError::Decode));
}

#[test]
fn first_matching_table_wins() {
    let configs = vec![
        DbTableConfig { table_name: "a".to_string(), page_number: 5 },
        DbTableConfig { table_name: "a".to_string(), page_number: 9 },
    ];
    assert_eq!(find_table(&configs, "a"), Some(5));
    assert_eq!(find_table(&configs, "b"), None);
}

#[test]
fn configs_from_rows_reads_columns_two_and_three() {
    let rows = vec![
        vec![DataValue::Null, DataValue::Null, DataValue::Text("x".to_string()), DataValue::Int(12)],
        vec![DataValue::Null, DataValue::Null, DataValue::Int(1), DataValue::Int(12)],
        vec![DataValue::Null, DataValue::Null, DataValue::Text("y".to_string())],
    ];
    assert_eq!(
        table_configs_from_rows(&rows),
        vec![DbTableConfig { table_name: "x".to_string(), page_number: 12 }]
    );
}

#[test]
fn values_of_every_kind() {
    let c = cell(
        1,
        &[(0, vec![]), int8(-1), int8(100), (2, vec![1, 2]), (6, vec![0; 8]), (16, vec![9, 9]), text("hé")],
    );
    let page = leaf_page(&[c], 0);
    let rows = decode_leaf_page(&page, 0).unwrap();
    assert_eq!(
        rows,
        vec![vec![
            DataValue::Null,
            DataValue::Int(-1),
            DataValue::Int(100),
            DataValue::Unrecognized,
            DataValue::Unrecognized,
            DataValue::Unrecognized,
            DataValue::Text("hé".to_string()),
        ]]
    );
}

#[test]
fn page_one_pointers_are_adjusted() {
    let page = leaf_page(&[cell(1, &[text("a")]), cell(2, &[text("b")])], 100);
    let rows = decode_leaf_page(&page, 100).unwrap();
    assert_eq!(
        rows,
        vec![vec![DataValue::Text("a".to_string())], vec![DataValue::Text("b".to_string())]]
    );
}

#[test]
fn pointer_before_buffer_start_is_decode_error() {
    let mut page = leaf_page(&[cell(1, &[text("a")])], 100);
    page[8..10].copy_from_slice(&50u16.to_be_bytes());
    assert_eq!(decode_leaf_page(&page, 100), Err(DbError::Decode));
}

#[test]
fn empty_leaf_page() {
    let page = leaf_page(&[], 0);
    assert_eq!(decode_leaf_page(&page, 0), Ok(vec![]));
    assert_eq!(decode_leaf_page(&page[..4], 0), Err(DbError::Decode));
}

#[test]
fn truncated_pointer_array_is_decode_error() {
    let mut page = vec![0u8; 9];
    page[4] = 1;
    assert_eq!(decode_leaf_page(&page, 0), Err(DbError::Decode));
}

#[test]
fn header_shorter_than_its_length_varint() {
    // header length 0 cannot hold its own varint
    let bytes = vec![2, 1, 0, 0];
    assert_eq!(decode_cell(&bytes, 0), Err(DbError::Decode));
}

#[test]
fn header_past_end_of_page() {
    let bytes = vec![3, 1, 9, 13];
    assert_eq!(decode_cell(&bytes, 0), Err(DbError::Decode));
}

#[test]
fn value_past_end_of_page() {
    // a text column of width 5 with two bytes left
    let bytes = vec![5, 1, 2, 23, b'a', b'b'];
    assert_eq!(decode_cell(&bytes, 0), Err(DbError::Decode));
}

#[test]
fn cell_with_multi_byte_row_id() {
    let bytes = vec![4, 0x81, 0x00, 2, 15, b'z'];
    assert_eq!(decode_cell(&bytes, 0), Ok(vec![DataValue::Text("z".to_string())]));
}
