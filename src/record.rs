//! Decoding of leaf table pages: the cell-pointer array, each cell's header of
//! serial type codes, and the column values that follow it.
use crate::error::DbError;
use crate::varint::{decode_varint_at, varint_spec};
use vstd::prelude::*;
use vstd::utf8::{decode_utf8, valid_utf8};

verus! {

/// Storage class of one column, as named by its serial type code.
#[derive(Debug, Clone, Copy, PartialEq, Eq, Structural)]
pub enum DataType {
    Null,
    Text,
    Int8,
    Int16,
    Int24,
    Int32,
    Int48,
    Int64,
    /// A code that is read past but not materialised (blobs, codes 7 to 11).
    Unrecognized,
}

/// One decoded column value.
#[derive(Debug, Clone, PartialEq, Eq)]
pub enum DataValue {
    Null,
    Text(String),
    Int(i64),
    Unrecognized,
}

/// The mathematical value of a column.
pub enum ValueModel {
    Null,
    Text(Seq<char>),
    Int(int),
    Unrecognized,
}

impl View for DataValue {
    type V = ValueModel;

    open spec fn view(&self) -> ValueModel {
        match self {
            DataValue::Null => ValueModel::Null,
            DataValue::Text(s) => ValueModel::Text(s@),
            DataValue::Int(v) => ValueModel::Int(*v as int),
            DataValue::Unrecognized => ValueModel::Unrecognized,
        }
    }
}

/// A row as a sequence of column values.
pub open spec fn row_view(row: Seq<DataValue>) -> Seq<ValueModel> {
    row.map_values(|v: DataValue| v@)
}

/// Rows as sequences of column values.
pub open spec fn rows_view(rows: Seq<Vec<DataValue>>) -> Seq<Seq<ValueModel>> {
    rows.map_values(|r: Vec<DataValue>| row_view(r@))
}

/// The storage class and byte width that a serial type code names.
pub open spec fn type_def_spec(code: u64) -> (DataType, u64) {
    if code == 0 {
        (DataType::Null, 0)
    } else if code == 1 {
        (DataType::Int8, 1)
    } else if code == 2 {
        (DataType::Int16, 2)
    } else if code == 3 {
        (DataType::Int24, 3)
    } else if code == 4 {
        (DataType::Int32, 4)
    } else if code == 5 {
        (DataType::Int48, 6)
    } else if code == 6 {
        (DataType::Int64, 8)
    } else if code < 12 {
        (DataType::Unrecognized, 0)
    } else if code % 2 == 0 {
        (DataType::Unrecognized, ((code - 12) / 2) as u64)
    } else {
        (DataType::Text, ((code - 13) / 2) as u64)
    }
}

/// Every single-byte integer column is one byte wide, as the type codes give it.
pub open spec fn types_well_formed(types: Seq<(DataType, u64)>) -> bool {
    forall|j: int| 0 <= j < types.len() ==> (types[j].0 is Int8 ==> types[j].1 == 1)
}

/// The varint that starts at `pos` and may run up to `end`.
pub open spec fn varint_in(p: Seq<u8>, pos: nat, end: nat) -> Option<(nat, nat)> {
    if pos <= end <= p.len() {
        varint_spec(p.subrange(pos as int, end as int))
    } else {
        None
    }
}

/// The type descriptors of a record header that occupies `p[cur..end]`,
/// appended to `acc`; `None` when a type code runs past `end`.
pub open spec fn header_types(p: Seq<u8>, cur: nat, end: nat, acc: Seq<(DataType, u64)>) -> Option<
    Seq<(DataType, u64)>,
>
    decreases end - cur,
{
    if cur >= end {
        Some(acc)
    } else {
        match varint_in(p, cur, end) {
            None => None,
            Some((code, n)) => if n == 0 {
                None
            } else {
                header_types(p, cur + n, end, acc.push(type_def_spec(code as u64)))
            },
        }
    }
}

/// A signed byte read from its two's complement bits.
pub open spec fn signed_byte(b: u8) -> int {
    if b < 128 {
        b as int
    } else {
        b as int - 256
    }
}

/// The value of a column of type `t` stored in `bytes`; `None` for text that
/// is not UTF-8.
pub open spec fn column_value(t: DataType, bytes: Seq<u8>) -> Option<ValueModel> {
    match t {
        DataType::Null => Some(ValueModel::Null),
        DataType::Text => if valid_utf8(bytes) {
            Some(ValueModel::Text(decode_utf8(bytes)))
        } else {
            None
        },
        DataType::Int8 => Some(ValueModel::Int(signed_byte(bytes[0]))),
        _ => Some(ValueModel::Unrecognized),
    }
}

/// The column values for `types[i..]`, stored back to back from `cur`,
/// appended to `acc`; `None` when one runs past the page or is bad text.
pub open spec fn row_values(
    p: Seq<u8>,
    types: Seq<(DataType, u64)>,
    i: nat,
    cur: nat,
    acc: Seq<ValueModel>,
) -> Option<Seq<ValueModel>>
    decreases types.len() - i,
{
    if i >= types.len() {
        Some(acc)
    } else {
        let (t, w) = types[i as int];
        if cur + w > p.len() {
            None
        } else {
            match column_value(t, p.subrange(cur as int, cur + w)) {
                None => None,
                Some(v) => row_values(p, types, i + 1, (cur + w) as nat, acc.push(v)),
            }
        }
    }
}

/// The row stored in the cell at `pos`: payload length, row id, header length
/// (which counts its own varint), type codes, then the values.
pub open spec fn cell_spec(p: Seq<u8>, pos: nat) -> Option<Seq<ValueModel>> {
    match varint_in(p, pos, p.len()) {
        None => None,
        Some((_, n1)) => match varint_in(p, pos + n1, p.len()) {
            None => None,
            Some((_, n2)) => {
                let hpos = pos + n1 + n2;
                match varint_in(p, hpos, p.len()) {
                    None => None,
                    Some((h, n3)) => if h < n3 || hpos + h > p.len() {
                        None
                    } else {
                        match header_types(p, hpos + n3, hpos + h, seq![]) {
                            None => None,
                            Some(types) => row_values(p, types, 0, hpos + h, seq![]),
                        }
                    },
                }
            },
        },
    }
}

/// The big-endian 16-bit number at `p[i..i + 2]`.
pub open spec fn be16(p: Seq<u8>, i: nat) -> nat {
    (p[i as int] * 256 + p[i + 1int]) as nat
}

/// Number of cells on a page.
pub open spec fn cell_count(p: Seq<u8>) -> nat {
    be16(p, 3)
}

/// The rows of cells `i..` of a page whose buffer starts `start` bytes into
/// the page, appended to `acc`.
pub open spec fn page_rows(p: Seq<u8>, start: nat, i: nat, acc: Seq<Seq<ValueModel>>) -> Option<
    Seq<Seq<ValueModel>>,
>
    decreases cell_count(p) - i,
{
    if i >= cell_count(p) {
        Some(acc)
    } else if 10 + 2 * i > p.len() {
        None
    } else {
        let ptr = be16(p, 8 + 2 * i);
        if ptr < start {
            None
        } else {
            match cell_spec(p, (ptr - start) as nat) {
                None => None,
                Some(row) => page_rows(p, start, i + 1, acc.push(row)),
            }
        }
    }
}

/// The rows of a leaf table page, in the order of its cell-pointer array.
/// `start` is how far into the page the buffer begins: cell pointers count
/// from the page's true start.
pub open spec fn leaf_page_spec(p: Seq<u8>, start: nat) -> Option<Seq<Seq<ValueModel>>> {
    if p.len() < 5 {
        None
    } else {
        page_rows(p, start, 0, seq![])
    }
}

/// Relies on std::str::from_utf8: it accepts exactly the well-formed UTF-8
/// byte strings, and the text is the characters they encode.
#[verifier::external_body]
fn text_from_utf8(bytes: &[u8]) -> (r: Option<String>)
    ensures
        r is Some <==> valid_utf8(bytes@),
        r matches Some(s) ==> s@ == decode_utf8(bytes@),
{
    match std::str::from_utf8(bytes) {
        Ok(s) => Some(s.to_owned()),
        Err(_) => None,
    }
}

/// The storage class and byte width that a serial type code names.
pub fn get_type_definition(type_code: u64) -> (r: (DataType, u64))
    ensures
        r == type_def_spec(type_code),
{
    match type_code {
        0 => (DataType::Null, 0),
        1 => (DataType::Int8, 1),
        2 => (DataType::Int16, 2),
        3 => (DataType::Int24, 3),
        4 => (DataType::Int32, 4),
        5 => (DataType::Int48, 6),
        6 => (DataType::Int64, 8),
        7..=11 => (DataType::Unrecognized, 0),
        _ => {
            if type_code % 2 == 0 {
                (DataType::Unrecognized, (type_code - 12) / 2)
            } else {
                (DataType::Text, (type_code - 13) / 2)
            }
        },
    }
}

fn read_be16(bytes: &[u8], i: usize) -> (r: u16)
    requires
        i + 1 < bytes@.len(),
    ensures
        r as nat == be16(bytes@, i as nat),
{
    (bytes[i] as u16) * 256 + bytes[i + 1] as u16
}

/// Decodes the type descriptors of a record header held in `bytes[start..end]`.
fn decode_header(bytes: &[u8], start: usize, end: usize) -> (r: Result<Vec<(DataType, u64)>, DbError>)
    requires
        start <= end <= bytes@.len(),
    ensures
        r is Ok <==> header_types(bytes@, start as nat, end as nat, seq![]) is Some,
        r is Err ==> r == Err::<Vec<(DataType, u64)>, DbError>(DbError::Decode),
        r matches Ok(ts) ==> header_types(bytes@, start as nat, end as nat, seq![]) == Some(ts@)
            && types_well_formed(ts@),
{
    let mut types: Vec<(DataType, u64)> = Vec::new();
    let mut cur: usize = start;
    while cur < end
        invariant
            start <= cur <= end <= bytes@.len(),
            header_types(bytes@, cur as nat, end as nat, types@) == header_types(
                bytes@,
                start as nat,
                end as nat,
                seq![],
            ),
            types_well_formed(types@),
        decreases end - cur,
    {
        match decode_varint_at(bytes, cur, end) {
            Ok((code, n)) => {
                types.push(get_type_definition(code));
                cur = cur + n;
            },
            Err(e) => {
                return Err(e);
            },
        }
    }
    Ok(types)
}

/// Decodes the column values for `types`, stored back to back from `start`.
fn decode_values(bytes: &[u8], types: &Vec<(DataType, u64)>, start: usize) -> (r: Result<
    Vec<DataValue>,
    DbError,
>)
    requires
        start <= bytes@.len(),
        types_well_formed(types@),
    ensures
        r is Ok <==> row_values(bytes@, types@, 0, start as nat, seq![]) is Some,
        r is Err ==> r == Err::<Vec<DataValue>, DbError>(DbError::Decode),
        r matches Ok(vs) ==> row_values(bytes@, types@, 0, start as nat, seq![]) == Some(
            row_view(vs@),
        ),
{
    let mut values: Vec<DataValue> = Vec::new();
    let mut cur: usize = start;
    let mut i: usize = 0;
    assert(row_view(values@) == Seq::<ValueModel>::empty());
    while i < types.len()
        invariant
            i <= types@.len(),
            start <= cur <= bytes@.len(),
            types_well_formed(types@),
            row_values(bytes@, types@, i as nat, cur as nat, row_view(values@)) == row_values(
                bytes@,
                types@,
                0,
                start as nat,
                seq![],
            ),
        decreases types.len() - i,
    {
        let (t, w) = types[i];
        if w > (bytes.len() - cur) as u64 {
            return Err(DbError::Decode);
        }
        let end = cur + w as usize;
        let ghost old_values = values@;
        let v = match t {
            DataType::Null => DataValue::Null,
            DataType::Text => {
                let slice = vstd::slice::slice_subrange(bytes, cur, end);
                match text_from_utf8(slice) {
                    Some(s) => DataValue::Text(s),
                    None => {
                        return Err(DbError::Decode);
                    },
                }
            },
            DataType::Int8 => {
                let b = bytes[cur];
                let x: i64 = if b < 128 {
                    b as i64
                } else {
                    b as i64 - 256
                };
                DataValue::Int(x)
            },
            _ => DataValue::Unrecognized,
        };
        assert(column_value(t, bytes@.subrange(cur as int, end as int)) == Some(v@));
        values.push(v);
        assert(row_view(values@) =~= row_view(old_values).push(v@));
        cur = end;
        i = i + 1;
    }
    Ok(values)
}

/// Decodes the row stored in the cell that starts at `pos`.
pub fn decode_cell(bytes: &[u8], pos: usize) -> (r: Result<Vec<DataValue>, DbError>)
    ensures
        r is Ok <==> cell_spec(bytes@, pos as nat) is Some,
        r is Err ==> r == Err::<Vec<DataValue>, DbError>(DbError::Decode),
        r matches Ok(vs) ==> cell_spec(bytes@, pos as nat) == Some(row_view(vs@)),
{
    let len = bytes.len();
    if pos > len {
        return Err(DbError::Decode);
    }
    let n1 = match decode_varint_at(bytes, pos, len) {
        Ok((_, n)) => n,
        Err(e) => {
            return Err(e);
        },
    };
    let n2 = match decode_varint_at(bytes, pos + n1, len) {
        Ok((_, n)) => n,
        Err(e) => {
            return Err(e);
        },
    };
    let hpos = pos + n1 + n2;
    let (h, n3) = match decode_varint_at(bytes, hpos, len) {
        Ok(x) => x,
        Err(e) => {
            return Err(e);
        },
    };
    if h < n3 as u64 || h > (len - hpos) as u64 {
        return Err(DbError::Decode);
    }
    let hend = hpos + h as usize;
    let types = match decode_header(bytes, hpos + n3, hend) {
        Ok(ts) => ts,
        Err(e) => {
            return Err(e);
        },
    };
    decode_values(bytes, &types, hend)
}

/// Decodes every row of a leaf table page, in the order of its cell-pointer
/// array. `start_offset` is how far into the page `bytes` begins (the file
/// header's length on page 1, else zero); cell pointers count from the page's
/// true start.
pub fn decode_leaf_page(bytes: &[u8], start_offset: usize) -> (r: Result<
    Vec<Vec<DataValue>>,
    DbError,
>)
    ensures
        r is Ok <==> leaf_page_spec(bytes@, start_offset as nat) is Some,
        r is Err ==> r == Err::<Vec<Vec<DataValue>>, DbError>(DbError::Decode),
        r matches Ok(rows) ==> leaf_page_spec(bytes@, start_offset as nat) == Some(
            rows_view(rows@),
        ),
{
    if bytes.len() < 5 {
        return Err(DbError::Decode);
    }
    let count = read_be16(bytes, 3) as usize;
    let mut rows: Vec<Vec<DataValue>> = Vec::new();
    let mut i: usize = 0;
    assert(rows_view(rows@) == Seq::<Seq<ValueModel>>::empty());
    while i < count
        invariant
            bytes@.len() >= 5,
            count == cell_count(bytes@),
            i <= count,
            page_rows(bytes@, start_offset as nat, i as nat, rows_view(rows@)) == leaf_page_spec(
                bytes@,
                start_offset as nat,
            ),
        decreases count - i,
    {
        if 10 + 2 * i > bytes.len() {
            return Err(DbError::Decode);
        }
        let ptr = read_be16(bytes, 8 + 2 * i) as usize;
        if ptr < start_offset {
            return Err(DbError::Decode);
        }
        let row = match decode_cell(bytes, ptr - start_offset) {
            Ok(row) => row,
            Err(e) => {
                return Err(e);
            },
        };
        let ghost old_rows = rows@;
        rows.push(row);
        assert(rows_view(rows@) =~= rows_view(old_rows).push(row_view(row@)));
        i = i + 1;
    }
    Ok(rows)
}

} // verus!
