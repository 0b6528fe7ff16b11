//! Column definitions, decoded column values and the fixed-size column codec.

use vstd::prelude::*;

use crate::bytes::{
    le16_at, le32_at, le64_at, lemma_le16_round_trip, lemma_le32_round_trip,
    lemma_le64_round_trip, u16_at, u16_le_bytes, u32_at, u32_le_bytes, u64_at, u64_le_bytes,
};
use crate::coltyp;

verus! {

/// A column definition from the ESE catalog.
#[derive(Debug, Clone)]
pub struct ColumnDef {
    /// 1-based column identifier (matches ESE catalog `column_id`).
    pub column_id: u32,
    /// Human-readable column name.
    pub name: String,
    /// JET column type code (see [`coltyp`] constants).
    pub coltyp: u8,
}

/// A decoded ESE column value.
///
/// Floating-point columns are carried as their IEEE-754 bit patterns:
/// `F32` holds the bits of an `f32`, `F64` those of an `f64`, and `DateTime`
/// those of the `f64` OLE Automation Date (days since 1899-12-30).
#[derive(Debug, Clone, PartialEq)]
pub enum EseValue {
    Null,
    Bool(bool),
    U8(u8),
    I16(i16),
    I32(i32),
    I64(i64),
    U16(u16),
    U32(u32),
    U64(u64),
    F32(u32),
    F64(u64),
    DateTime(u64),
    Binary(Vec<u8>),
    Text(String),
    Guid([u8; 16]),
}

/// The mathematical content of an [`EseValue`].
pub enum ValueModel {
    Null,
    Bool(bool),
    U8(u8),
    I16(i16),
    I32(i32),
    I64(i64),
    U16(u16),
    U32(u32),
    U64(u64),
    F32(u32),
    F64(u64),
    DateTime(u64),
    Binary(Seq<u8>),
    Text(Seq<char>),
    Guid(Seq<u8>),
}

impl View for EseValue {
    type V = ValueModel;

    open spec fn view(&self) -> ValueModel {
        match self {
            EseValue::Null => ValueModel::Null,
            EseValue::Bool(b) => ValueModel::Bool(*b),
            EseValue::U8(v) => ValueModel::U8(*v),
            EseValue::I16(v) => ValueModel::I16(*v),
            EseValue::I32(v) => ValueModel::I32(*v),
            EseValue::I64(v) => ValueModel::I64(*v),
            EseValue::U16(v) => ValueModel::U16(*v),
            EseValue::U32(v) => ValueModel::U32(*v),
            EseValue::U64(v) => ValueModel::U64(*v),
            EseValue::F32(v) => ValueModel::F32(*v),
            EseValue::F64(v) => ValueModel::F64(*v),
            EseValue::DateTime(v) => ValueModel::DateTime(*v),
            EseValue::Binary(v) => ValueModel::Binary(v@),
            EseValue::Text(s) => ValueModel::Text(s@),
            EseValue::Guid(g) => ValueModel::Guid(g@),
        }
    }
}

/// A decoded `(column name, value)` pair, as mathematical values.
pub type EntryModel = (Seq<char>, ValueModel);

/// The model of one decoded `(name, value)` pair.
pub open spec fn entry_model(e: (String, EseValue)) -> EntryModel {
    (e.0@, e.1@)
}

/// The model of a list of decoded `(name, value)` pairs.
pub open spec fn entries_model(v: Seq<(String, EseValue)>) -> Seq<EntryModel> {
    v.map_values(|e: (String, EseValue)| entry_model(e))
}

pub proof fn lemma_entries_model_push(v: Seq<(String, EseValue)>, e: (String, EseValue))
    ensures
        entries_model(v.push(e)) == entries_model(v).push(entry_model(e)),
{
    assert(entries_model(v.push(e)) =~= entries_model(v).push(entry_model(e)));
}

/// The on-disk size of a fixed-length column type; `None` for
/// variable-length (Binary, Text), tagged (`LongBinary`, `LongText`) and
/// unknown types.
pub open spec fn fixed_size(t: u8) -> Option<usize> {
    if t == coltyp::BIT || t == coltyp::UNSIGNED_BYTE {
        Some(1)
    } else if t == coltyp::SHORT || t == coltyp::UNSIGNED_SHORT {
        Some(2)
    } else if t == coltyp::LONG || t == coltyp::UNSIGNED_LONG || t == coltyp::IEEE_SINGLE {
        Some(4)
    } else if t == coltyp::CURRENCY || t == coltyp::IEEE_DOUBLE || t == coltyp::DATE_TIME || t
        == coltyp::LONG_LONG || t == coltyp::UNSIGNED_LONG_LONG {
        Some(8)
    } else if t == coltyp::GUID {
        Some(16)
    } else {
        None
    }
}

/// Return the fixed byte size for a fixed-length coltyp, or `None` for
/// variable-length (Binary, Text) and tagged (`LongBinary`, `LongText`) types.
pub fn fixed_col_size(coltyp: u8) -> (r: Option<usize>)
    ensures
        r == fixed_size(coltyp),
{
    if coltyp == coltyp::BIT || coltyp == coltyp::UNSIGNED_BYTE {
        Some(1)
    } else if coltyp == coltyp::SHORT || coltyp == coltyp::UNSIGNED_SHORT {
        Some(2)
    } else if coltyp == coltyp::LONG || coltyp == coltyp::UNSIGNED_LONG || coltyp
        == coltyp::IEEE_SINGLE {
        Some(4)
    } else if coltyp == coltyp::CURRENCY || coltyp == coltyp::IEEE_DOUBLE || coltyp
        == coltyp::DATE_TIME || coltyp == coltyp::LONG_LONG || coltyp
        == coltyp::UNSIGNED_LONG_LONG {
        Some(8)
    } else if coltyp == coltyp::GUID {
        Some(16)
    } else {
        None
    }
}

/// The value of a fixed-length column of type `t` stored little-endian at the
/// start of `d`; an unknown type keeps all of `d` as binary.
pub open spec fn fixed_value(d: Seq<u8>, t: u8) -> ValueModel {
    if t == coltyp::BIT {
        ValueModel::Bool(d[0] != 0)
    } else if t == coltyp::UNSIGNED_BYTE {
        ValueModel::U8(d[0])
    } else if t == coltyp::SHORT {
        ValueModel::I16(le16_at(d, 0) as i16)
    } else if t == coltyp::UNSIGNED_SHORT {
        ValueModel::U16(le16_at(d, 0))
    } else if t == coltyp::LONG {
        ValueModel::I32(le32_at(d, 0) as i32)
    } else if t == coltyp::UNSIGNED_LONG {
        ValueModel::U32(le32_at(d, 0))
    } else if t == coltyp::IEEE_SINGLE {
        ValueModel::F32(le32_at(d, 0))
    } else if t == coltyp::CURRENCY || t == coltyp::LONG_LONG {
        ValueModel::I64(le64_at(d, 0) as i64)
    } else if t == coltyp::UNSIGNED_LONG_LONG {
        ValueModel::U64(le64_at(d, 0))
    } else if t == coltyp::IEEE_DOUBLE {
        ValueModel::F64(le64_at(d, 0))
    } else if t == coltyp::DATE_TIME {
        ValueModel::DateTime(le64_at(d, 0))
    } else if t == coltyp::GUID {
        ValueModel::Guid(d.subrange(0, 16))
    } else {
        ValueModel::Binary(d)
    }
}

/// A BIT column holding byte `b` is true exactly when `b` is not zero, and a
/// fixed-length column holding the little-endian bytes of a value decodes
/// to that value, for every integer type (signed ones through their
/// two's-complement bits), the bit patterns of the floating-point types, and
/// the 16 bytes of a GUID.
pub proof fn law_fixed_values_round_trip(
    b: u8,
    s: i16,
    us: u16,
    l: i32,
    ul: u32,
    ll: i64,
    ull: u64,
    g: Seq<u8>,
)
    requires
        g.len() == 16,
    ensures
        fixed_value(seq![b], coltyp::BIT) == ValueModel::Bool(b != 0),
        fixed_value(seq![b], coltyp::UNSIGNED_BYTE) == ValueModel::U8(b),
        fixed_value(u16_le_bytes(s as u16), coltyp::SHORT) == ValueModel::I16(s),
        fixed_value(u16_le_bytes(us), coltyp::UNSIGNED_SHORT) == ValueModel::U16(us),
        fixed_value(u32_le_bytes(l as u32), coltyp::LONG) == ValueModel::I32(l),
        fixed_value(u32_le_bytes(ul), coltyp::UNSIGNED_LONG) == ValueModel::U32(ul),
        fixed_value(u32_le_bytes(ul), coltyp::IEEE_SINGLE) == ValueModel::F32(ul),
        fixed_value(u64_le_bytes(ll as u64), coltyp::LONG_LONG) == ValueModel::I64(ll),
        fixed_value(u64_le_bytes(ll as u64), coltyp::CURRENCY) == ValueModel::I64(ll),
        fixed_value(u64_le_bytes(ull), coltyp::UNSIGNED_LONG_LONG) == ValueModel::U64(ull),
        fixed_value(u64_le_bytes(ull), coltyp::IEEE_DOUBLE) == ValueModel::F64(ull),
        fixed_value(u64_le_bytes(ull), coltyp::DATE_TIME) == ValueModel::DateTime(ull),
        fixed_value(g, coltyp::GUID) == ValueModel::Guid(g),
{
    lemma_le16_round_trip(s as u16);
    lemma_le16_round_trip(us);
    lemma_le32_round_trip(l as u32);
    lemma_le32_round_trip(ul);
    lemma_le64_round_trip(ll as u64);
    lemma_le64_round_trip(ull);
    assert(((s as u16) as i16) == s) by (bit_vector);
    assert(((l as u32) as i32) == l) by (bit_vector);
    assert(((ll as u64) as i64) == ll) by (bit_vector);
    assert(g.subrange(0, 16) =~= g);
}

/// Decode one fixed-length column value from `data` (at least
/// `fixed_col_size` bytes).
pub fn decode_fixed(data: &[u8], coltyp: u8) -> (v: EseValue)
    requires
        fixed_size(coltyp) matches Some(n) ==> n <= data@.len(),
    ensures
        v@ == fixed_value(data@, coltyp),
{
    if coltyp == coltyp::BIT {
        EseValue::Bool(data[0] != 0)
    } else if coltyp == coltyp::UNSIGNED_BYTE {
        EseValue::U8(data[0])
    } else if coltyp == coltyp::SHORT {
        EseValue::I16(u16_at(data, 0) as i16)
    } else if coltyp == coltyp::UNSIGNED_SHORT {
        EseValue::U16(u16_at(data, 0))
    } else if coltyp == coltyp::LONG {
        EseValue::I32(u32_at(data, 0) as i32)
    } else if coltyp == coltyp::UNSIGNED_LONG {
        EseValue::U32(u32_at(data, 0))
    } else if coltyp == coltyp::IEEE_SINGLE {
        EseValue::F32(u32_at(data, 0))
    } else if coltyp == coltyp::CURRENCY || coltyp == coltyp::LONG_LONG {
        EseValue::I64(u64_at(data, 0) as i64)
    } else if coltyp == coltyp::UNSIGNED_LONG_LONG {
        EseValue::U64(u64_at(data, 0))
    } else if coltyp == coltyp::IEEE_DOUBLE {
        EseValue::F64(u64_at(data, 0))
    } else if coltyp == coltyp::DATE_TIME {
        EseValue::DateTime(u64_at(data, 0))
    } else if coltyp == coltyp::GUID {
        let g: [u8; 16] = [
            data[0],
            data[1],
            data[2],
            data[3],
            data[4],
            data[5],
            data[6],
            data[7],
            data[8],
            data[9],
            data[10],
            data[11],
            data[12],
            data[13],
            data[14],
            data[15],
        ];
        assert(g@ =~= data@.subrange(0, 16));
        EseValue::Guid(g)
    } else {
        EseValue::Binary(vstd::slice::slice_to_vec(data))
    }
}

/// Some column of `cols[i..]` is named `name`.
pub open spec fn names_column(cols: Seq<ColumnDef>, i: int, name: Seq<char>) -> bool {
    exists|j: int| i <= j < cols.len() && #[trigger] cols[j].name@ == name
}

/// Every entry of `out` carries the name of one of `cols[i..]`.
pub open spec fn named_after(out: Seq<EntryModel>, cols: Seq<ColumnDef>, i: int) -> bool {
    forall|k: int| 0 <= k < out.len() ==> names_column(cols, i, #[trigger] out[k].0)
}

/// A column's entry put before entries named after later columns is named
/// after a column from its own on.
pub proof fn lemma_named_after_cons(e: EntryModel, rest: Seq<EntryModel>, cols: Seq<ColumnDef>, i: int)
    requires
        0 <= i < cols.len(),
        e.0 == cols[i].name@,
        named_after(rest, cols, i + 1),
    ensures
        named_after(seq![e] + rest, cols, i),
{
    let out = seq![e] + rest;
    assert forall|k: int| 0 <= k < out.len() implies names_column(cols, i, #[trigger] out[k].0) by {
        if k == 0 {
            assert(cols[i].name@ == out[k].0);
        } else {
            assert(out[k] == rest[k - 1]);
            assert(names_column(cols, i + 1, rest[k - 1].0));
            let j = choose|j: int| i + 1 <= j < cols.len() && #[trigger] cols[j].name@ == rest[k - 1].0;
            assert(cols[j].name@ == out[k].0);
        }
    }
}

/// Entries named after later columns are named after earlier ones too.
pub proof fn lemma_named_after_weaken(out: Seq<EntryModel>, cols: Seq<ColumnDef>, i: int)
    requires
        named_after(out, cols, i + 1),
    ensures
        named_after(out, cols, i),
{
    assert forall|k: int| 0 <= k < out.len() implies names_column(cols, i, #[trigger] out[k].0) by {
        assert(names_column(cols, i + 1, out[k].0));
        let j = choose|j: int| i + 1 <= j < cols.len() && #[trigger] cols[j].name@ == out[k].0;
        assert(cols[j].name@ == out[k].0);
    }
}

/// Two lists of entries each named after columns give a named concatenation.
pub proof fn lemma_named_after_concat(a: Seq<EntryModel>, b: Seq<EntryModel>, cols: Seq<ColumnDef>)
    requires
        named_after(a, cols, 0),
        named_after(b, cols, 0),
    ensures
        named_after(a + b, cols, 0),
{
    let out = a + b;
    assert forall|k: int| 0 <= k < out.len() implies names_column(cols, 0, #[trigger] out[k].0) by {
        if k < a.len() {
            assert(out[k] == a[k]);
        } else {
            assert(out[k] == b[k - a.len()]);
        }
    }
}

} // verus!
