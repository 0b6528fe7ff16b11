//! Record decoding: the legacy fixture layout and real data-definition
//! records, fixed-size column types.

use ese_core::{coltyp, decode_ese_record, decode_record, fixed_col_size, ColumnDef, EseValue};

fn col(column_id: u32, name: &str, coltyp: u8) -> ColumnDef {
    ColumnDef {
        column_id,
        name: name.to_string(),
        coltyp,
    }
}

#[test]
fn fixed_sizes_by_type() {
    assert_eq!(fixed_col_size(coltyp::BIT), Some(1));
    assert_eq!(fixed_col_size(coltyp::UNSIGNED_BYTE), Some(1));
    assert_eq!(fixed_col_size(coltyp::SHORT), Some(2));
    assert_eq!(fixed_col_size(coltyp::UNSIGNED_SHORT), Some(2));
    assert_eq!(fixed_col_size(coltyp::LONG), Some(4));
    assert_eq!(fixed_col_size(coltyp::UNSIGNED_LONG), Some(4));
    assert_eq!(fixed_col_size(coltyp::IEEE_SINGLE), Some(4));
    assert_eq!(fixed_col_size(coltyp::CURRENCY), Some(8));
    assert_eq!(fixed_col_size(coltyp::IEEE_DOUBLE), Some(8));
    assert_eq!(fixed_col_size(coltyp::DATE_TIME), Some(8));
    assert_eq!(fixed_col_size(coltyp::LONG_LONG), Some(8));
    assert_eq!(fixed_col_size(coltyp::UNSIGNED_LONG_LONG), Some(8));
    assert_eq!(fixed_col_size(coltyp::GUID), Some(16));
    assert_eq!(fixed_col_size(coltyp::BINARY), None);
    assert_eq!(fixed_col_size(coltyp::TEXT), None);
    assert_eq!(fixed_col_size(coltyp::LONG_BINARY), None);
    assert_eq!(fixed_col_size(coltyp::LONG_TEXT), None);
    assert_eq!(fixed_col_size(0), None);
    assert_eq!(fixed_col_size(200), None);
}

#[test]
fn legacy_short_record_is_corrupt() {
    let cols = vec![col(1, "a", coltyp::LONG)];
    assert!(decode_record(&[1, 0, 4], &cols).is_err());
    assert!(decode_record(&[], &cols).is_err());
}

#[test]
fn legacy_fixed_columns_are_packed_in_id_order() {
    let cols = vec![
        col(1, "a", coltyp::LONG),
        col(2, "b", coltyp::SHORT),
        col(3, "c", coltyp::UNSIGNED_BYTE),
    ];
    // last fixed id 2: column 3 is absent.
    let data = [2u8, 0, 0, 0, 0xFE, 0xFF, 0xFF, 0xFF, 7, 0, 9];
    let out = decode_record(&data, &cols).unwrap();
    assert_eq!(
        out,
        vec![("a".to_string(), EseValue::I32(-2)), ("b".to_string(), EseValue::I16(7))]
    );
}

#[test]
fn legacy_fixed_column_past_the_data_stops_the_pass() {
    let cols = vec![col(1, "a", coltyp::LONG_LONG)];
    let data = [1u8, 0, 0, 0, 1, 2, 3];
    assert!(decode_record(&data, &cols).unwrap().is_empty());
}

#[test]
fn legacy_id_gap_stops_the_fixed_pass() {
    // Column 2 has no definition, so the slot of column 3 cannot be located.
    let cols = vec![col(1, "a", coltyp::UNSIGNED_BYTE), col(3, "c", coltyp::UNSIGNED_BYTE)];
    let data = [3u8, 0, 0, 0, 10, 20, 30];
    let out = decode_record(&data, &cols).unwrap();
    assert_eq!(out, vec![("a".to_string(), EseValue::U8(10))]);
}

#[test]
fn legacy_variable_columns_with_null() {
    // no fixed columns, 3 variable columns, variable data at 10 with the
    // end-offset array right before it (bytes 4..10).
    let mut data = vec![0u8, 3, 10, 0];
    data.extend_from_slice(&2u16.to_le_bytes()); // "hi"
    data.extend_from_slice(&0x8002u16.to_le_bytes()); // NULL
    data.extend_from_slice(&5u16.to_le_bytes()); // bytes 2..5
    data.extend_from_slice(b"hi");
    data.extend_from_slice(&[1, 2, 3]);
    let cols = vec![
        col(1, "t", coltyp::TEXT),
        col(2, "n", coltyp::BINARY),
        col(3, "b", coltyp::LONG_BINARY),
        col(4, "x", coltyp::BINARY),
    ];
    let out = decode_record(&data, &cols).unwrap();
    assert_eq!(
        out,
        vec![
            ("t".to_string(), EseValue::Text("hi".to_string())),
            ("b".to_string(), EseValue::Binary(vec![1, 2, 3])),
        ]
    );
}

#[test]
fn legacy_end_offsets_are_relative_to_the_variable_data() {
    let data = [0u8, 1, 6, 0, 2, 0, 0x68, 0x69];
    let cols = vec![col(1, "v", coltyp::TEXT)];
    let out = decode_record(&data, &cols).unwrap();
    assert_eq!(out, vec![("v".to_string(), EseValue::Text("hi".to_string()))]);
}

#[test]
fn legacy_out_of_bounds_offsets_are_corrupt() {
    let cols = vec![col(1, "a", coltyp::UNSIGNED_BYTE), col(2, "t", coltyp::TEXT)];
    // Variable data offset past the record.
    assert!(decode_record(&[0u8, 1, 0xFF, 0], &cols).is_err());
    // Nine 2-byte end offsets do not fit between the header and offset 5.
    assert!(decode_record(&[1u8, 9, 5, 0, 42], &cols).is_err());
    // A column that ends past the record.
    assert!(decode_record(&[0u8, 1, 6, 0, 3, 0, 0x68, 0x69], &cols).is_err());
    // A NULL column's offset is not read.
    let out = decode_record(&[1u8, 1, 7, 0, 42, 0x09, 0x80], &cols).unwrap();
    assert_eq!(out, vec![("a".to_string(), EseValue::U8(42))]);
}

#[test]
fn legacy_no_variable_columns_ignores_the_variable_offset() {
    let cols = vec![col(1, "a", coltyp::UNSIGNED_BYTE), col(2, "t", coltyp::TEXT)];
    let out = decode_record(&[1u8, 0, 0xFF, 0xFF, 42], &cols).unwrap();
    assert_eq!(out, vec![("a".to_string(), EseValue::U8(42))]);
}

#[test]
fn every_fixed_type_decodes_little_endian() {
    let cols = vec![
        col(1, "bit", coltyp::BIT),
        col(2, "u16", coltyp::UNSIGNED_SHORT),
        col(3, "u32", coltyp::UNSIGNED_LONG),
        col(4, "f32", coltyp::IEEE_SINGLE),
        col(5, "cur", coltyp::CURRENCY),
        col(6, "u64", coltyp::UNSIGNED_LONG_LONG),
        col(7, "f64", coltyp::IEEE_DOUBLE),
        col(8, "dt", coltyp::DATE_TIME),
        col(9, "guid", coltyp::GUID),
    ];
    let mut rec = vec![9u8, 0, 0, 0];
    rec.push(2);
    rec.extend_from_slice(&0xBEEFu16.to_le_bytes());
    rec.extend_from_slice(&0xDEAD_BEEFu32.to_le_bytes());
    rec.extend_from_slice(&1.5f32.to_le_bytes());
    rec.extend_from_slice(&(-5i64).to_le_bytes());
    rec.extend_from_slice(&u64::MAX.to_le_bytes());
    rec.extend_from_slice(&2.25f64.to_le_bytes());
    rec.extend_from_slice(&45000.5f64.to_le_bytes());
    let guid: [u8; 16] = core::array::from_fn(|i| i as u8 + 1);
    rec.extend_from_slice(&guid);
    let out = decode_ese_record(&rec, &cols, false).unwrap();
    let values: Vec<EseValue> = out.into_iter().map(|(_, v)| v).collect();
    assert_eq!(
        values,
        vec![
            EseValue::Bool(true),
            EseValue::U16(0xBEEF),
            EseValue::U32(0xDEAD_BEEF),
            EseValue::F32(1.5f32.to_bits()),
            EseValue::I64(-5),
            EseValue::U64(u64::MAX),
            EseValue::F64(2.25f64.to_bits()),
            EseValue::DateTime(45000.5f64.to_bits()),
            EseValue::Guid(guid),
        ]
    );
}

#[test]
fn real_record_short_header_decodes_to_nothing() {
    let cols = vec![col(1, "a", coltyp::LONG)];
    assert!(decode_ese_record(&[1, 0], &cols, true).unwrap().is_empty());
}

#[test]
fn real_record_unsized_fixed_column_stops_the_fixed_pass() {
    let cols = vec![
        col(1, "a", coltyp::UNSIGNED_BYTE),
        col(2, "t", coltyp::TEXT),
        col(3, "c", coltyp::UNSIGNED_BYTE),
    ];
    let rec = [3u8, 0, 7, 0, 1, 2, 3];
    let out = decode_ese_record(&rec, &cols, false).unwrap();
    assert_eq!(out, vec![("a".to_string(), EseValue::U8(1))]);
}

fn variable_record() -> Vec<u8> {
    // last fixed 0, last variable id 130 (3 slots), end-offset array at 4.
    let mut rec = vec![0u8, 130, 4, 0];
    rec.extend_from_slice(&3u16.to_le_bytes()); // slot 0: "abc"
    rec.extend_from_slice(&0x8003u16.to_le_bytes()); // slot 1: NULL
    rec.extend_from_slice(&8u16.to_le_bytes()); // slot 2: bytes 3..8
    rec.extend_from_slice(b"abc");
    rec.extend_from_slice(b"xyz\0\0");
    rec
}

#[test]
fn real_record_variable_columns_by_id() {
    let cols = vec![
        col(130, "name", coltyp::TEXT),
        col(128, "raw", coltyp::BINARY),
        col(129, "gone", coltyp::BINARY),
        col(131, "absent", coltyp::BINARY),
    ];
    let out = decode_ese_record(&variable_record(), &cols, false).unwrap();
    assert_eq!(
        out,
        vec![
            ("name".to_string(), EseValue::Text("xyz".to_string())),
            ("raw".to_string(), EseValue::Binary(b"abc".to_vec())),
        ]
    );
}

fn tagged_record(entries: &[(u16, u16)], values: &[u8]) -> Vec<u8> {
    // No fixed or variable columns; the tagged region starts at byte 4.
    let mut rec = vec![0u8, 127, 4, 0];
    for (id, off) in entries {
        rec.extend_from_slice(&id.to_le_bytes());
        rec.extend_from_slice(&off.to_le_bytes());
    }
    rec.extend_from_slice(values);
    rec
}

#[test]
fn compact_tagged_values_without_flags_byte() {
    // Two entries (array of 8 bytes); values "AB" and "CDE".
    let rec = tagged_record(&[(256, 8), (300, 10)], b"ABCDE");
    let cols = vec![col(300, "second", coltyp::BINARY), col(256, "first", coltyp::BINARY)];
    let out = decode_ese_record(&rec, &cols, false).unwrap();
    assert_eq!(
        out,
        vec![
            ("second".to_string(), EseValue::Binary(b"CDE".to_vec())),
            ("first".to_string(), EseValue::Binary(b"AB".to_vec())),
        ]
    );
}

#[test]
fn compact_tagged_value_with_0x4000_bit_skips_the_flags_byte() {
    let rec = tagged_record(&[(256, 0x4000 | 4)], b"\x01Z");
    let cols = vec![col(256, "t", coltyp::LONG_BINARY)];
    let out = decode_ese_record(&rec, &cols, false).unwrap();
    assert_eq!(out, vec![("t".to_string(), EseValue::Binary(b"Z".to_vec()))]);
}

#[test]
fn tagged_column_without_entry_is_absent_and_empty_flagged_value_is_dropped() {
    // Entry 256 spans 0 bytes on the extended format: no flags byte, no value.
    let rec = tagged_record(&[(256, 8), (257, 8)], b"\x00Q");
    let cols = vec![
        col(256, "empty", coltyp::LONG_BINARY),
        col(257, "q", coltyp::LONG_BINARY),
        col(258, "missing", coltyp::LONG_BINARY),
    ];
    let out = decode_ese_record(&rec, &cols, true).unwrap();
    assert_eq!(out, vec![("q".to_string(), EseValue::Binary(b"Q".to_vec()))]);
}

#[test]
fn tagged_region_after_variable_data() {
    // One variable column (id 128, 2 bytes), then the tagged region.
    let mut rec = vec![0u8, 128, 4, 0];
    rec.extend_from_slice(&2u16.to_le_bytes());
    rec.extend_from_slice(b"vv");
    rec.extend_from_slice(&256u16.to_le_bytes());
    rec.extend_from_slice(&4u16.to_le_bytes());
    rec.extend_from_slice(&[0, b'h', 0, b'i', 0]);
    let cols = vec![col(128, "v", coltyp::BINARY), col(256, "url", coltyp::LONG_TEXT)];
    let out = decode_ese_record(&rec, &cols, true).unwrap();
    assert_eq!(
        out,
        vec![
            ("v".to_string(), EseValue::Binary(b"vv".to_vec())),
            ("url".to_string(), EseValue::Text("hi".to_string())),
        ]
    );
}

#[test]
fn garbage_never_yields_more_values_than_columns() {
    let cols = vec![
        col(1, "f", coltyp::LONG_LONG),
        col(128, "v", coltyp::TEXT),
        col(256, "t", coltyp::LONG_TEXT),
        col(256, "t2", coltyp::LONG_BINARY),
    ];
    let names: Vec<&str> = cols.iter().map(|c| c.name.as_str()).collect();
    for seed in 0u32..300 {
        let rec: Vec<u8> = (0..(seed % 61)).map(|i| (i * 37 + seed * 11) as u8).collect();
        for extended in [false, true] {
            let out = decode_ese_record(&rec, &cols, extended).unwrap();
            assert!(out.len() <= cols.len());
            assert!(out.iter().all(|(n, _)| names.contains(&n.as_str())));
        }
        if let Ok(out) = decode_record(&rec, &cols) {
            assert!(out.len() <= cols.len());
        }
    }
}

#[test]
fn fixed_values_round_trip_through_le_bytes() {
    for x in [0i16, 1, -1, i16::MIN, i16::MAX, 0x1234] {
        let mut rec = vec![1u8, 0, 0, 0];
        rec.extend_from_slice(&x.to_le_bytes());
        let out = decode_ese_record(&rec, &[col(1, "s", coltyp::SHORT)], false).unwrap();
        assert_eq!(out[0].1, EseValue::I16(x));
    }
    for x in [0i32, -7, i32::MIN, i32::MAX] {
        let mut rec = vec![1u8, 0, 0, 0];
        rec.extend_from_slice(&x.to_le_bytes());
        let out = decode_ese_record(&rec, &[col(1, "l", coltyp::LONG)], false).unwrap();
        assert_eq!(out[0].1, EseValue::I32(x));
    }
    for x in [0i64, -7, i64::MIN, i64::MAX] {
        let mut rec = vec![1u8, 0, 0, 0];
        rec.extend_from_slice(&x.to_le_bytes());
        let out = decode_ese_record(&rec, &[col(1, "c", coltyp::CURRENCY)], false).unwrap();
        assert_eq!(out[0].1, EseValue::I64(x));
    }
}

#[test]
fn tagged_columns_and_the_flag_only_change_the_tail() {
    let mut rec = vec![1u8, 128, 5, 0, 42];
    rec.extend_from_slice(&2u16.to_le_bytes());
    rec.extend_from_slice(b"vv");
    rec.extend_from_slice(&256u16.to_le_bytes());
    rec.extend_from_slice(&4u16.to_le_bytes());
    rec.extend_from_slice(&[0, b'Q']);
    let all = vec![
        col(1, "f", coltyp::UNSIGNED_BYTE),
        col(256, "t", coltyp::LONG_BINARY),
        col(128, "v", coltyp::BINARY),
    ];
    let untagged = vec![col(1, "f", coltyp::UNSIGNED_BYTE), col(128, "v", coltyp::BINARY)];
    let base = decode_ese_record(&rec, &untagged, true).unwrap();
    assert_eq!(base, decode_ese_record(&rec, &untagged, false).unwrap());
    let full = decode_ese_record(&rec, &all, true).unwrap();
    assert_eq!(full[..base.len()], base[..]);
    assert_eq!(full[base.len()..], [("t".to_string(), EseValue::Binary(b"Q".to_vec()))]);
}
