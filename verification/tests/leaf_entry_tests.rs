//! B-tree page-entry key stripping.

use ese_core::leaf_entry_data;

#[test]
fn small_pages_return_the_value_unchanged() {
    let v = [0x40u8, 0xFF, 1, 2, 3];
    assert_eq!(leaf_entry_data(&v, false), Some(&v[..]));
    assert_eq!(leaf_entry_data(&[7u8], true), Some(&[7u8][..]));
}

#[test]
fn local_key_is_skipped() {
    // local key size 3, key bytes 9 9 9, data 7 8.
    let v = [3u8, 0, 9, 9, 9, 7, 8];
    assert_eq!(leaf_entry_data(&v, true), Some(&[7u8, 8][..]));
}

#[test]
fn flag_bits_are_masked_off_the_key_size() {
    // value[1] = 0b001_00000: flag 1 (not defunct, no common key); size high byte 0.
    let v = [1u8, 0x20, 9, 5];
    assert_eq!(leaf_entry_data(&v, true), Some(&[5u8][..]));
}

#[test]
fn defunct_entries_are_none() {
    let v = [0u8, 0x40, 1, 2];
    assert_eq!(leaf_entry_data(&v, true), None);
}

#[test]
fn common_key_size_prefix_is_skipped() {
    // flag 0x04 (value[1] = 0x80): common key size (ignored), then local key size 1.
    let v = [0xEEu8, 0x80, 1, 0, 9, 6, 6];
    assert_eq!(leaf_entry_data(&v, true), Some(&[6u8, 6][..]));
    assert_eq!(leaf_entry_data(&[0u8, 0x80, 1], true), None);
}

#[test]
fn key_past_the_value_is_none() {
    let v = [10u8, 0, 1, 2];
    assert_eq!(leaf_entry_data(&v, true), None);
    // A key that ends exactly at the end leaves empty data.
    let w = [2u8, 0, 1, 2];
    assert_eq!(leaf_entry_data(&w, true), Some(&[][..]));
}
