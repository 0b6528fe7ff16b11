//! Page checksum verification: legacy XOR and Vista+ XOR + column-parity ECC.

use ese_core::{verify_page_checksum, ChecksumResult};

const SEED: u32 = 0x89AB_CDEF;

fn word(d: &[u8], at: usize) -> u32 {
    u32::from_le_bytes([d[at], d[at + 1], d[at + 2], d[at + 3]])
}

fn xor_of(d: &[u8]) -> u32 {
    let mut c = SEED;
    let mut at = 0;
    while at + 4 <= d.len() {
        c ^= word(d, at);
        at += 4;
    }
    c
}

fn ecc_of(d: &[u8]) -> u32 {
    let mut e = 0u32;
    let mut i = 0;
    while 4 * i + 4 <= d.len() {
        e ^= word(d, 4 * i).rotate_left((i % 32) as u32);
        i += 1;
    }
    e
}

fn legacy_page(body: &[u8]) -> Vec<u8> {
    let mut p = vec![0u8; 8];
    p.extend_from_slice(body);
    let c = xor_of(&p[4..]);
    p[0..4].copy_from_slice(&c.to_le_bytes());
    p
}

fn ecc_page(body: &[u8]) -> Vec<u8> {
    let mut p = vec![0u8; 8];
    p.extend_from_slice(body);
    let x = xor_of(&p[8..]);
    let e = ecc_of(&p[8..]);
    p[0..4].copy_from_slice(&x.to_le_bytes());
    p[4..8].copy_from_slice(&e.to_le_bytes());
    p
}

#[test]
fn short_page_is_unknown() {
    assert_eq!(verify_page_checksum(&[1, 2, 3, 4, 5, 6, 7], 1), ChecksumResult::Unknown);
    assert_eq!(verify_page_checksum(&[], 1), ChecksumResult::Unknown);
}

#[test]
fn zero_stored_checksum_is_unknown() {
    let p = [0u8, 0, 0, 0, 9, 9, 9, 9, 1, 2, 3, 4];
    assert_eq!(verify_page_checksum(&p, 7), ChecksumResult::Unknown);
}

#[test]
fn legacy_checksum_exact_value() {
    // Bytes 4.. are [0,0,0,0, 1,0,0,0]: the checksum is SEED ^ 1.
    let p = [0xEE, 0xCD, 0xAB, 0x89, 0, 0, 0, 0, 1, 0, 0, 0];
    assert_eq!(verify_page_checksum(&p, 1), ChecksumResult::Valid);
}

#[test]
fn legacy_sealed_page_is_valid_and_partial_word_is_not_covered() {
    let mut body: Vec<u8> = (0u8..40).collect();
    body.extend_from_slice(&[0xAA, 0xBB]); // trailing partial word
    let mut p = legacy_page(&body);
    assert_eq!(verify_page_checksum(&p, 3), ChecksumResult::Valid);
    let n = p.len();
    p[n - 1] ^= 0xFF;
    assert_eq!(verify_page_checksum(&p, 3), ChecksumResult::Valid);
}

#[test]
fn legacy_changed_word_is_a_mismatch_with_the_computed_value() {
    let body: Vec<u8> = (10u8..30).collect();
    let mut p = legacy_page(&body);
    let stored = word(&p, 0);
    p[13] ^= 0x01;
    let computed = xor_of(&p[4..]);
    assert_ne!(stored, computed);
    assert_eq!(
        verify_page_checksum(&p, 1),
        ChecksumResult::LegacyXorMismatch { stored, computed }
    );
}

#[test]
fn ecc_checksum_exact_value() {
    // Body words 1, 1: XOR = SEED, ECC = 1 ^ rotl(1, 1) = 3.
    let p = [0xEF, 0xCD, 0xAB, 0x89, 3, 0, 0, 0, 1, 0, 0, 0, 1, 0, 0, 0];
    assert_eq!(verify_page_checksum(&p, 1), ChecksumResult::Valid);
    let mut q = p;
    q[4] = 2;
    assert_eq!(verify_page_checksum(&q, 1), ChecksumResult::EccMismatch);
}

#[test]
fn ecc_rotation_wraps_every_32_words() {
    let body: Vec<u8> = (0..40u32).flat_map(|i| (i * 0x0101_0101 + 7).to_le_bytes()).collect();
    let mut p = ecc_page(&body);
    assert_ne!(word(&p, 4), 0);
    assert_eq!(verify_page_checksum(&p, 1), ChecksumResult::Valid);
    // Change word 33 of the body: the ECC page reports a mismatch.
    p[8 + 4 * 33] ^= 0x80;
    assert_eq!(verify_page_checksum(&p, 1), ChecksumResult::EccMismatch);
}

#[test]
fn eight_byte_ecc_page_is_unknown() {
    let p = [1u8, 0, 0, 0, 1, 0, 0, 0];
    assert_eq!(verify_page_checksum(&p, 1), ChecksumResult::Unknown);
}

#[test]
fn page_number_does_not_change_the_result() {
    let p = legacy_page(&[5, 6, 7, 8]);
    assert_eq!(verify_page_checksum(&p, 0), verify_page_checksum(&p, u32::MAX));
}
