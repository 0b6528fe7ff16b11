//! Text column decoding.

use ese_core::text::{decode_ese_text, looks_like_utf16le};

#[test]
fn utf16_detection_needs_half_the_high_bytes_nul() {
    assert!(looks_like_utf16le(&[0x41, 0, 0x42, 0]));
    assert!(looks_like_utf16le(&[0x41, 0, 0x42, 0x42, 0x43, 0, 0x44, 0x44]));
    assert!(!looks_like_utf16le(&[0x41, 0, 0x42, 0x42, 0x43, 0x43, 0x44, 0x44]));
    assert!(!looks_like_utf16le(&[0x41, 0, 0x42]));
    assert!(!looks_like_utf16le(&[0]));
    assert!(!looks_like_utf16le(&[]));
}

#[test]
fn utf16_text_is_decoded_and_trimmed() {
    assert_eq!(decode_ese_text(&[b'h', 0, b'i', 0, 0, 0]), "hi");
    // An unpaired surrogate becomes U+FFFD.
    assert_eq!(decode_ese_text(&[0x00, 0xD8, b'a', 0]), "\u{FFFD}a");
}

#[test]
fn single_byte_text_is_decoded_lossily_and_trimmed() {
    assert_eq!(decode_ese_text(b"abc\0\0"), "abc");
    assert_eq!(decode_ese_text(&[0xFF, b'A', b'B', b'C']), "\u{FFFD}ABC");
    assert_eq!(decode_ese_text(&[]), "");
    assert_eq!(decode_ese_text(&[0, 0, 0]), "");
}

fn utf16_bytes(units: &[u16]) -> Vec<u8> {
    units.iter().flat_map(|u| u.to_le_bytes()).collect()
}

#[test]
fn utf16_surrogate_pairs_and_unpaired_surrogates() {
    assert_eq!(decode_ese_text(&utf16_bytes(&[0x61, 0xD83D, 0xDE00, 0x62, 0x63])), "a\u{1F600}bc");
    assert_eq!(decode_ese_text(&utf16_bytes(&[0x61, 0xD83D, 0x62, 0x63])), "a\u{FFFD}bc");
    assert_eq!(decode_ese_text(&utf16_bytes(&[0x61, 0xDC00, 0x62, 0x63])), "a\u{FFFD}bc");
    assert_eq!(decode_ese_text(&utf16_bytes(&[0x61, 0x62, 0x63, 0xD800])), "abc\u{FFFD}");
}
