//! Page checksum verification: the legacy XOR checksum and the Vista+
//! XOR + column-parity ECC pair stored in the first eight bytes of a page.

use vstd::prelude::*;

use crate::bytes::{le32_at, u32_at};

verus! {

/// Result of verifying the checksum stored at the start of an ESE page.
#[derive(Debug, Clone, PartialEq, Eq)]
pub enum ChecksumResult {
    /// Stored checksum matches the computed value.
    Valid,
    /// Legacy XOR checksum: stored value does not match computed value.
    LegacyXorMismatch { stored: u32, computed: u32 },
    /// Vista+ ECC checksum: the stored ECC does not match the computed ECC.
    EccMismatch,
    /// Stored checksum field is zero — page was never checksummed.
    Unknown,
}

/// Seed of the XOR checksum (the ESE file signature).
pub const XOR_CHECKSUM_SEED: u32 = 0x89AB_CDEF;

/// Rotate `w` left by `r` bits, `r < 32`.
pub open spec fn rotl(w: u32, r: u32) -> u32 {
    if r == 0 {
        w
    } else {
        (w << r) | (w >> ((32 - r) as u32))
    }
}

/// The seed XOR'd with the first `n` little-endian 4-byte words of `data`.
pub open spec fn xor_fold(data: Seq<u8>, n: nat) -> u32
    decreases n,
{
    if n == 0 {
        XOR_CHECKSUM_SEED
    } else {
        xor_fold(data, (n - 1) as nat) ^ le32_at(data, 4 * (n - 1))
    }
}

/// The XOR checksum of `data`: its trailing partial word is not covered.
pub open spec fn xor_checksum(data: Seq<u8>) -> u32 {
    xor_fold(data, data.len() / 4)
}

/// XOR of the first `n` words of `data`, word `i` rotated left by `i % 32`.
pub open spec fn ecc_fold(data: Seq<u8>, n: nat) -> u32
    decreases n,
{
    if n == 0 {
        0
    } else {
        ecc_fold(data, (n - 1) as nat) ^ rotl(le32_at(data, 4 * (n - 1)), ((n - 1) % 32) as u32)
    }
}

/// The column-parity ECC of `data`.
pub open spec fn parity_ecc(data: Seq<u8>) -> u32 {
    ecc_fold(data, data.len() / 4)
}

/// What verifying the checksum at the start of `page` yields.
pub open spec fn page_checksum_result(page: Seq<u8>) -> ChecksumResult {
    if page.len() < 8 {
        ChecksumResult::Unknown
    } else if le32_at(page, 0) == 0 {
        ChecksumResult::Unknown
    } else if le32_at(page, 4) == 0 {
        let computed = xor_checksum(page.subrange(4, page.len() as int));
        if computed == le32_at(page, 0) {
            ChecksumResult::Valid
        } else {
            ChecksumResult::LegacyXorMismatch { stored: le32_at(page, 0), computed }
        }
    } else if page.len() < 9 {
        ChecksumResult::Unknown
    } else {
        let body = page.subrange(8, page.len() as int);
        if xor_checksum(body) == le32_at(page, 0) && parity_ecc(body) == le32_at(page, 4) {
            ChecksumResult::Valid
        } else {
            ChecksumResult::EccMismatch
        }
    }
}

/// Verify the checksum stored at offset 0 of `page_data`.
///
/// * If stored bytes 0–3 are all zero → [`ChecksumResult::Unknown`].
/// * If stored bytes 4–7 are all zero → legacy XOR format: seed `0x89AB_CDEF`
///   XOR'd with all 4-byte words from offset 4 onward.
/// * Otherwise → Vista+ ECC format: XOR and column-parity ECC over bytes 8+.
///
/// `_page_number` is unused in the computation but kept for diagnostic use.
pub fn verify_page_checksum(page_data: &[u8], _page_number: u32) -> (r: ChecksumResult)
    ensures
        r == page_checksum_result(page_data@),
{
    let len = page_data.len();
    if len < 8 {
        return ChecksumResult::Unknown;
    }
    let stored_xor = u32_at(page_data, 0);
    if stored_xor == 0 {
        return ChecksumResult::Unknown;
    }
    let stored_ecc = u32_at(page_data, 4);
    if stored_ecc == 0 {
        let computed = xor_page_checksum(&page_data[4..len]);
        if computed == stored_xor {
            ChecksumResult::Valid
        } else {
            ChecksumResult::LegacyXorMismatch { stored: stored_xor, computed }
        }
    } else {
        if len < 9 {
            return ChecksumResult::Unknown;
        }
        let body = &page_data[8..len];
        let computed_xor = xor_page_checksum(body);
        let computed_ecc = column_parity_ecc(body);
        if computed_xor == stored_xor && computed_ecc == stored_ecc {
            ChecksumResult::Valid
        } else {
            ChecksumResult::EccMismatch
        }
    }
}

/// The legacy XOR checksum over the whole 4-byte words of `data`.
pub fn xor_page_checksum(data: &[u8]) -> (r: u32)
    ensures
        r == xor_checksum(data@),
{
    let len = data.len();
    let n = len / 4;
    let mut csum = XOR_CHECKSUM_SEED;
    let mut i: usize = 0;
    while i < n
        invariant
            i <= n,
            n == data@.len() / 4,
            data@.len() == data.len(),
            csum == xor_fold(data@, i as nat),
        decreases n - i,
    {
        csum = csum ^ u32_at(data, 4 * i);
        i = i + 1;
    }
    csum
}

/// Rotate `w` left by `r` bits.
pub fn rotate_left32(w: u32, r: u32) -> (res: u32)
    requires
        r < 32,
    ensures
        res == rotl(w, r),
{
    if r == 0 {
        w
    } else {
        (w << r) | (w >> (32 - r))
    }
}

/// Column-parity ECC: XOR each word rotated by its position mod 32.
pub fn column_parity_ecc(data: &[u8]) -> (r: u32)
    ensures
        r == parity_ecc(data@),
{
    let len = data.len();
    let n = len / 4;
    let mut ecc: u32 = 0;
    let mut i: usize = 0;
    while i < n
        invariant
            i <= n,
            n == data@.len() / 4,
            data@.len() == data.len(),
            ecc == ecc_fold(data@, i as nat),
        decreases n - i,
    {
        let word = u32_at(data, 4 * i);
        ecc = ecc ^ rotate_left32(word, (i % 32) as u32);
        i = i + 1;
    }
    ecc
}

/// Changing word `k` of `data`, and nothing else, XORs the fold of the first
/// `n` words with the old and the new word whenever the fold covers it.
proof fn lemma_xor_fold_word_change(data: Seq<u8>, data2: Seq<u8>, k: int, n: nat)
    requires
        data2.len() == data.len(),
        0 <= k,
        4 * n <= data.len(),
        forall|j: int| 0 <= j < data.len() && !(4 * k <= j < 4 * k + 4) ==> data2[j] == data[j],
    ensures
        xor_fold(data2, n) == xor_fold(data, n) ^ (if k < n {
            le32_at(data, 4 * k) ^ le32_at(data2, 4 * k)
        } else {
            0u32
        }),
    decreases n,
{
    if n == 0 {
        let a = xor_fold(data, n);
        assert(a ^ 0u32 == a) by (bit_vector);
    } else {
        let m = (n - 1) as nat;
        lemma_xor_fold_word_change(data, data2, k, m);
        let a = xor_fold(data, m);
        let w = le32_at(data, 4 * m as int);
        let w2 = le32_at(data2, 4 * m as int);
        if m == k {
            assert((a ^ 0u32) ^ w2 == (a ^ w) ^ (w ^ w2)) by (bit_vector);
        } else {
            assert(w2 == w);
            let c = if k < m {
                le32_at(data, 4 * k) ^ le32_at(data2, 4 * k)
            } else {
                0u32
            };
            assert((a ^ c) ^ w == (a ^ w) ^ c) by (bit_vector);
        }
    }
}

/// The XOR checksum covers every whole word of the data, however far from
/// the start: changing any one whole word `k` (and nothing else) changes it.
pub proof fn lemma_xor_checksum_detects_word(data: Seq<u8>, data2: Seq<u8>, k: int)
    requires
        data2.len() == data.len(),
        0 <= k,
        4 * k + 4 <= data.len(),
        forall|j: int| 0 <= j < data.len() && !(4 * k <= j < 4 * k + 4) ==> data2[j] == data[j],
        le32_at(data2, 4 * k) != le32_at(data, 4 * k),
    ensures
        xor_checksum(data2) != xor_checksum(data),
{
    let n = data.len() / 4;
    lemma_xor_fold_word_change(data, data2, k, n);
    let a = xor_fold(data, n);
    let w = le32_at(data, 4 * k);
    let w2 = le32_at(data2, 4 * k);
    assert(w != w2 ==> a ^ (w ^ w2) != a) by (bit_vector);
}

/// Shifting the start of a page region by a whole word moves word `k` of the
/// region to byte `start + 4 * k` of the page.
proof fn lemma_region_word(page: Seq<u8>, page2: Seq<u8>, start: int, at: int)
    requires
        page2.len() == page.len(),
        0 <= start <= at,
        (at - start) % 4 == 0,
        at + 4 <= page.len(),
        forall|j: int| 0 <= j < page.len() && !(at <= j < at + 4) ==> page2[j] == page[j],
        le32_at(page2, at) != le32_at(page, at),
    ensures
        xor_checksum(page2.subrange(start, page.len() as int)) != xor_checksum(
            page.subrange(start, page.len() as int),
        ),
{
    let d = page.subrange(start, page.len() as int);
    let d2 = page2.subrange(start, page.len() as int);
    let k = (at - start) / 4;
    assert(le32_at(d, 4 * k) == le32_at(page, at));
    assert(le32_at(d2, 4 * k) == le32_at(page2, at));
    lemma_xor_checksum_detects_word(d, d2, k);
}

/// Rotation by the same amount is one-to-one.
proof fn lemma_rotl_injective(a: u32, b: u32, r: u32)
    requires
        r < 32,
        a != b,
    ensures
        rotl(a, r) != rotl(b, r),
{
    if r != 0 {
        assert(a != b && 0 < r < 32 ==> (a << r) | (a >> ((32 - r) as u32)) != (b << r) | (b >> ((32
            - r) as u32))) by (bit_vector);
    }
}

/// Changing word `k` of `data`, and nothing else, XORs the ECC fold of the
/// first `n` words with the old and the new word, both rotated by `k % 32`,
/// whenever the fold covers it.
proof fn lemma_ecc_fold_word_change(data: Seq<u8>, data2: Seq<u8>, k: int, n: nat)
    requires
        data2.len() == data.len(),
        0 <= k,
        4 * n <= data.len(),
        forall|j: int| 0 <= j < data.len() && !(4 * k <= j < 4 * k + 4) ==> data2[j] == data[j],
    ensures
        ecc_fold(data2, n) == ecc_fold(data, n) ^ (if k < n {
            rotl(le32_at(data, 4 * k), (k % 32) as u32) ^ rotl(le32_at(data2, 4 * k), (k % 32) as u32)
        } else {
            0u32
        }),
    decreases n,
{
    if n == 0 {
        let a = ecc_fold(data, n);
        assert(a ^ 0u32 == a) by (bit_vector);
    } else {
        let m = (n - 1) as nat;
        lemma_ecc_fold_word_change(data, data2, k, m);
        let a = ecc_fold(data, m);
        let w = rotl(le32_at(data, 4 * m as int), (m % 32) as u32);
        let w2 = rotl(le32_at(data2, 4 * m as int), (m % 32) as u32);
        if m == k {
            assert((a ^ 0u32) ^ w2 == (a ^ w) ^ (w ^ w2)) by (bit_vector);
        } else {
            assert(le32_at(data2, 4 * m as int) == le32_at(data, 4 * m as int));
            let c = if k < m {
                rotl(le32_at(data, 4 * k), (k % 32) as u32) ^ rotl(le32_at(data2, 4 * k), (k % 32) as u32)
            } else {
                0u32
            };
            assert((a ^ c) ^ w == (a ^ w) ^ c) by (bit_vector);
        }
    }
}

/// The column-parity ECC covers every whole word of the data, however far
/// from the start: changing any one whole word `k` (and nothing else)
/// changes the ECC, by exactly the old and the new word rotated left by
/// `k % 32`.
pub proof fn law_parity_ecc_covers_every_word(data: Seq<u8>, data2: Seq<u8>, k: int)
    requires
        data2.len() == data.len(),
        0 <= k,
        4 * k + 4 <= data.len(),
        forall|j: int| 0 <= j < data.len() && !(4 * k <= j < 4 * k + 4) ==> data2[j] == data[j],
        le32_at(data2, 4 * k) != le32_at(data, 4 * k),
    ensures
        parity_ecc(data2) != parity_ecc(data),
        parity_ecc(data2) == parity_ecc(data) ^ rotl(le32_at(data, 4 * k), (k % 32) as u32) ^ rotl(
            le32_at(data2, 4 * k),
            (k % 32) as u32,
        ),
{
    let n = data.len() / 4;
    lemma_ecc_fold_word_change(data, data2, k, n);
    let a = ecc_fold(data, n);
    let w = rotl(le32_at(data, 4 * k), (k % 32) as u32);
    let w2 = rotl(le32_at(data2, 4 * k), (k % 32) as u32);
    lemma_rotl_injective(le32_at(data, 4 * k), le32_at(data2, 4 * k), (k % 32) as u32);
    assert(w != w2 ==> a ^ (w ^ w2) != a) by (bit_vector);
    assert(a ^ (w ^ w2) == a ^ w ^ w2) by (bit_vector);
}

/// The stored ECC is checked: two Vista+ pages that differ only in their
/// (non-zero) ECC field cannot both verify as valid.
pub proof fn law_ecc_field_is_checked(page: Seq<u8>, page2: Seq<u8>)
    requires
        page2.len() == page.len(),
        forall|j: int| 0 <= j < page.len() && !(4 <= j < 8) ==> page2[j] == page[j],
        le32_at(page, 4) != 0,
        le32_at(page2, 4) != 0,
        le32_at(page, 4) != le32_at(page2, 4),
    ensures
        !(page_checksum_result(page) == ChecksumResult::Valid && page_checksum_result(page2)
            == ChecksumResult::Valid),
{
    if page.len() >= 9 {
        assert(page.subrange(8, page.len() as int) =~= page2.subrange(8, page.len() as int));
        assert(le32_at(page2, 0) == le32_at(page, 0));
    }
}

/// A legacy-format page (bytes 4–7 zero) whose first word holds the XOR
/// checksum of the bytes from offset 4 onward, and is not zero, verifies as
/// valid.
pub proof fn law_legacy_checksum_seal(page: Seq<u8>)
    requires
        page.len() >= 8,
        le32_at(page, 4) == 0,
        le32_at(page, 0) == xor_checksum(page.subrange(4, page.len() as int)),
        le32_at(page, 0) != 0,
    ensures
        page_checksum_result(page) == ChecksumResult::Valid,
{
}

/// A Vista+ page (bytes 4–7 not zero, at least 9 bytes long) whose first two
/// words hold the XOR checksum and the column-parity ECC of the bytes from
/// offset 8 onward, the first not zero, verifies as valid.
pub proof fn law_ecc_checksum_seal(page: Seq<u8>)
    requires
        page.len() >= 9,
        le32_at(page, 0) == xor_checksum(page.subrange(8, page.len() as int)),
        le32_at(page, 4) == parity_ecc(page.subrange(8, page.len() as int)),
        le32_at(page, 0) != 0,
        le32_at(page, 4) != 0,
    ensures
        page_checksum_result(page) == ChecksumResult::Valid,
{
}

/// A legacy-format page that verifies as valid stops verifying once one of its
/// covered 4-byte words past the format field (byte offset `at`, a multiple
/// of 4 from 8 on) is changed and nothing else: the result is a
/// `LegacyXorMismatch`.
pub proof fn law_legacy_checksum_detects_changed_word(page: Seq<u8>, page2: Seq<u8>, at: int)
    requires
        page_checksum_result(page) == ChecksumResult::Valid,
        le32_at(page, 4) == 0,
        page2.len() == page.len(),
        8 <= at,
        at % 4 == 0,
        at + 4 <= page.len(),
        forall|j: int| 0 <= j < page.len() && !(at <= j < at + 4) ==> page2[j] == page[j],
        le32_at(page2, at) != le32_at(page, at),
    ensures
        page_checksum_result(page2) is LegacyXorMismatch,
{
    lemma_region_word(page, page2, 4, at);
    assert(le32_at(page2, 0) == le32_at(page, 0));
    assert(le32_at(page2, 4) == le32_at(page, 4));
}

/// A Vista+ page that verifies as valid stops verifying once one of its
/// covered 4-byte words (byte offset `at`, a multiple of 4 from 8 on) is
/// changed and nothing else: the result is an `EccMismatch`.
pub proof fn law_ecc_checksum_detects_changed_word(page: Seq<u8>, page2: Seq<u8>, at: int)
    requires
        page_checksum_result(page) == ChecksumResult::Valid,
        le32_at(page, 4) != 0,
        page2.len() == page.len(),
        8 <= at,
        at % 4 == 0,
        at + 4 <= page.len(),
        forall|j: int| 0 <= j < page.len() && !(at <= j < at + 4) ==> page2[j] == page[j],
        le32_at(page2, at) != le32_at(page, at),
    ensures
        page_checksum_result(page2) == ChecksumResult::EccMismatch,
{
    lemma_region_word(page, page2, 8, at);
    assert(le32_at(page2, 0) == le32_at(page, 0));
    assert(le32_at(page2, 4) == le32_at(page, 4));
}

} // verus!
