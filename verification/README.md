# ese_core

Verified decoding of ESE / JET Blue database structures (SRUDB.dat,
WebCacheV01.dat, Windows.edb, NTDS.dit): page checksums, page tag arrays,
B-tree entry keys and data-definition records with fixed, variable and
tagged columns. The public decoders (`verify_page_checksum`, `leaf_entry_data`,
`decode_record`, `decode_ese_record`, `EsePage::tags`/`record_data`) take any
bytes — no input makes them panic or read out of bounds — and each states in
its contract exactly what it returns; the lower-level `decode_fixed` asks for
the bytes its column type needs.

Layout:

- `src/checksum.rs` — legacy XOR and Vista+ XOR + column-parity ECC page
  checksums, with the laws that a sealed page verifies and that changing one
  covered word is detected.
- `src/page.rs` — `EsePage`: tag array (13-bit fields on small pages, 15-bit
  on 16/32 KiB pages) and value lookup.
- `src/record.rs` — B-tree entry key stripping and the legacy record layout.
- `src/ese_record.rs` — real data-definition records: fixed (id 1..=127),
  variable (128..=255) and tagged (>= 256) columns.
- `src/text.rs` — UTF-16LE / single-byte text detection and decoding.
- `src/value.rs`, `src/bytes.rs`, `src/coltyp.rs`, `src/error.rs` — column
  definitions and values, little-endian reads, type codes, errors.
- `app/lib.rs` — a serde-serialisable copy of `EseValue` with its
  floating-point columns as numbers.
