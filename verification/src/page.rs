//! ESE pages: the page tag array and the values it locates.
//!
//! Every page starts with a 40-byte header; on large pages (16 KiB and
//! 32 KiB) a 40-byte extended header (three ECC checksums, page number,
//! reserved) follows it, so value data begins at byte 80 instead of 40. The
//! header's 16-bit field at `0x22` counts the page tags, which are stored
//! 4 bytes each from the end of the page backwards: tag `i` is the
//! little-endian `u32` at `len - 4 * (i + 1)`, its low half the value size
//! and its high half the value offset relative to the value-data base. On
//! small pages the top three bits of each half are tag flags (mask
//! `0x1fff`); on large pages both halves are 15-bit fields (mask `0x7fff`).

use vstd::prelude::*;

use crate::bytes::{le16_at, u16_at};
use crate::error::EseError;

verus! {

/// A page of an ESE database file.
pub struct EsePage {
    /// The page number within the file.
    pub page_number: u32,
    /// The page bytes.
    pub data: Vec<u8>,
}

/// Pages of 16 KiB and more use the extended header and 15-bit tag fields.
pub open spec fn is_large_page(len: int) -> bool {
    len >= 16384
}

/// Where value data begins: past the header, and the extended header on a
/// large page.
pub open spec fn value_base(len: int) -> int {
    if is_large_page(len) {
        80
    } else {
        40
    }
}

/// The mask of a tag's offset and size fields.
pub open spec fn tag_field_mask(len: int) -> u16 {
    if is_large_page(len) {
        0x7FFF
    } else {
        0x1FFF
    }
}

/// Tag `i` of page `d` as `(offset, size)`.
pub open spec fn page_tag(d: Seq<u8>, i: int) -> (u16, u16) {
    let at = d.len() - 4 * (i + 1);
    (le16_at(d, at + 2) & tag_field_mask(d.len() as int), le16_at(d, at) & tag_field_mask(
        d.len() as int,
    ))
}

/// The tag array of page `d`, or `None` when the page is shorter than its
/// header or the tag count reaches into the header.
pub open spec fn page_tags(d: Seq<u8>) -> Option<Seq<(u16, u16)>> {
    let len = d.len() as int;
    if len < value_base(len) {
        None
    } else {
        let n = le16_at(d, 0x22) as int;
        if 4 * n > len - value_base(len) {
            None
        } else {
            Some(Seq::new(n as nat, |i: int| page_tag(d, i)))
        }
    }
}

/// The value that tag `i` of page `d` locates, or `None` when there is no
/// such tag or the value runs past the end of the page.
pub open spec fn page_value(d: Seq<u8>, i: int) -> Option<Seq<u8>> {
    match page_tags(d) {
        None => None,
        Some(t) => if i >= t.len() {
            None
        } else {
            let start = value_base(d.len() as int) + t[i].0;
            let end = start + t[i].1;
            if end > d.len() {
                None
            } else {
                Some(d.subrange(start, end))
            }
        },
    }
}

/// On a large page a tag's offset and size are read with all 15 bits: a
/// field up to `0x7fff` is kept whole, never cut to the 13 bits of a small
/// page. On a small page the top three (flag) bits of each field are dropped.
pub proof fn law_tag_fields_by_page_size(d: Seq<u8>, i: int)
    requires
        page_tags(d) is Some,
        0 <= i < page_tags(d).unwrap().len(),
    ensures
        ({
            let at = d.len() - 4 * (i + 1);
            let raw_offset = le16_at(d, at + 2);
            let raw_size = le16_at(d, at);
            let t = page_tags(d).unwrap()[i];
            &&& is_large_page(d.len() as int) && raw_offset <= 0x7FFF ==> t.0 == raw_offset
            &&& is_large_page(d.len() as int) && raw_size <= 0x7FFF ==> t.1 == raw_size
            &&& !is_large_page(d.len() as int) ==> t.0 == raw_offset % 0x2000 && t.1 == raw_size
                % 0x2000
        }),
{
    let at = d.len() - 4 * (i + 1);
    let o = le16_at(d, at + 2);
    let z = le16_at(d, at);
    assert(o <= 0x7FFF ==> o & 0x7FFF == o) by (bit_vector);
    assert(z <= 0x7FFF ==> z & 0x7FFF == z) by (bit_vector);
    assert(o & 0x1FFF == o % 0x2000) by (bit_vector);
    assert(z & 0x1FFF == z % 0x2000) by (bit_vector);
}

/// Where a tag's value lies, read off the raw bytes: on a page shorter than
/// 16 KiB the value of tag `i` starts at byte 40 plus the low 13 bits of the
/// tag's offset half and is as long as the low 13 bits of its size half; from
/// 16 KiB on it starts at byte 80 and both halves keep 15 bits. The value is
/// found exactly when the tag exists and the value fits in the page.
pub proof fn law_page_value_location(d: Seq<u8>, i: int)
    requires
        page_tags(d) is Some,
        0 <= i < page_tags(d).unwrap().len(),
    ensures
        ({
            let at = d.len() - 4 * (i + 1);
            let raw_offset = le16_at(d, at + 2) as int;
            let raw_size = le16_at(d, at) as int;
            let (start, size) = if d.len() < 16384 {
                (40 + raw_offset % 0x2000, raw_size % 0x2000)
            } else {
                (80 + raw_offset % 0x8000, raw_size % 0x8000)
            };
            &&& start + size <= d.len() ==> page_value(d, i) == Some(
                d.subrange(start, start + size),
            )
            &&& start + size > d.len() ==> page_value(d, i) is None
        }),
{
    let at = d.len() - 4 * (i + 1);
    let o = le16_at(d, at + 2);
    let z = le16_at(d, at);
    assert(o & 0x1FFF == o % 0x2000) by (bit_vector);
    assert(z & 0x1FFF == z % 0x2000) by (bit_vector);
    assert(o & 0x7FFF == o % 0x8000) by (bit_vector);
    assert(z & 0x7FFF == z % 0x8000) by (bit_vector);
}

impl EsePage {
    /// The page tag array as `(offset, size)` pairs.
    ///
    /// # Errors
    ///
    /// `EseError::Corrupt` when the page is shorter than its header or the tag
    /// count does not fit between the header and the end of the page.
    pub fn tags(&self) -> (r: Result<Vec<(u16, u16)>, EseError>)
        ensures
            match page_tags(self.data@) {
                Some(t) => r matches Ok(v) && v@ == t,
                None => r is Err,
            },
    {
        let d = self.data.as_slice();
        let len = d.len();
        let large = len >= 16384;
        let base: usize = if large {
            80
        } else {
            40
        };
        if len < base {
            return Err(EseError::Corrupt("page shorter than its header"));
        }
        let mask: u16 = if large {
            0x7FFF
        } else {
            0x1FFF
        };
        let n = u16_at(d, 0x22) as usize;
        if n > (len - base) / 4 {
            return Err(EseError::Corrupt("page tag count exceeds the page"));
        }
        let mut tags: Vec<(u16, u16)> = Vec::new();
        let mut i: usize = 0;
        while i < n
            invariant
                i <= n,
                d@ == self.data@,
                len == d@.len(),
                base == value_base(len as int),
                mask == tag_field_mask(len as int),
                4 * n <= len - base,
                n == le16_at(d@, 0x22),
                tags@ =~= Seq::new(i as nat, |j: int| page_tag(d@, j)),
            decreases n - i,
        {
            let at = len - 4 * (i + 1);
            let size = u16_at(d, at) & mask;
            let offset = u16_at(d, at + 2) & mask;
            tags.push((offset, size));
            i = i + 1;
        }
        Ok(tags)
    }

    /// The value bytes that tag `i` locates.
    ///
    /// # Errors
    ///
    /// `EseError::Corrupt` when the tag array is unreadable, `i` is not a tag,
    /// or the value runs past the end of the page.
    pub fn record_data(&self, i: usize) -> (r: Result<&[u8], EseError>)
        ensures
            match page_value(self.data@, i as int) {
                Some(v) => r matches Ok(s) && s@ == v,
                None => r is Err,
            },
    {
        let tags = self.tags()?;
        if i >= tags.len() {
            return Err(EseError::Corrupt("page tag index out of range"));
        }
        let d = self.data.as_slice();
        let len = d.len();
        let base: usize = if len >= 16384 {
            80
        } else {
            40
        };
        let (offset, size) = tags[i];
        let start = base + offset as usize;
        if start > len || size as usize > len - start {
            return Err(EseError::Corrupt("page value runs past the page"));
        }
        Ok(&d[start..start + size as usize])
    }
}

} // verus!
