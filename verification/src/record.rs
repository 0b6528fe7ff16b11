//! B-tree entry key stripping and decoding of the legacy (small-page fixture)
//! record layout.

use vstd::prelude::*;

use crate::bytes::{le16, le16_at, lemma_mask_u16, u16_at};
use crate::coltyp;
use crate::error::EseError;
use crate::text::{utf8_lossy, utf8_lossy_string};
use crate::value::{
    decode_fixed, entries_model, entry_model, fixed_col_size, fixed_size, fixed_value, lemma_entries_model_push,
    lemma_named_after_concat, lemma_named_after_cons, lemma_named_after_weaken, named_after,
    ColumnDef, EntryModel, EseValue, ValueModel,
};

verus! {

/// Page-tag flag: the value is a defunct (deleted) entry.
pub const PAGE_TAG_FLAG_IS_DEFUNCT: u8 = 0x02;

/// Page-tag flag: the entry is prefixed with a 2-byte common-key size.
pub const PAGE_TAG_FLAG_HAS_COMMON_KEY_SIZE: u8 = 0x04;

/// Where the entry data starts inside a page value, or `None` when the entry
/// is defunct or its key runs past the value.
pub open spec fn leaf_data_offset(v: Seq<u8>, extended: bool) -> Option<int> {
    if !extended || v.len() < 2 {
        Some(0)
    } else if (v[1] >> 5u8) & PAGE_TAG_FLAG_IS_DEFUNCT != 0 {
        None
    } else if (v[1] >> 5u8) & PAGE_TAG_FLAG_HAS_COMMON_KEY_SIZE != 0 {
        if v.len() < 4 {
            None
        } else if 4 + le16(v[2], v[3]) > v.len() {
            None
        } else {
            Some(4 + le16(v[2], v[3]))
        }
    } else if 2 + le16(v[0], v[1] & 0x1f) > v.len() {
        None
    } else {
        Some(2 + le16(v[0], v[1] & 0x1f))
    }
}

/// Strip the B-tree page-entry key from a leaf/branch page value and return the
/// entry data — a data-definition record on a leaf page, or the child-page
/// pointer bytes on a branch page.
///
/// Returns `None` when the entry is marked defunct (deleted) or is malformed.
///
/// On large pages (`extended`) the three page-tag flag bits live in the top
/// bits of the value's second byte (`value[1] >> 5`), and the entry layout is
/// `[common_key_size(2) — only if flag 0x04][local_key_size(2)][local_key][data]`;
/// the flag bits are masked off the first 16-bit field before it is read.
/// Small/legacy pages store the record directly with no key prefix, so the
/// value is returned unchanged.
pub fn leaf_entry_data(value: &[u8], extended: bool) -> (r: Option<&[u8]>)
    ensures
        match leaf_data_offset(value@, extended) {
            Some(off) => r matches Some(d) && d@ == value@.subrange(off, value@.len() as int),
            None => r is None,
        },
        !extended ==> (r matches Some(d) && d@ == value@),
{
    let len = value.len();
    if !extended || len < 2 {
        return Some(value);
    }
    let flags = value[1] >> 5;
    if flags & PAGE_TAG_FLAG_IS_DEFUNCT != 0 {
        return None;
    }
    let first_field_hi = value[1] & 0x1f;
    let (off, local_key_lo, local_key_hi) = if flags & PAGE_TAG_FLAG_HAS_COMMON_KEY_SIZE != 0 {
        if len < 4 {
            return None;
        }
        (4usize, value[2], value[3])
    } else {
        (2usize, value[0], first_field_hi)
    };
    let local_key_size = local_key_lo as usize + (local_key_hi as usize) * 256;
    let off = off + local_key_size;
    if off > len {
        return None;
    }
    assert(value@.subrange(0, len as int) =~= value@);
    Some(&value[off..len])
}

/// Where a large-page entry's data begins, read off the raw bytes: bit 0x40
/// of the second byte marks a defunct (deleted) entry, whatever the other
/// flag bits, and there is no data; with bit 0x80 the 16-bit local key size
/// at bytes 2–3 follows a common key size and the data starts after the
/// 4-byte prefix and the key; otherwise the local key size is the first byte
/// plus 256 times the low 5 bits of the second, and the data starts after the
/// 2-byte prefix and the key. A key running past the value leaves no data.
/// Small pages, and values shorter than 2 bytes, keep the whole value.
pub proof fn law_leaf_entry_layout(v: Seq<u8>, extended: bool)
    ensures
        !extended || v.len() < 2 ==> leaf_data_offset(v, extended) == Some(0int),
        extended && v.len() >= 2 && v[1] & 0x40 != 0 ==> leaf_data_offset(v, extended) is None,
        extended && v.len() >= 2 && v[1] & 0x40 == 0 && v[1] & 0x80 == 0 ==> leaf_data_offset(
            v,
            extended,
        ) == (if 2 + v[0] + 256 * (v[1] % 32) <= v.len() {
            Some(2 + v[0] + 256 * (v[1] % 32))
        } else {
            None
        }),
        extended && v.len() >= 2 && v[1] & 0x40 == 0 && v[1] & 0x80 != 0 ==> leaf_data_offset(
            v,
            extended,
        ) == (if v.len() >= 4 && 4 + v[2] + 256 * v[3] <= v.len() {
            Some(4 + v[2] + 256 * v[3])
        } else {
            None
        }),
{
    if extended && v.len() >= 2 {
        let x = v[1];
        assert(((x >> 5u8) & 2u8 != 0) == (x & 0x40 != 0)) by (bit_vector);
        assert(((x >> 5u8) & 4u8 != 0) == (x & 0x80 != 0)) by (bit_vector);
        assert(x & 0x1f == x % 32) by (bit_vector);
    }
}

/// The value of a legacy-layout variable column of type `t` holding `b`.
pub open spec fn legacy_var_value(b: Seq<u8>, t: u8) -> ValueModel {
    if t == coltyp::TEXT {
        ValueModel::Text(utf8_lossy(b))
    } else {
        ValueModel::Binary(b)
    }
}

/// The fixed columns that the legacy layout yields for `cols[i..]`, the next
/// fixed value starting at byte `cursor` and `idx` being the next column id.
/// Fixed columns are packed in id order, each in its full slot; a fixed
/// column whose id lies past `idx` (a gap in the definitions) ends the pass.
pub open spec fn legacy_fixed(
    data: Seq<u8>,
    cols: Seq<ColumnDef>,
    i: nat,
    cursor: int,
    idx: int,
) -> Seq<EntryModel>
    decreases cols.len() - i,
{
    if i >= cols.len() {
        Seq::empty()
    } else {
        let c = cols[i as int];
        match fixed_size(c.coltyp) {
            None => legacy_fixed(data, cols, i + 1, cursor, idx),
            Some(size) => {
                if c.column_id > data[0] || c.column_id > idx || idx > data[0] || cursor + size
                    > data.len() {
                    Seq::empty()
                } else {
                    seq![(c.name@, fixed_value(data.subrange(cursor, cursor + size), c.coltyp))]
                        + legacy_fixed(data, cols, i + 1, cursor + size, idx + 1)
                }
            },
        }
    }
}

/// The variable columns that the legacy layout yields for `cols[i..]`, or
/// `None` when the end offset of a non-NULL column lies past the record: `k`
/// is the next slot of the end-offset array at `area`, `prev_end` the end
/// offset of the previous slot, `payload` the start of the variable data, to
/// which the end offsets are relative.
pub open spec fn legacy_var(
    data: Seq<u8>,
    cols: Seq<ColumnDef>,
    i: nat,
    k: int,
    prev_end: u16,
    num_var: int,
    area: int,
    payload: int,
) -> Option<Seq<EntryModel>>
    decreases cols.len() - i,
{
    if i >= cols.len() {
        Some(Seq::empty())
    } else {
        let c = cols[i as int];
        if fixed_size(c.coltyp) is Some {
            legacy_var(data, cols, i + 1, k, prev_end, num_var, area, payload)
        } else if k >= num_var {
            Some(Seq::empty())
        } else {
            let raw = le16_at(data, area + 2 * k);
            let present = raw & 0x8000 == 0;
            let start = payload + prev_end;
            let end = payload + (raw & 0x7FFF);
            if present && end > data.len() {
                None
            } else {
                match legacy_var(data, cols, i + 1, k + 1, raw & 0x7FFF, num_var, area, payload) {
                    None => None,
                    Some(rest) => if present && start <= end {
                        Some(
                            seq![(c.name@, legacy_var_value(data.subrange(start, end), c.coltyp))]
                                + rest,
                        )
                    } else {
                        Some(rest)
                    },
                }
            }
        }
    }
}

/// What [`decode_record`] yields for `data` and `cols`: `None` when it
/// reports the record corrupt.
pub open spec fn legacy_record(data: Seq<u8>, cols: Seq<ColumnDef>) -> Option<Seq<EntryModel>> {
    if data.len() < 4 {
        None
    } else {
        let num_var = data[1] as int;
        let var_data_offset = le16_at(data, 2) as int;
        let fixed = legacy_fixed(data, cols, 0, 4, 1);
        if num_var == 0 {
            Some(fixed)
        } else if var_data_offset > data.len() || var_data_offset < 4 + 2 * num_var {
            None
        } else {
            match legacy_var(
                data,
                cols,
                0,
                0,
                0,
                num_var,
                var_data_offset - 2 * num_var,
                var_data_offset,
            ) {
                None => None,
                Some(v) => Some(fixed + v),
            }
        }
    }
}

/// How many of `cols[i..]` have a fixed size (`sized`) or have none.
pub open spec fn count_sized(cols: Seq<ColumnDef>, i: nat, sized: bool) -> nat
    decreases cols.len() - i,
{
    if i >= cols.len() {
        0
    } else {
        count_sized(cols, i + 1, sized) + if (fixed_size(cols[i as int].coltyp) is Some)
            == sized {
            1nat
        } else {
            0nat
        }
    }
}

proof fn lemma_count_sized_partition(cols: Seq<ColumnDef>, i: nat)
    requires
        i <= cols.len(),
    ensures
        count_sized(cols, i, true) + count_sized(cols, i, false) == cols.len() - i,
    decreases cols.len() - i,
{
    if i < cols.len() {
        lemma_count_sized_partition(cols, i + 1);
    }
}

proof fn lemma_legacy_fixed_bound(data: Seq<u8>, cols: Seq<ColumnDef>, i: nat, cursor: int, idx: int)
    ensures
        legacy_fixed(data, cols, i, cursor, idx).len() <= count_sized(cols, i, true),
        named_after(legacy_fixed(data, cols, i, cursor, idx), cols, i as int),
    decreases cols.len() - i,
{
    if i < cols.len() {
        let c = cols[i as int];
        match fixed_size(c.coltyp) {
            None => {
                lemma_legacy_fixed_bound(data, cols, i + 1, cursor, idx);
                lemma_named_after_weaken(legacy_fixed(data, cols, i + 1, cursor, idx), cols, i as int);
            },
            Some(size) => {
                if !(c.column_id > data[0] || c.column_id > idx || idx > data[0] || cursor + size
                    > data.len()) {
                    let rest = legacy_fixed(data, cols, i + 1, cursor + size, idx + 1);
                    lemma_legacy_fixed_bound(data, cols, i + 1, cursor + size, idx + 1);
                    lemma_named_after_cons(
                        (c.name@, fixed_value(data.subrange(cursor, cursor + size), c.coltyp)),
                        rest,
                        cols,
                        i as int,
                    );
                }
            },
        }
    }
}

proof fn lemma_legacy_var_bound(
    data: Seq<u8>,
    cols: Seq<ColumnDef>,
    i: nat,
    k: int,
    prev_end: u16,
    num_var: int,
    area: int,
    payload: int,
)
    ensures
        legacy_var(data, cols, i, k, prev_end, num_var, area, payload) matches Some(v) ==> v.len()
            <= count_sized(cols, i, false) && named_after(v, cols, i as int),
    decreases cols.len() - i,
{
    if i < cols.len() {
        let c = cols[i as int];
        if fixed_size(c.coltyp) is Some {
            lemma_legacy_var_bound(data, cols, i + 1, k, prev_end, num_var, area, payload);
            if let Some(v) = legacy_var(data, cols, i + 1, k, prev_end, num_var, area, payload) {
                lemma_named_after_weaken(v, cols, i as int);
            }
        } else if k < num_var {
            let raw = le16_at(data, area + 2 * k);
            lemma_legacy_var_bound(data, cols, i + 1, k + 1, raw & 0x7FFF, num_var, area, payload);
            if let Some(rest) = legacy_var(
                data,
                cols,
                i + 1,
                k + 1,
                raw & 0x7FFF,
                num_var,
                area,
                payload,
            ) {
                lemma_named_after_weaken(rest, cols, i as int);
                let start = payload + prev_end;
                let end = payload + (raw & 0x7FFF);
                if raw & 0x8000 == 0 && end <= data.len() && start <= end {
                    lemma_named_after_cons(
                        (c.name@, legacy_var_value(data.subrange(start, end), c.coltyp)),
                        rest,
                        cols,
                        i as int,
                    );
                }
            }
        }
    }
}

/// Decoding a legacy-layout record yields at most one value per column
/// definition, each under the name of one of the definitions.
pub proof fn law_legacy_record_one_entry_per_column(data: Seq<u8>, cols: Seq<ColumnDef>)
    ensures
        legacy_record(data, cols) matches Some(v) ==> v.len() <= cols.len() && named_after(
            v,
            cols,
            0,
        ),
{
    if data.len() >= 4 {
        let num_var = data[1] as int;
        let vdo = le16_at(data, 2) as int;
        let fixed = legacy_fixed(data, cols, 0, 4, 1);
        lemma_count_sized_partition(cols, 0);
        lemma_legacy_fixed_bound(data, cols, 0, 4, 1);
        lemma_legacy_var_bound(data, cols, 0, 0, 0, num_var, vdo - 2 * num_var, vdo);
        if let Some(v) = legacy_var(data, cols, 0, 0, 0, num_var, vdo - 2 * num_var, vdo) {
            lemma_named_after_concat(fixed, v, cols);
        }
    }
}

/// Decode an ESE data record (legacy small-page fixture layout) into named
/// column values.
///
/// ```text
/// Offset 0:  last_fixed_col_id   (u8)  — highest fixed column ID in this record
/// Offset 1:  last_var_col_idx    (u8)  — count of variable columns in this record
/// Offset 2:  var_data_offset     (u16) — offset from record start to variable data
/// Offset 4…: fixed column data (packed, column_id 1 through last_fixed_col_id)
/// var_data_offset…end-of-var: variable column data
/// ```
///
/// Each fixed column occupies exactly [`fixed_col_size`] bytes; the fixed
/// pass stops at the first fixed column whose id leaves a gap after the
/// previous one, since the size of the missing slot is unknown. The variable
/// columns have a 2-byte end-offset array immediately before the variable
/// data (end offsets relative to `var_data_offset`); the high bit of an
/// entry marks a NULL column. Unknown coltypes are returned as
/// `EseValue::Binary`.
///
/// # Errors
///
/// `EseError::Corrupt` when the 4-byte header cannot be read, when the
/// variable data offset lies past the record or leaves no room for the
/// end-offset array after the header, or when a non-NULL variable column that
/// is decoded ends past the record.
pub fn decode_record(data: &[u8], columns: &[ColumnDef]) -> (res: Result<
    Vec<(String, EseValue)>,
    EseError,
>)
    ensures
        match legacy_record(data@, columns@) {
            Some(s) => res matches Ok(v) && entries_model(v@) == s,
            None => res is Err,
        },
        res matches Ok(v) ==> v@.len() <= columns@.len(),
{
    proof {
        law_legacy_record_one_entry_per_column(data@, columns@);
    }
    let len = data.len();
    if len < 4 {
        return Err(EseError::Corrupt("record shorter than its header"));
    }
    let mut result: Vec<(String, EseValue)> = Vec::new();
    let last_fixed_col = data[0] as u32;
    let num_var_cols = data[1] as usize;
    let var_data_offset = u16_at(data, 2) as usize;

    // ── fixed columns (column_id 1..=last_fixed_col) ─────────────────────────
    let ghost whole_fixed = legacy_fixed(data@, columns@, 0, 4, 1);
    let mut fixed_cursor: usize = 4;
    let mut fixed_col_idx: u32 = 1;
    let mut i: usize = 0;
    assert(entries_model(result@) =~= Seq::<EntryModel>::empty());
    while i < columns.len()
        invariant
            i <= columns@.len(),
            len == data@.len(),
            last_fixed_col == data@[0],
            4 <= fixed_cursor <= len,
            1 <= fixed_col_idx <= 256,
            entries_model(result@) + legacy_fixed(
                data@,
                columns@,
                i as nat,
                fixed_cursor as int,
                fixed_col_idx as int,
            ) == whole_fixed,
        ensures
            entries_model(result@) == whole_fixed,
        decreases columns@.len() - i,
    {
        let col = &columns[i];
        let size = match fixed_col_size(col.coltyp) {
            None => {
                i = i + 1;
                continue;
            },
            Some(size) => size,
        };
        if col.column_id > last_fixed_col {
            break;
        }
        // A fixed column id that the definition list does not hold leaves a
        // slot of unknown size: the packed offsets after it cannot be known.
        if fixed_col_idx < col.column_id {
            break;
        }
        if fixed_col_idx > last_fixed_col || size > len - fixed_cursor {
            break;
        }
        let val = decode_fixed(&data[fixed_cursor..fixed_cursor + size], col.coltyp);
        let entry = (col.name.clone(), val);
        proof {
            lemma_entries_model_push(result@, entry);
        }
        result.push(entry);
        fixed_cursor = fixed_cursor + size;
        fixed_col_idx = fixed_col_idx + 1;
        i = i + 1;
        assert(entries_model(result@) + legacy_fixed(
            data@,
            columns@,
            i as nat,
            fixed_cursor as int,
            fixed_col_idx as int,
        ) =~= whole_fixed);
    }

    // ── variable columns ─────────────────────────────────────────────────────
    if num_var_cols == 0 {
        return Ok(result);
    }
    // The end-offset array lies immediately before the variable data.
    if var_data_offset > len || var_data_offset < 4 + num_var_cols * 2 {
        return Err(EseError::Corrupt("variable data offset out of bounds"));
    }
    let offsets_area_start = var_data_offset - num_var_cols * 2;
    let var_payload_start = var_data_offset;
    let ghost whole_var = legacy_var(
        data@,
        columns@,
        0,
        0,
        0,
        num_var_cols as int,
        offsets_area_start as int,
        var_payload_start as int,
    );
    let ghost fixed_part = entries_model(result@);
    let ghost mut done = Seq::<EntryModel>::empty();
    let mut var_col_idx: usize = 0;
    let mut prev_end: u16 = 0;
    let mut i: usize = 0;
    assert(fixed_part + done =~= fixed_part);
    assert(whole_var is None ==> legacy_record(data@, columns@) is None);
    while i < columns.len()
        invariant
            i <= columns@.len(),
            len == data@.len(),
            var_col_idx <= num_var_cols <= 255,
            offsets_area_start + num_var_cols * 2 == var_payload_start <= len,
            prev_end <= 0x7FFF,
            entries_model(result@) == fixed_part + done,
            whole_var is None ==> legacy_record(data@, columns@) is None,
            whole_var == match legacy_var(
                data@,
                columns@,
                i as nat,
                var_col_idx as int,
                prev_end,
                num_var_cols as int,
                offsets_area_start as int,
                var_payload_start as int,
            ) {
                Some(rest) => Some(done + rest),
                None => None::<Seq<EntryModel>>,
            },
        ensures
            entries_model(result@) == fixed_part + done,
            whole_var == Some(done),
        decreases columns@.len() - i,
    {
        let col = &columns[i];
        if fixed_col_size(col.coltyp).is_some() {
            i = i + 1;
            continue;
        }
        if var_col_idx >= num_var_cols {
            assert(done + Seq::<EntryModel>::empty() =~= done);
            break;
        }
        let off_pos = offsets_area_start + var_col_idx * 2;
        let raw_end = u16_at(data, off_pos);
        let is_null = raw_end & 0x8000 != 0;
        let end_offset = (raw_end & 0x7FFF) as usize;
        proof {
            lemma_mask_u16(raw_end, 0x7FFF);
        }
        if !is_null {
            if end_offset > len - var_payload_start {
                assert(legacy_var(
                    data@,
                    columns@,
                    i as nat,
                    var_col_idx as int,
                    prev_end,
                    num_var_cols as int,
                    offsets_area_start as int,
                    var_payload_start as int,
                ) is None);
                return Err(EseError::Corrupt("variable column ends past the record"));
            }
            if prev_end as usize <= end_offset {
                let start = var_payload_start + prev_end as usize;
                let end = var_payload_start + end_offset;
                let bytes = &data[start..end];
                let val = if col.coltyp == coltyp::TEXT {
                    EseValue::Text(utf8_lossy_string(bytes))
                } else {
                    EseValue::Binary(vstd::slice::slice_to_vec(bytes))
                };
                let entry = (col.name.clone(), val);
                proof {
                    lemma_entries_model_push(result@, entry);
                    done = done.push(entry_model(entry));
                    assert(entries_model(result@.push(entry)) =~= fixed_part + done);
                }
                result.push(entry);
            }
        }
        prev_end = raw_end & 0x7FFF;
        var_col_idx = var_col_idx + 1;
        i = i + 1;
    }
    assert(fixed_part + done =~= whole_fixed + done);
    Ok(result)
}

} // verus!
