//! Decoding of real ESE data-definition records: fixed, variable and tagged
//! columns, classified by their catalog column id.

use vstd::prelude::*;

use crate::bytes::{le16_at, le16_or_zero, lemma_mask_u16, read_le_u16, u16_at};
use crate::error::EseError;
use crate::text::{decode_variable_or_tagged, var_value};
use crate::value::{
    decode_fixed, entries_model, fixed_col_size, fixed_size, fixed_value, lemma_entries_model_push,
    lemma_named_after_concat, lemma_named_after_cons, lemma_named_after_weaken, named_after,
    ColumnDef, EntryModel, EseValue,
};

verus! {

/// Number of variable columns a record holds: its byte 1 is the highest
/// variable column id (128..=255), 127 or less meaning none.
pub open spec fn var_count(r: Seq<u8>) -> int {
    if r[1] > 127 {
        r[1] - 127
    } else {
        0
    }
}

/// The fixed columns (id 1..=127, packed from byte 4 in id order) that
/// `cols[i..]` yields, the next value starting at byte `cursor`.
pub open spec fn ese_fixed(r: Seq<u8>, cols: Seq<ColumnDef>, i: nat, cursor: int) -> Seq<
    EntryModel,
>
    decreases cols.len() - i,
{
    if i >= cols.len() {
        Seq::empty()
    } else {
        let c = cols[i as int];
        if c.column_id > 127 {
            ese_fixed(r, cols, i + 1, cursor)
        } else if c.column_id > r[0] {
            Seq::empty()
        } else {
            match fixed_size(c.coltyp) {
                None => Seq::empty(),
                Some(size) => if cursor + size > r.len() {
                    Seq::empty()
                } else {
                    seq![(c.name@, fixed_value(r.subrange(cursor, cursor + size), c.coltyp))]
                        + ese_fixed(r, cols, i + 1, cursor + size)
                },
            }
        }
    }
}

/// The bytes of variable column slot `idx`, or `None` when it is NULL or
/// its bounds fall outside the record. The end-offset array of `num_var`
/// 2-byte entries starts at `vdo`; the data follows it.
pub open spec fn var_slot_bytes(r: Seq<u8>, vdo: int, num_var: int, idx: int) -> Option<Seq<u8>> {
    let payload = vdo + 2 * num_var;
    let prev_end = if idx == 0 {
        0
    } else {
        (le16_or_zero(r, vdo + 2 * (idx - 1)) & 0x7FFF) as int
    };
    let raw = le16_or_zero(r, vdo + 2 * idx);
    let start = payload + prev_end;
    let end = payload + (raw & 0x7FFF);
    if raw & 0x8000 != 0 || start > end || end > r.len() {
        None
    } else {
        Some(r.subrange(start, end))
    }
}

/// The variable columns (id 128..=255) that `cols[i..]` yields.
pub open spec fn ese_var(r: Seq<u8>, cols: Seq<ColumnDef>, i: nat, vdo: int, num_var: int) -> Seq<
    EntryModel,
>
    decreases cols.len() - i,
{
    if i >= cols.len() {
        Seq::empty()
    } else {
        let c = cols[i as int];
        let rest = ese_var(r, cols, i + 1, vdo, num_var);
        if c.column_id < 128 || c.column_id > 255 || c.column_id - 128 >= num_var {
            rest
        } else {
            match var_slot_bytes(r, vdo, num_var, c.column_id - 128) {
                None => rest,
                Some(b) => seq![(c.name@, var_value(b, c.coltyp))] + rest,
            }
        }
    }
}

/// Where the tagged-data region starts: right after the variable data.
pub open spec fn tagged_start(r: Seq<u8>, vdo: int, num_var: int) -> int {
    if num_var > 0 {
        vdo + 2 * num_var + (le16_or_zero(r, vdo + 2 * (num_var - 1)) & 0x7FFF)
    } else {
        vdo
    }
}

/// How many tag-array entries are read at `ts`: the first entry's masked
/// offset gives the array size, cut to the entries that fit in the record.
pub open spec fn tag_count(r: Seq<u8>, ts: int) -> int {
    let declared = ((le16_at(r, ts + 2) & 0x3FFF) / 4) as int;
    let room = (r.len() - ts) / 4;
    if declared <= room {
        declared
    } else {
        room
    }
}

/// The first `n` `(column id, raw offset)` entries of the tag array at `ts`.
pub open spec fn tag_entries(r: Seq<u8>, ts: int, n: int) -> Seq<(u16, u16)> {
    Seq::new(n as nat, |k: int| (le16_at(r, ts + 4 * k), le16_at(r, ts + 4 * k + 2)))
}

/// The position of the first entry of `e[j..]` for column `id`.
pub open spec fn find_tag(e: Seq<(u16, u16)>, id: u32, j: nat) -> Option<int>
    decreases e.len() - j,
{
    if j >= e.len() {
        None
    } else if e[j as int].0 as u32 == id {
        Some(j as int)
    } else {
        find_tag(e, id, j + 1)
    }
}

/// The mask of tagged-value offsets: 15 bits on the extended format.
pub open spec fn tag_offset_mask(extended: bool) -> u16 {
    if extended {
        0x7FFF
    } else {
        0x3FFF
    }
}

/// The bytes of the tagged value of entry `k`: from its masked offset to the
/// next entry's (or the record end), less a 1-byte flags prefix on the
/// extended format or when the entry's `0x4000` bit is set; `None` when the
/// bounds are out of order or outside the record.
pub open spec fn tag_value_bytes(
    r: Seq<u8>,
    e: Seq<(u16, u16)>,
    k: int,
    ts: int,
    extended: bool,
) -> Option<Seq<u8>> {
    let raw = e[k].1;
    let start = ts + (raw & tag_offset_mask(extended));
    let end = if k + 1 < e.len() {
        ts + (e[k + 1].1 & tag_offset_mask(extended))
    } else {
        r.len() as int
    };
    if start > end || end > r.len() {
        None
    } else if extended || raw & 0x4000 != 0 {
        if start == end {
            None
        } else {
            Some(r.subrange(start + 1, end))
        }
    } else {
        Some(r.subrange(start, end))
    }
}

/// The tagged columns (id >= 256) that `cols[i..]` yields from the tag
/// entries `e` of the region at `ts`.
pub open spec fn tagged_values(
    r: Seq<u8>,
    cols: Seq<ColumnDef>,
    i: nat,
    extended: bool,
    ts: int,
    e: Seq<(u16, u16)>,
) -> Seq<EntryModel>
    decreases cols.len() - i,
{
    if i >= cols.len() {
        Seq::empty()
    } else {
        let c = cols[i as int];
        let rest = tagged_values(r, cols, i + 1, extended, ts, e);
        if c.column_id < 256 {
            rest
        } else {
            match find_tag(e, c.column_id, 0) {
                None => rest,
                Some(k) => match tag_value_bytes(r, e, k, ts, extended) {
                    None => rest,
                    Some(b) => seq![(c.name@, var_value(b, c.coltyp))] + rest,
                },
            }
        }
    }
}

/// The tagged columns a record yields.
pub open spec fn tagged_part(
    r: Seq<u8>,
    cols: Seq<ColumnDef>,
    extended: bool,
    vdo: int,
    num_var: int,
) -> Seq<EntryModel> {
    let ts = tagged_start(r, vdo, num_var);
    if ts + 4 > r.len() {
        Seq::empty()
    } else {
        tagged_values(r, cols, 0, extended, ts, tag_entries(r, ts, tag_count(r, ts)))
    }
}

/// Some column of `cols` is a tagged column.
pub open spec fn has_tagged(cols: Seq<ColumnDef>) -> bool {
    exists|i: int| 0 <= i < cols.len() && cols[i].column_id >= 256
}

/// What [`decode_ese_record`] yields for `r`, `cols` and `extended`.
pub open spec fn ese_record(r: Seq<u8>, cols: Seq<ColumnDef>, extended: bool) -> Seq<EntryModel> {
    if r.len() < 4 {
        Seq::empty()
    } else {
        let vdo = le16_at(r, 2) as int;
        let num_var = var_count(r);
        ese_fixed(r, cols, 0, 4) + (if num_var > 0 {
            ese_var(r, cols, 0, vdo, num_var)
        } else {
            Seq::empty()
        }) + (if has_tagged(cols) {
            tagged_part(r, cols, extended, vdo, num_var)
        } else {
            Seq::empty()
        })
    }
}

/// How many of `cols[i..]` have a column id in `lo..=hi`.
pub open spec fn count_ids(cols: Seq<ColumnDef>, i: nat, lo: int, hi: int) -> nat
    decreases cols.len() - i,
{
    if i >= cols.len() {
        0
    } else {
        count_ids(cols, i + 1, lo, hi) + if lo <= cols[i as int].column_id <= hi {
            1nat
        } else {
            0nat
        }
    }
}

/// The fixed, variable and tagged id ranges split the columns.
proof fn lemma_count_ids_partition(cols: Seq<ColumnDef>, i: nat)
    requires
        i <= cols.len(),
    ensures
        count_ids(cols, i, 0, 127) + count_ids(cols, i, 128, 255) + count_ids(
            cols,
            i,
            256,
            u32::MAX as int,
        ) == cols.len() - i,
    decreases cols.len() - i,
{
    if i < cols.len() {
        lemma_count_ids_partition(cols, i + 1);
    }
}

proof fn lemma_ese_fixed_bound(r: Seq<u8>, cols: Seq<ColumnDef>, i: nat, cursor: int)
    ensures
        ese_fixed(r, cols, i, cursor).len() <= count_ids(cols, i, 0, 127),
        named_after(ese_fixed(r, cols, i, cursor), cols, i as int),
    decreases cols.len() - i,
{
    if i < cols.len() {
        let c = cols[i as int];
        if c.column_id > 127 {
            lemma_ese_fixed_bound(r, cols, i + 1, cursor);
            lemma_named_after_weaken(ese_fixed(r, cols, i + 1, cursor), cols, i as int);
        } else if c.column_id <= r[0] {
            if let Some(size) = fixed_size(c.coltyp) {
                if cursor + size <= r.len() {
                    let rest = ese_fixed(r, cols, i + 1, cursor + size);
                    lemma_ese_fixed_bound(r, cols, i + 1, cursor + size);
                    lemma_named_after_cons(
                        (c.name@, fixed_value(r.subrange(cursor, cursor + size), c.coltyp)),
                        rest,
                        cols,
                        i as int,
                    );
                }
            }
        }
    }
}

proof fn lemma_ese_var_bound(r: Seq<u8>, cols: Seq<ColumnDef>, i: nat, vdo: int, num_var: int)
    ensures
        ese_var(r, cols, i, vdo, num_var).len() <= count_ids(cols, i, 128, 255),
        named_after(ese_var(r, cols, i, vdo, num_var), cols, i as int),
    decreases cols.len() - i,
{
    if i < cols.len() {
        let c = cols[i as int];
        let rest = ese_var(r, cols, i + 1, vdo, num_var);
        lemma_ese_var_bound(r, cols, i + 1, vdo, num_var);
        lemma_named_after_weaken(rest, cols, i as int);
        if !(c.column_id < 128 || c.column_id > 255 || c.column_id - 128 >= num_var) {
            if let Some(b) = var_slot_bytes(r, vdo, num_var, c.column_id - 128) {
                lemma_named_after_cons((c.name@, var_value(b, c.coltyp)), rest, cols, i as int);
            }
        }
    }
}

proof fn lemma_tagged_values_bound(
    r: Seq<u8>,
    cols: Seq<ColumnDef>,
    i: nat,
    extended: bool,
    ts: int,
    e: Seq<(u16, u16)>,
)
    ensures
        tagged_values(r, cols, i, extended, ts, e).len() <= count_ids(
            cols,
            i,
            256,
            u32::MAX as int,
        ),
        named_after(tagged_values(r, cols, i, extended, ts, e), cols, i as int),
    decreases cols.len() - i,
{
    if i < cols.len() {
        let c = cols[i as int];
        let rest = tagged_values(r, cols, i + 1, extended, ts, e);
        lemma_tagged_values_bound(r, cols, i + 1, extended, ts, e);
        lemma_named_after_weaken(rest, cols, i as int);
        if c.column_id >= 256 {
            if let Some(k) = find_tag(e, c.column_id, 0) {
                if let Some(b) = tag_value_bytes(r, e, k, ts, extended) {
                    lemma_named_after_cons((c.name@, var_value(b, c.coltyp)), rest, cols, i as int);
                }
            }
        }
    }
}

/// Decoding a record yields at most one value per column definition, each
/// under the name of one of the definitions: a record, however malformed,
/// never makes up columns.
pub proof fn law_ese_record_one_entry_per_column(r: Seq<u8>, cols: Seq<ColumnDef>, extended: bool)
    ensures
        ese_record(r, cols, extended).len() <= cols.len(),
        named_after(ese_record(r, cols, extended), cols, 0),
{
    if r.len() >= 4 {
        let vdo = le16_at(r, 2) as int;
        let num_var = var_count(r);
        let f = ese_fixed(r, cols, 0, 4);
        let v = if num_var > 0 {
            ese_var(r, cols, 0, vdo, num_var)
        } else {
            Seq::empty()
        };
        let t = if has_tagged(cols) {
            tagged_part(r, cols, extended, vdo, num_var)
        } else {
            Seq::empty()
        };
        lemma_count_ids_partition(cols, 0);
        lemma_ese_fixed_bound(r, cols, 0, 4);
        lemma_ese_var_bound(r, cols, 0, vdo, num_var);
        let ts = tagged_start(r, vdo, num_var);
        lemma_tagged_values_bound(
            r,
            cols,
            0,
            extended,
            ts,
            tag_entries(r, ts, tag_count(r, ts)),
        );
        lemma_named_after_concat(f, v, cols);
        lemma_named_after_concat(f + v, t, cols);
    }
}

/// The columns of `cols[i..]` that are not tagged (id < 256), in order.
pub open spec fn untagged(cols: Seq<ColumnDef>, i: nat) -> Seq<ColumnDef>
    decreases cols.len() - i,
{
    if i >= cols.len() {
        Seq::empty()
    } else if cols[i as int].column_id < 256 {
        seq![cols[i as int]] + untagged(cols, i + 1)
    } else {
        untagged(cols, i + 1)
    }
}

/// The entries that [`decode_ese_record`] takes from the tagged-data region.
pub open spec fn tagged_tail(r: Seq<u8>, cols: Seq<ColumnDef>, extended: bool) -> Seq<EntryModel> {
    if r.len() < 4 || !has_tagged(cols) {
        Seq::empty()
    } else {
        tagged_part(r, cols, extended, le16_at(r, 2) as int, var_count(r))
    }
}

/// Some column of `cols[i..]` with a tagged id is named `name`.
pub open spec fn names_tagged_column(cols: Seq<ColumnDef>, i: int, name: Seq<char>) -> bool {
    exists|j: int| i <= j < cols.len() && cols[j].column_id >= 256 && #[trigger] cols[j].name@ == name
}

/// Two column lists that agree from `i` and `j` on decode alike from there.
proof fn lemma_columns_shift(
    r: Seq<u8>,
    a: Seq<ColumnDef>,
    b: Seq<ColumnDef>,
    i: nat,
    j: nat,
    cursor: int,
    vdo: int,
    num_var: int,
)
    requires
        a.len() - i == b.len() - j,
        i <= a.len(),
        forall|x: int| i <= x < a.len() ==> #[trigger] a[x] == b[x + j - i],
    ensures
        ese_fixed(r, a, i, cursor) == ese_fixed(r, b, j, cursor),
        ese_var(r, a, i, vdo, num_var) == ese_var(r, b, j, vdo, num_var),
    decreases a.len() - i,
{
    if i < a.len() {
        assert(a[i as int] == b[j as int]);
        lemma_columns_shift(r, a, b, i + 1, j + 1, cursor, vdo, num_var);
        if let Some(size) = fixed_size(a[i as int].coltyp) {
            lemma_columns_shift(r, a, b, i + 1, j + 1, cursor + size, vdo, num_var);
        }
    }
}

/// Dropping the tagged columns changes neither the fixed nor the variable
/// columns decoded, and leaves no tagged column.
proof fn lemma_untagged_same_fixed_and_var(
    r: Seq<u8>,
    cols: Seq<ColumnDef>,
    i: nat,
    cursor: int,
    vdo: int,
    num_var: int,
)
    requires
        i <= cols.len(),
    ensures
        ese_fixed(r, cols, i, cursor) == ese_fixed(r, untagged(cols, i), 0, cursor),
        ese_var(r, cols, i, vdo, num_var) == ese_var(r, untagged(cols, i), 0, vdo, num_var),
        forall|k: int| 0 <= k < untagged(cols, i).len() ==> #[trigger] untagged(cols, i)[k].column_id < 256,
        untagged(cols, i).len() <= cols.len() - i,
    decreases cols.len() - i,
{
    if i < cols.len() {
        let c = cols[i as int];
        let v = untagged(cols, i + 1);
        lemma_untagged_same_fixed_and_var(r, cols, i + 1, cursor, vdo, num_var);
        if let Some(size) = fixed_size(c.coltyp) {
            lemma_untagged_same_fixed_and_var(r, cols, i + 1, cursor + size, vdo, num_var);
        }
        if c.column_id < 256 {
            let u = seq![c] + v;
            assert(u[0] == c);
            assert forall|x: int| 1 <= x < u.len() implies #[trigger] u[x] == v[x + 0 - 1] by {}
            lemma_columns_shift(r, u, v, 1, 0, cursor, vdo, num_var);
            if let Some(size) = fixed_size(c.coltyp) {
                lemma_columns_shift(r, u, v, 1, 0, cursor + size, vdo, num_var);
            }
            assert forall|k: int| 0 <= k < u.len() implies #[trigger] u[k].column_id < 256 by {
                if k > 0 {
                    assert(u[k] == v[k - 1]);
                }
            }
        }
    }
}

/// The entries taken from the tagged-data region are named after tagged
/// columns.
proof fn lemma_tagged_values_named(
    r: Seq<u8>,
    cols: Seq<ColumnDef>,
    i: nat,
    extended: bool,
    ts: int,
    e: Seq<(u16, u16)>,
)
    ensures
        forall|k: int|
            0 <= k < tagged_values(r, cols, i, extended, ts, e).len() ==> names_tagged_column(
                cols,
                i as int,
                #[trigger] tagged_values(r, cols, i, extended, ts, e)[k].0,
            ),
    decreases cols.len() - i,
{
    if i < cols.len() {
        let c = cols[i as int];
        let out = tagged_values(r, cols, i, extended, ts, e);
        let rest = tagged_values(r, cols, i + 1, extended, ts, e);
        lemma_tagged_values_named(r, cols, i + 1, extended, ts, e);
        assert forall|k: int| 0 <= k < out.len() implies names_tagged_column(
            cols,
            i as int,
            #[trigger] out[k].0,
        ) by {
            if out == rest {
                assert(names_tagged_column(cols, (i + 1) as int, rest[k].0));
                let j = choose|j: int|
                    i + 1 <= j < cols.len() && cols[j].column_id >= 256 && #[trigger] cols[j].name@
                        == rest[k].0;
                assert(cols[j].name@ == out[k].0);
            } else {
                assert(out =~= seq![out[0]] + rest);
                if k == 0 {
                    assert(cols[i as int].name@ == out[k].0);
                } else {
                    assert(out[k] == rest[k - 1]);
                    assert(names_tagged_column(cols, (i + 1) as int, rest[k - 1].0));
                    let j = choose|j: int|
                        i + 1 <= j < cols.len() && cols[j].column_id >= 256 && #[trigger] cols[j].name@
                            == rest[k - 1].0;
                    assert(cols[j].name@ == out[k].0);
                }
            }
        }
    }
}

/// Tagged columns and the `extended` flag only affect the tail of a decoded
/// record: decoding with all columns gives what decoding with the untagged
/// columns gives (under either flag), followed by entries named after tagged
/// columns.
pub proof fn law_tagged_columns_only_add_a_tail(
    r: Seq<u8>,
    cols: Seq<ColumnDef>,
    extended: bool,
    other_extended: bool,
)
    ensures
        ese_record(r, cols, extended) == ese_record(r, untagged(cols, 0), other_extended)
            + tagged_tail(r, cols, extended),
        forall|k: int|
            0 <= k < tagged_tail(r, cols, extended).len() ==> names_tagged_column(
                cols,
                0,
                #[trigger] tagged_tail(r, cols, extended)[k].0,
            ),
{
    let u = untagged(cols, 0);
    if r.len() >= 4 {
        let vdo = le16_at(r, 2) as int;
        let num_var = var_count(r);
        lemma_untagged_same_fixed_and_var(r, cols, 0, 4, vdo, num_var);
        assert(!has_tagged(u)) by {
            if has_tagged(u) {
                let i = choose|i: int| 0 <= i < u.len() && u[i].column_id >= 256;
                assert(u[i].column_id < 256);
            }
        }
        let ts = tagged_start(r, vdo, num_var);
        lemma_tagged_values_named(r, cols, 0, extended, ts, tag_entries(r, ts, tag_count(r, ts)));
        assert(ese_record(r, cols, extended) =~= ese_record(r, u, other_extended) + tagged_tail(
            r,
            cols,
            extended,
        ));
    } else {
        assert(ese_record(r, cols, extended) =~= ese_record(r, u, other_extended) + tagged_tail(
            r,
            cols,
            extended,
        ));
    }
}

/// Some column of `cols[i..]` whose id lies in `lo..=hi` is named `name`.
pub open spec fn names_column_in(cols: Seq<ColumnDef>, i: int, name: Seq<char>, lo: int, hi: int) -> bool {
    exists|j: int|
        i <= j < cols.len() && lo <= cols[j].column_id <= hi && #[trigger] cols[j].name@ == name
}

/// Every entry of `out` is named after a column of `cols[i..]` with an id in
/// `lo..=hi`.
pub open spec fn all_named_in(out: Seq<EntryModel>, cols: Seq<ColumnDef>, i: int, lo: int, hi: int) -> bool {
    forall|k: int| 0 <= k < out.len() ==> names_column_in(cols, i, #[trigger] out[k].0, lo, hi)
}

proof fn lemma_all_named_in_cons(
    e: EntryModel,
    rest: Seq<EntryModel>,
    cols: Seq<ColumnDef>,
    i: int,
    lo: int,
    hi: int,
)
    requires
        0 <= i < cols.len(),
        lo <= cols[i].column_id <= hi,
        e.0 == cols[i].name@,
        all_named_in(rest, cols, i + 1, lo, hi),
    ensures
        all_named_in(seq![e] + rest, cols, i, lo, hi),
{
    let out = seq![e] + rest;
    assert forall|k: int| 0 <= k < out.len() implies names_column_in(
        cols,
        i,
        #[trigger] out[k].0,
        lo,
        hi,
    ) by {
        if k == 0 {
            assert(cols[i].name@ == out[k].0);
        } else {
            assert(out[k] == rest[k - 1]);
            assert(names_column_in(cols, i + 1, rest[k - 1].0, lo, hi));
            let j = choose|j: int|
                i + 1 <= j < cols.len() && lo <= cols[j].column_id <= hi && #[trigger] cols[j].name@
                    == rest[k - 1].0;
            assert(cols[j].name@ == out[k].0);
        }
    }
}

proof fn lemma_all_named_in_weaken(out: Seq<EntryModel>, cols: Seq<ColumnDef>, i: int, lo: int, hi: int)
    requires
        all_named_in(out, cols, i + 1, lo, hi),
    ensures
        all_named_in(out, cols, i, lo, hi),
{
    assert forall|k: int| 0 <= k < out.len() implies names_column_in(
        cols,
        i,
        #[trigger] out[k].0,
        lo,
        hi,
    ) by {
        assert(names_column_in(cols, i + 1, out[k].0, lo, hi));
        let j = choose|j: int|
            i + 1 <= j < cols.len() && lo <= cols[j].column_id <= hi && #[trigger] cols[j].name@
                == out[k].0;
        assert(cols[j].name@ == out[k].0);
    }
}

proof fn lemma_ese_fixed_ids(r: Seq<u8>, cols: Seq<ColumnDef>, i: nat, cursor: int)
    requires
        r.len() >= 1,
    ensures
        all_named_in(ese_fixed(r, cols, i, cursor), cols, i as int, 0, r[0] as int),
    decreases cols.len() - i,
{
    if i < cols.len() {
        let c = cols[i as int];
        if c.column_id > 127 {
            lemma_ese_fixed_ids(r, cols, i + 1, cursor);
            lemma_all_named_in_weaken(ese_fixed(r, cols, i + 1, cursor), cols, i as int, 0, r[0] as int);
        } else if c.column_id <= r[0] {
            if let Some(size) = fixed_size(c.coltyp) {
                if cursor + size <= r.len() {
                    lemma_ese_fixed_ids(r, cols, i + 1, cursor + size);
                    lemma_all_named_in_cons(
                        (c.name@, fixed_value(r.subrange(cursor, cursor + size), c.coltyp)),
                        ese_fixed(r, cols, i + 1, cursor + size),
                        cols,
                        i as int,
                        0,
                        r[0] as int,
                    );
                }
            }
        }
    }
}

proof fn lemma_ese_var_ids(r: Seq<u8>, cols: Seq<ColumnDef>, i: nat, vdo: int, num_var: int)
    ensures
        all_named_in(ese_var(r, cols, i, vdo, num_var), cols, i as int, 128, 255),
    decreases cols.len() - i,
{
    if i < cols.len() {
        let c = cols[i as int];
        let rest = ese_var(r, cols, i + 1, vdo, num_var);
        lemma_ese_var_ids(r, cols, i + 1, vdo, num_var);
        lemma_all_named_in_weaken(rest, cols, i as int, 128, 255);
        if !(c.column_id < 128 || c.column_id > 255 || c.column_id - 128 >= num_var) {
            if let Some(b) = var_slot_bytes(r, vdo, num_var, c.column_id - 128) {
                lemma_all_named_in_cons((c.name@, var_value(b, c.coltyp)), rest, cols, i as int, 128, 255);
            }
        }
    }
}

proof fn lemma_tagged_values_ids(
    r: Seq<u8>,
    cols: Seq<ColumnDef>,
    i: nat,
    extended: bool,
    ts: int,
    e: Seq<(u16, u16)>,
)
    ensures
        all_named_in(tagged_values(r, cols, i, extended, ts, e), cols, i as int, 256, u32::MAX as int),
    decreases cols.len() - i,
{
    if i < cols.len() {
        let c = cols[i as int];
        let rest = tagged_values(r, cols, i + 1, extended, ts, e);
        lemma_tagged_values_ids(r, cols, i + 1, extended, ts, e);
        lemma_all_named_in_weaken(rest, cols, i as int, 256, u32::MAX as int);
        if c.column_id >= 256 {
            if let Some(k) = find_tag(e, c.column_id, 0) {
                if let Some(b) = tag_value_bytes(r, e, k, ts, extended) {
                    lemma_all_named_in_cons(
                        (c.name@, var_value(b, c.coltyp)),
                        rest,
                        cols,
                        i as int,
                        256,
                        u32::MAX as int,
                    );
                }
            }
        }
    }
}

/// A decoded record holds only the columns it can hold: every entry is named
/// after a definition that is either a fixed column (id 1..=127) no higher
/// than the record's last fixed column id (byte 0), or a variable (128..=255)
/// or tagged (>= 256) column. A fixed column past the last fixed id never
/// yields an entry.
pub proof fn law_ese_record_columns_by_id(r: Seq<u8>, cols: Seq<ColumnDef>, extended: bool)
    requires
        r.len() >= 4,
    ensures
        forall|k: int|
            0 <= k < ese_record(r, cols, extended).len() ==> {
                let name = #[trigger] ese_record(r, cols, extended)[k].0;
                ||| names_column_in(cols, 0, name, 0, r[0] as int)
                ||| names_column_in(cols, 0, name, 128, 255)
                ||| names_column_in(cols, 0, name, 256, u32::MAX as int)
            },
{
    let vdo = le16_at(r, 2) as int;
    let num_var = var_count(r);
    let f = ese_fixed(r, cols, 0, 4);
    let v = if num_var > 0 {
        ese_var(r, cols, 0, vdo, num_var)
    } else {
        Seq::empty()
    };
    let t = if has_tagged(cols) {
        tagged_part(r, cols, extended, vdo, num_var)
    } else {
        Seq::empty()
    };
    let ts = tagged_start(r, vdo, num_var);
    lemma_ese_fixed_ids(r, cols, 0, 4);
    lemma_ese_var_ids(r, cols, 0, vdo, num_var);
    lemma_tagged_values_ids(r, cols, 0, extended, ts, tag_entries(r, ts, tag_count(r, ts)));
    let out = ese_record(r, cols, extended);
    assert(out =~= f + v + t);
    assert forall|k: int| 0 <= k < out.len() implies {
        let name = #[trigger] out[k].0;
        ||| names_column_in(cols, 0, name, 0, r[0] as int)
        ||| names_column_in(cols, 0, name, 128, 255)
        ||| names_column_in(cols, 0, name, 256, u32::MAX as int)
    } by {
        if k < f.len() {
            assert(out[k] == f[k]);
        } else if k < f.len() + v.len() {
            assert(out[k] == v[k - f.len()]);
        } else {
            assert(out[k] == t[k - f.len() - v.len()]);
        }
    }
}

/// Whether any column of `columns` is tagged (id >= 256).
fn any_tagged(columns: &[ColumnDef]) -> (r: bool)
    ensures
        r == has_tagged(columns@),
{
    let mut i: usize = 0;
    while i < columns.len()
        invariant
            i <= columns@.len(),
            forall|j: int| 0 <= j < i ==> columns@[j].column_id < 256,
        decreases columns@.len() - i,
    {
        if columns[i].column_id >= 256 {
            return true;
        }
        i = i + 1;
    }
    false
}

/// The index of the first entry of `entries` for column `id`.
fn position_of(entries: &Vec<(u16, u16)>, id: u32) -> (r: Option<usize>)
    ensures
        match r {
            Some(k) => k < entries@.len() && find_tag(entries@, id, 0) == Some(k as int),
            None => find_tag(entries@, id, 0) is None,
        },
{
    let mut k: usize = 0;
    while k < entries.len()
        invariant
            k <= entries@.len(),
            find_tag(entries@, id, 0) == find_tag(entries@, id, k as nat),
        decreases entries@.len() - k,
    {
        if entries[k].0 as u32 == id {
            return Some(k);
        }
        k = k + 1;
    }
    None
}

/// Decode the tagged-data region (INDEX format) into any tagged columns
/// (id >= 256) present in `columns`.
///
/// The region begins at the end of the variable data with a tag array of
/// `{id: u16, offset: u16}` entries; the first entry's masked offset gives the
/// array size (`(offset & 0x3fff) / 4` entries). Each value spans from its
/// masked offset to the next entry's (or the record end for the last). On the
/// extended (large-page) format — or when an entry's `0x4000` bit is set — the
/// value is prefixed with a 1-byte flags byte.
fn decode_tagged_columns(
    record: &[u8],
    columns: &[ColumnDef],
    extended: bool,
    var_data_offset: usize,
    num_var: usize,
    result: &mut Vec<(String, EseValue)>,
)
    requires
        var_data_offset <= 0xFFFF,
        num_var <= 128,
    ensures
        entries_model(final(result)@) == entries_model(old(result)@) + tagged_part(
            record@,
            columns@,
            extended,
            var_data_offset as int,
            num_var as int,
        ),
{
    let len = record.len();
    let ghost r = record@;
    let ghost start_model = entries_model(result@);
    let tagged_start = if num_var > 0 {
        let last_raw = read_le_u16(record, var_data_offset + (num_var - 1) * 2);
        proof {
            lemma_mask_u16(last_raw, 0x7FFF);
        }
        var_data_offset + num_var * 2 + (last_raw & 0x7FFF) as usize
    } else {
        var_data_offset
    };
    if tagged_start + 4 > len {
        assert(entries_model(result@) =~= start_model + Seq::<EntryModel>::empty());
        return;
    }
    let offset_mask: u16 = if extended {
        0x7FFF
    } else {
        0x3FFF
    };
    let first_offset = read_le_u16(record, tagged_start + 2);
    let entry_count = ((first_offset & 0x3FFF) / 4) as usize;
    proof {
        lemma_mask_u16(first_offset, 0x3FFF);
    }

    // Parse the tag array: (column id, raw offset) per entry.
    let mut entries: Vec<(u16, u16)> = Vec::new();
    let mut k: usize = 0;
    while k < entry_count
        invariant
            len == r.len(),
            r == record@,
            tagged_start + 4 <= len,
            tagged_start <= 0x20000,
            k <= entry_count <= 0x1000,
            entry_count == (le16_at(r, tagged_start + 2) & 0x3FFF) / 4,
            4 * k <= len - tagged_start,
            entries@ =~= tag_entries(r, tagged_start as int, k as int),
        ensures
            entries@ =~= tag_entries(r, tagged_start as int, tag_count(r, tagged_start as int)),
        decreases entry_count - k,
    {
        let p = tagged_start + k * 4;
        if 4 > len - p {
            break;
        }
        entries.push((read_le_u16(record, p), read_le_u16(record, p + 2)));
        k = k + 1;
    }
    let ghost e = entries@;
    let ghost whole = tagged_values(r, columns@, 0, extended, tagged_start as int, e);
    assert(tagged_part(r, columns@, extended, var_data_offset as int, num_var as int) == whole);

    let mut i: usize = 0;
    while i < columns.len()
        invariant
            i <= columns@.len(),
            len == r.len(),
            r == record@,
            e == entries@,
            tagged_start <= 0x20000,
            offset_mask == tag_offset_mask(extended),
            entries_model(result@) + tagged_values(
                r,
                columns@,
                i as nat,
                extended,
                tagged_start as int,
                e,
            ) == start_model + whole,
        decreases columns@.len() - i,
    {
        let col = &columns[i];
        if col.column_id >= 256 {
            match position_of(&entries, col.column_id) {
                None => {},
                Some(k) => {
                    let raw_offset = entries[k].1;
                    proof {
                        lemma_mask_u16(raw_offset, offset_mask);
                    }
                    let start = tagged_start + (raw_offset & offset_mask) as usize;
                    let end = if k < entries.len() - 1 {
                        let next_off = entries[k + 1].1;
                        proof {
                            lemma_mask_u16(next_off, offset_mask);
                        }
                        tagged_start + (next_off & offset_mask) as usize
                    } else {
                        len
                    };
                    if start <= end && end <= len {
                        let skip_flags = extended || (raw_offset & 0x4000 != 0);
                        if !skip_flags || start < end {
                            let from = if skip_flags {
                                start + 1
                            } else {
                                start
                            };
                            let bytes = &record[from..end];
                            let entry = (col.name.clone(), decode_variable_or_tagged(bytes, col.coltyp));
                            proof {
                                lemma_entries_model_push(result@, entry);
                            }
                            result.push(entry);
                        }
                    }
                },
            }
        }
        i = i + 1;
        assert(entries_model(result@) + tagged_values(
            r,
            columns@,
            i as nat,
            extended,
            tagged_start as int,
            e,
        ) =~= start_model + whole);
    }
    assert(entries_model(result@) =~= start_model + whole);
}

/// Decode a real ESE data-definition record — fixed, variable AND tagged
/// columns — using the on-disk column-id classification.
///
/// Byte 0 is the highest fixed column id, byte 1 the highest variable column
/// id, bytes 2–3 the offset of the variable end-offset array. Columns are
/// classified by their catalog id: 1..=127 fixed, 128..=255 variable, >= 256
/// tagged.
///
/// `extended` selects large-page (format revision >= 17, page size >= 16384)
/// tagged decoding: a 15-bit tagged offset mask and a per-value flags byte.
///
/// Per-column decode failures degrade to that column being absent, never a
/// panic; a record shorter than its header decodes to no columns.
pub fn decode_ese_record(record: &[u8], columns: &[ColumnDef], extended: bool) -> (res: Result<
    Vec<(String, EseValue)>,
    EseError,
>)
    ensures
        res matches Ok(v) && entries_model(v@) == ese_record(record@, columns@, extended),
        res matches Ok(v) && v@.len() <= columns@.len(),
{
    proof {
        law_ese_record_one_entry_per_column(record@, columns@, extended);
    }
    let len = record.len();
    let ghost r = record@;
    let mut result: Vec<(String, EseValue)> = Vec::new();
    assert(entries_model(result@) =~= Seq::<EntryModel>::empty());
    if len < 4 {
        return Ok(result);
    }
    let last_fixed = record[0] as u32;
    let last_var = record[1];
    let var_data_offset = u16_at(record, 2) as usize;
    let num_var: usize = if last_var > 127 {
        (last_var - 127) as usize
    } else {
        0
    };

    // ── fixed columns (id 1..=127, packed from byte 4 in id order) ───────────
    let ghost fixed_whole = ese_fixed(r, columns@, 0, 4);
    let mut cursor: usize = 4;
    let mut i: usize = 0;
    while i < columns.len()
        invariant
            i <= columns@.len(),
            len == r.len(),
            r == record@,
            last_fixed == r[0],
            4 <= cursor <= len,
            entries_model(result@) + ese_fixed(r, columns@, i as nat, cursor as int)
                == fixed_whole,
        ensures
            entries_model(result@) == fixed_whole,
        decreases columns@.len() - i,
    {
        let col = &columns[i];
        if col.column_id > 127 {
            i = i + 1;
            continue;
        }
        if col.column_id > last_fixed {
            break;
        }
        let size = match fixed_col_size(col.coltyp) {
            Some(size) => size,
            None => {
                break;
            },
        };
        if size > len - cursor {
            break;
        }
        let entry = (col.name.clone(), decode_fixed(&record[cursor..cursor + size], col.coltyp));
        proof {
            lemma_entries_model_push(result@, entry);
        }
        result.push(entry);
        cursor = cursor + size;
        i = i + 1;
        assert(entries_model(result@) + ese_fixed(r, columns@, i as nat, cursor as int)
            =~= fixed_whole);
    }

    // ── variable columns (id 128..=255) ──────────────────────────────────────
    let ghost after_fixed = entries_model(result@);
    let ghost var_whole = if num_var > 0 {
        ese_var(r, columns@, 0, var_data_offset as int, num_var as int)
    } else {
        Seq::<EntryModel>::empty()
    };
    if num_var > 0 {
        let payload_start = var_data_offset + num_var * 2;
        let mut i: usize = 0;
        while i < columns.len()
            invariant
                i <= columns@.len(),
                len == r.len(),
                r == record@,
                0 < num_var <= 128,
                var_data_offset <= 0xFFFF,
                payload_start == var_data_offset + 2 * num_var,
                entries_model(result@) + ese_var(
                    r,
                    columns@,
                    i as nat,
                    var_data_offset as int,
                    num_var as int,
                ) == after_fixed + var_whole,
            decreases columns@.len() - i,
        {
            let col = &columns[i];
            if col.column_id >= 128 && col.column_id <= 255 && ((col.column_id - 128) as usize)
                < num_var {
                let idx = (col.column_id - 128) as usize;
                let prev_end = if idx == 0 {
                    0usize
                } else {
                    let raw_prev = read_le_u16(record, var_data_offset + (idx - 1) * 2);
                    proof {
                        lemma_mask_u16(raw_prev, 0x7FFF);
                    }
                    (raw_prev & 0x7FFF) as usize
                };
                let raw_end = read_le_u16(record, var_data_offset + idx * 2);
                proof {
                    lemma_mask_u16(raw_end, 0x7FFF);
                }
                if raw_end & 0x8000 == 0 {
                    let start = payload_start + prev_end;
                    let end = payload_start + (raw_end & 0x7FFF) as usize;
                    if start <= end && end <= len {
                        let entry = (
                            col.name.clone(),
                            decode_variable_or_tagged(&record[start..end], col.coltyp),
                        );
                        proof {
                            lemma_entries_model_push(result@, entry);
                        }
                        result.push(entry);
                    }
                }
            }
            i = i + 1;
            assert(entries_model(result@) + ese_var(
                r,
                columns@,
                i as nat,
                var_data_offset as int,
                num_var as int,
            ) =~= after_fixed + var_whole);
        }
    }
    assert(entries_model(result@) =~= after_fixed + var_whole);

    // ── tagged columns (id >= 256) ───────────────────────────────────────────
    if any_tagged(columns) {
        decode_tagged_columns(record, columns, extended, var_data_offset, num_var, &mut result);
    }
    assert(entries_model(result@) =~= ese_record(r, columns@, extended));
    Ok(result)
}

} // verus!
