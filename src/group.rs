//! Row groups: a run of fixed-size row slots followed by a presence bitmask.
use vstd::prelude::*;
use crate::error::PdbError;
use crate::row::{decode_row, row_of, slot_len, slot_size, DatabaseType, Row, RowV};

verus! {

/// The values of a sequence of rows.
pub open spec fn rows_view(v: Seq<Row>) -> Seq<RowV> {
    v.map_values(|r: Row| r@)
}

/// Bit `k` of mask byte `b`, least significant bit first.
pub open spec fn bit_set(b: u8, k: u8) -> bool {
    (b >> k) & 1u8 == 1u8
}

/// Whether slot `i` is live according to the mask starting at `mask_base`.
pub open spec fn slot_present(s: Seq<u8>, mask_base: int, i: int) -> bool {
    bit_set(s[mask_base + i / 8], (i % 8) as u8)
}

/// The rows of the live slots among the first `k`, in slot order. Slots
/// whose bit is clear are never decoded.
pub open spec fn present_rows(
    db: DatabaseType,
    tag: u32,
    s: Seq<u8>,
    base: int,
    mask_base: int,
    k: nat,
) -> Result<Seq<RowV>, PdbError>
    decreases k,
{
    if k == 0 {
        Ok(Seq::empty())
    } else {
        match present_rows(db, tag, s, base, mask_base, (k - 1) as nat) {
            Err(e) => Err(e),
            Ok(r) => if slot_present(s, mask_base, k - 1) {
                let start = base + (k - 1) * slot_size(db, tag);
                match row_of(db, tag, s.subrange(start, start + slot_size(db, tag))) {
                    Some(x) => Ok(r.push(x)),
                    None => Err(PdbError::MalformedRow),
                }
            } else {
                Ok(r)
            },
        }
    }
}

/// The number of mask bytes that govern `n` slots.
pub open spec fn mask_len(n: int) -> int {
    (n + 7) / 8
}

/// Where the row group starting at `pos` ends: one count byte, the slots,
/// then the mask.
pub open spec fn group_end(db: DatabaseType, tag: u32, s: Seq<u8>, pos: int) -> int {
    pos + 1 + s[pos] * slot_size(db, tag) + mask_len(s[pos] as int)
}

/// The live rows of the row group at `pos`, which must end by `end`.
pub open spec fn group_at(db: DatabaseType, tag: u32, s: Seq<u8>, pos: int, end: int) -> Result<
    Seq<RowV>,
    PdbError,
> {
    if pos + 1 > end || group_end(db, tag, s, pos) > end {
        Err(PdbError::MalformedPage)
    } else {
        present_rows(db, tag, s, pos + 1, pos + 1 + s[pos] * slot_size(db, tag), s[pos] as nat)
    }
}

/// One row group of a data page, holding the rows of its live slots.
#[derive(Debug)]
pub struct RowGroup {
    pub rows: Vec<Row>,
}

impl View for RowGroup {
    type V = Seq<RowV>;

    open spec fn view(&self) -> Seq<RowV> {
        rows_view(self.rows@)
    }
}

impl RowGroup {
    /// The live rows, in slot order.
    pub fn into_rows(self) -> (r: Vec<Row>)
        ensures
            rows_view(r@) == self@,
    {
        self.rows
    }
}

proof fn lemma_slot_fits(i: usize, count: usize, size: usize)
    requires
        i < count,
    ensures
        i * size + size <= count * size,
{
    assert(i * size + size <= count * size) by (nonlinear_arith)
        requires i < count;
}

proof fn lemma_mask_index(i: usize, count: usize)
    requires
        i < count,
    ensures
        i / 8 < mask_len(count as int),
{
}

/// Once a slot fails to decode, every longer prefix fails the same way.
proof fn lemma_present_err(
    db: DatabaseType,
    tag: u32,
    s: Seq<u8>,
    base: int,
    mask_base: int,
    k: nat,
    m: nat,
)
    requires
        k <= m,
        present_rows(db, tag, s, base, mask_base, k) is Err,
    ensures
        present_rows(db, tag, s, base, mask_base, m) == present_rows(db, tag, s, base, mask_base, k),
    decreases m - k,
{
    if k < m {
        lemma_present_err(db, tag, s, base, mask_base, k, (m - 1) as nat);
    }
}

/// The live rows of `count` slots at `base` governed by the mask at `mask_base`.
fn decode_present(
    d: &Vec<u8>,
    base: usize,
    mask_base: usize,
    count: usize,
    db: DatabaseType,
    tag: u32,
) -> (r: Result<Vec<Row>, PdbError>)
    requires
        base + count * slot_size(db, tag) <= mask_base,
        mask_base + mask_len(count as int) <= d@.len(),
    ensures
        match present_rows(db, tag, d@, base as int, mask_base as int, count as nat) {
            Ok(v) => r is Ok && rows_view(r->Ok_0@) == v,
            Err(e) => r == Err::<Vec<Row>, PdbError>(e),
        },
{
    let len = d.len();
    let size = slot_len(db, tag);
    let mut rows: Vec<Row> = Vec::new();
    let mut i: usize = 0;
    let mut slot: usize = base;
    assert(rows_view(rows@) =~= Seq::<RowV>::empty());
    while i < count
        invariant
            i <= count,
            size as nat == slot_size(db, tag),
            base + count * size <= mask_base,
            mask_base + mask_len(count as int) <= d@.len(),
            d@.len() == len,
            slot == base + i * size,
            present_rows(db, tag, d@, base as int, mask_base as int, i as nat) == Ok::<
                Seq<RowV>,
                PdbError,
            >(rows_view(rows@)),
        decreases count - i,
    {
        proof {
            lemma_slot_fits(i, count, size);
            lemma_mask_index(i, count);
        }
        let b = d[mask_base + i / 8];
        let k = (i % 8) as u8;
        if (b >> k) & 1u8 == 1u8 {
            match decode_row(d, slot, db, tag) {
                Ok(row) => {
                    let ghost old_rows = rows@;
                    rows.push(row);
                    assert(rows_view(rows@) =~= rows_view(old_rows).push(row@));
                },
                Err(e) => {
                    proof {
                        lemma_present_err(db, tag, d@, base as int, mask_base as int, (i + 1) as nat, count as nat);
                    }
                    return Err(e);
                },
            }
        }
        assert((i + 1) * size == i * size + size) by (nonlinear_arith);
        i = i + 1;
        slot = slot + size;
    }
    Ok(rows)
}

/// Decodes the row group at `pos` of a page of table type `tag` that ends at
/// `end`, and returns it with the position just past it.
pub fn decode_group(d: &Vec<u8>, pos: usize, end: usize, db: DatabaseType, tag: u32) -> (r: Result<
    (RowGroup, usize),
    PdbError,
>)
    requires
        end <= d@.len(),
    ensures
        match group_at(db, tag, d@, pos as int, end as int) {
            Ok(v) => r is Ok && r->Ok_0.0@ == v && r->Ok_0.1 == group_end(db, tag, d@, pos as int),
            Err(e) => r == Err::<(RowGroup, usize), PdbError>(e),
        },
{
    if pos >= end {
        return Err(PdbError::MalformedPage);
    }
    let count = d[pos] as usize;
    let size = slot_len(db, tag);
    let room = end - pos - 1;
    assert(count * size <= 255 * 48) by (nonlinear_arith)
        requires count <= 255, size <= 48;
    let need = count * size + (count + 7) / 8;
    if need > room {
        return Err(PdbError::MalformedPage);
    }
    let base = pos + 1;
    let mask_base = base + count * size;
    match decode_present(d, base, mask_base, count, db, tag) {
        Ok(rows) => Ok((RowGroup { rows }, mask_base + (count + 7) / 8)),
        Err(e) => Err(e),
    }
}

} // verus!
