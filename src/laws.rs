//! Properties of the decoder, stated over the spec functions of each layer.
use vstd::prelude::*;
use crate::bytes::le32;
use crate::error::PdbError;
use crate::group::{present_rows, slot_present};
use crate::header::{entry_at, header_of, HeaderV, TableDescriptor, ENTRY_LEN, PROLOGUE_LEN};
use crate::page::{page_at, PageV};
use crate::reader::{chain_pages, table_pages};
use crate::row::{known_table, row_of, slot_size, DatabaseType, RowV};
use crate::rows::{file_rows, tables_rows};

verus! {

/// The four little-endian bytes of `v`.
pub open spec fn u32_bytes(v: u32) -> Seq<u8> {
    seq![(v % 256) as u8, ((v / 256) % 256) as u8, ((v / 65536) % 256) as u8, (v / 16777216) as u8]
}

/// The bytes of a table directory, entry after entry.
pub open spec fn dir_bytes(t: Seq<TableDescriptor>) -> Seq<u8>
    decreases t.len(),
{
    if t.len() == 0 {
        Seq::empty()
    } else {
        dir_bytes(t.drop_last()) + u32_bytes(t.last().table_type) + u32_bytes(t.last().first_page) + u32_bytes(
            t.last().last_page,
        )
    }
}

/// The bytes of a prologue with page size `ps`, page count `pc` and
/// directory `t`.
pub open spec fn prologue_bytes(ps: u32, pc: u32, t: Seq<TableDescriptor>) -> Seq<u8> {
    u32_bytes(ps) + u32_bytes(pc) + u32_bytes(t.len() as u32) + dir_bytes(t)
}

proof fn lemma_le32_at(s: Seq<u8>, o: int, v: u32)
    requires
        0 <= o,
        o + 4 <= s.len(),
        s.subrange(o, o + 4) == u32_bytes(v),
    ensures
        le32(s, o) == v,
{
    assert(s[o] == s.subrange(o, o + 4)[0]);
    assert(s[o + 1] == s.subrange(o, o + 4)[1]);
    assert(s[o + 2] == s.subrange(o, o + 4)[2]);
    assert(s[o + 3] == s.subrange(o, o + 4)[3]);
    let x = v as int;
    assert(x == x % 256 + 256 * ((x / 256) % 256) + 65536 * ((x / 65536) % 256) + 16777216 * (x / 16777216))
        by (nonlinear_arith)
        requires 0 <= x < 0x1_0000_0000;
}

proof fn lemma_dir_bytes(t: Seq<TableDescriptor>, tail: Seq<u8>)
    ensures
        dir_bytes(t).len() == ENTRY_LEN * t.len(),
        forall|i: int| 0 <= i < t.len() ==> entry_at(dir_bytes(t) + tail, ENTRY_LEN * i) == #[trigger] t[i],
    decreases t.len(),
{
    if t.len() > 0 {
        let init = t.drop_last();
        let e = t.last();
        let eb = u32_bytes(e.table_type) + u32_bytes(e.first_page) + u32_bytes(e.last_page);
        lemma_dir_bytes(init, eb + tail);
        let whole = dir_bytes(t) + tail;
        assert(whole =~= dir_bytes(init) + (eb + tail));
        assert forall|i: int| 0 <= i < t.len() implies entry_at(whole, ENTRY_LEN * i) == #[trigger] t[i] by {
            if i < t.len() - 1 {
                assert(t[i] == init[i]);
            } else {
                let o = ENTRY_LEN * i;
                assert(o == dir_bytes(init).len());
                assert(whole.subrange(o, o + 4) =~= u32_bytes(e.table_type));
                assert(whole.subrange(o + 4, o + 8) =~= u32_bytes(e.first_page));
                assert(whole.subrange(o + 8, o + 12) =~= u32_bytes(e.last_page));
                lemma_le32_at(whole, o, e.table_type);
                lemma_le32_at(whole, o + 4, e.first_page);
                lemma_le32_at(whole, o + 8, e.last_page);
            }
        }
    }
}

/// Decoding a prologue built from a page size, a page count and a directory
/// of `N` tables, whatever follows it, gives back a directory of `N` entries
/// equal to the one encoded, and the same page size and count.
pub proof fn lemma_header_round_trip(ps: u32, pc: u32, t: Seq<TableDescriptor>, tail: Seq<u8>)
    requires
        ps > 0,
        t.len() <= u32::MAX,
    ensures
        header_of(prologue_bytes(ps, pc, t) + tail) == Ok::<HeaderV, PdbError>(
            HeaderV { page_size: ps, page_count: pc, tables: t },
        ),
{
    let s = prologue_bytes(ps, pc, t) + tail;
    let pre = u32_bytes(ps) + u32_bytes(pc) + u32_bytes(t.len() as u32);
    lemma_dir_bytes(t, tail);
    assert(s =~= pre + (dir_bytes(t) + tail));
    assert(s.subrange(0, 4) =~= u32_bytes(ps));
    assert(s.subrange(4, 8) =~= u32_bytes(pc));
    assert(s.subrange(8, 12) =~= u32_bytes(t.len() as u32));
    lemma_le32_at(s, 0, ps);
    lemma_le32_at(s, 4, pc);
    lemma_le32_at(s, 8, t.len() as u32);
    let h = header_of(s)->Ok_0;
    assert forall|i: int| 0 <= i < t.len() implies h.tables[i] == t[i] by {
        assert(entry_at(dir_bytes(t) + tail, ENTRY_LEN * i) == t[i]);
        let o = PROLOGUE_LEN + ENTRY_LEN * i;
        assert(s.subrange(o, o + 12) =~= (dir_bytes(t) + tail).subrange(ENTRY_LEN * i, ENTRY_LEN * i + 12));
        assert(s[o] == (dir_bytes(t) + tail)[ENTRY_LEN * i]);
        assert(s[o + 1] == (dir_bytes(t) + tail)[ENTRY_LEN * i + 1]);
        assert(s[o + 2] == (dir_bytes(t) + tail)[ENTRY_LEN * i + 2]);
        assert(s[o + 3] == (dir_bytes(t) + tail)[ENTRY_LEN * i + 3]);
        assert(s[o + 4] == (dir_bytes(t) + tail)[ENTRY_LEN * i + 4]);
        assert(s[o + 5] == (dir_bytes(t) + tail)[ENTRY_LEN * i + 5]);
        assert(s[o + 6] == (dir_bytes(t) + tail)[ENTRY_LEN * i + 6]);
        assert(s[o + 7] == (dir_bytes(t) + tail)[ENTRY_LEN * i + 7]);
        assert(s[o + 8] == (dir_bytes(t) + tail)[ENTRY_LEN * i + 8]);
        assert(s[o + 9] == (dir_bytes(t) + tail)[ENTRY_LEN * i + 9]);
        assert(s[o + 10] == (dir_bytes(t) + tail)[ENTRY_LEN * i + 10]);
        assert(s[o + 11] == (dir_bytes(t) + tail)[ENTRY_LEN * i + 11]);
    }
    assert(h.tables =~= t);
}

/// The indices of the live slots among the first `k`, in ascending order.
pub open spec fn live_slots(s: Seq<u8>, mask_base: int, k: nat) -> Seq<int>
    decreases k,
{
    if k == 0 {
        Seq::empty()
    } else if slot_present(s, mask_base, k - 1) {
        live_slots(s, mask_base, (k - 1) as nat).push(k - 1)
    } else {
        live_slots(s, mask_base, (k - 1) as nat)
    }
}

/// The live-slot indices are ascending, below `k`, each has its bit set, and
/// every slot below `k` whose bit is set is among them.
pub proof fn lemma_live_slots(s: Seq<u8>, mask_base: int, k: nat)
    ensures
        forall|a: int, b: int|
            0 <= a < b < live_slots(s, mask_base, k).len() ==> live_slots(s, mask_base, k)[a] < live_slots(
                s,
                mask_base,
                k,
            )[b],
        forall|a: int|
            0 <= a < live_slots(s, mask_base, k).len() ==> 0 <= #[trigger] live_slots(s, mask_base, k)[a] < k
                && slot_present(s, mask_base, live_slots(s, mask_base, k)[a]),
        forall|i: int| 0 <= i < k && slot_present(s, mask_base, i) ==> live_slots(s, mask_base, k).contains(i),
    decreases k,
{
    if k > 0 {
        lemma_live_slots(s, mask_base, (k - 1) as nat);
        let p = live_slots(s, mask_base, (k - 1) as nat);
        if slot_present(s, mask_base, k - 1) {
            assert forall|i: int| 0 <= i < k && slot_present(s, mask_base, i) implies live_slots(
                s,
                mask_base,
                k,
            ).contains(i) by {
                if i < k - 1 {
                    let w = choose|w: int| 0 <= w < p.len() && p[w] == i;
                    assert(live_slots(s, mask_base, k)[w] == i);
                } else {
                    assert(live_slots(s, mask_base, k)[p.len() as int] == i);
                }
            }
        }
    }
}

/// A row group yields one row per set presence bit, in ascending bit order:
/// the `j`-th row is the decoding of the `j`-th live slot.
pub proof fn lemma_presence_filtering(
    db: DatabaseType,
    tag: u32,
    s: Seq<u8>,
    base: int,
    mask_base: int,
    k: nat,
)
    requires
        present_rows(db, tag, s, base, mask_base, k) is Ok,
    ensures
        ({
            let r = present_rows(db, tag, s, base, mask_base, k)->Ok_0;
            let live = live_slots(s, mask_base, k);
            &&& r.len() == live.len()
            &&& forall|j: int|
                0 <= j < r.len() ==> row_of(
                    db,
                    tag,
                    s.subrange(
                        base + live[j] * slot_size(db, tag),
                        base + live[j] * slot_size(db, tag) + slot_size(db, tag),
                    ),
                ) == Some(#[trigger] r[j])
        }),
    decreases k,
{
    if k > 0 {
        lemma_presence_filtering(db, tag, s, base, mask_base, (k - 1) as nat);
    }
}

/// With every presence bit clear a row group yields no row, whatever its
/// slots hold: no slot is decoded.
pub proof fn lemma_all_clear(db: DatabaseType, tag: u32, s: Seq<u8>, base: int, mask_base: int, k: nat)
    requires
        forall|i: int| 0 <= i < k ==> !slot_present(s, mask_base, i),
    ensures
        present_rows(db, tag, s, base, mask_base, k) == Ok::<Seq<RowV>, PdbError>(Seq::empty()),
    decreases k,
{
    if k > 0 {
        lemma_all_clear(db, tag, s, base, mask_base, (k - 1) as nat);
    }
}

/// A row group of a table type without its own variant never fails: each
/// live slot is kept as raw bytes tagged with the table type.
pub proof fn lemma_unknown_table_tolerated(
    db: DatabaseType,
    tag: u32,
    s: Seq<u8>,
    base: int,
    mask_base: int,
    k: nat,
)
    requires
        !known_table(db, tag),
    ensures
        present_rows(db, tag, s, base, mask_base, k) is Ok,
        forall|slot: Seq<u8>| row_of(db, tag, slot) == Some(RowV::Unknown { table_type: tag, bytes: slot }),
    decreases k,
{
    if k > 0 {
        lemma_unknown_table_tolerated(db, tag, s, base, mask_base, (k - 1) as nat);
    }
}

/// A table whose first page is also its last yields exactly that page.
pub proof fn lemma_single_page_chain(db: DatabaseType, s: Seq<u8>, ps: nat, first: u32, fuel: nat)
    requires
        fuel > 0,
        page_at(db, s, ps, first) is Ok,
        page_at(db, s, ps, first)->Ok_0.index == first,
    ensures
        chain_pages(db, s, ps, first, first, fuel) == Ok::<Seq<PageV>, PdbError>(
            seq![page_at(db, s, ps, first)->Ok_0],
        ),
{
}

/// A chain through the page indices `idx`, each page pointing at the next and
/// only the final one carrying the last-page index, yields exactly its `K`
/// pages in pointer order, when the file holds at least `K` pages.
pub proof fn lemma_chain_of_k_pages(
    db: DatabaseType,
    s: Seq<u8>,
    ps: nat,
    idx: Seq<u32>,
    pages: Seq<PageV>,
    last: u32,
    fuel: nat,
)
    requires
        idx.len() > 0,
        pages.len() == idx.len(),
        idx.len() <= fuel,
        forall|j: int| 0 <= j < idx.len() ==> page_at(db, s, ps, #[trigger] idx[j]) == Ok::<PageV, PdbError>(pages[j]),
        forall|j: int| 0 <= j < idx.len() - 1 ==> (#[trigger] pages[j]).index != last && pages[j].next_page == idx[j + 1],
        pages.last().index == last,
    ensures
        chain_pages(db, s, ps, idx[0], last, fuel) == Ok::<Seq<PageV>, PdbError>(pages),
    decreases idx.len(),
{
    assert(page_at(db, s, ps, idx[0]) == Ok::<PageV, PdbError>(pages[0]));
    if idx.len() == 1 {
        assert(pages =~= seq![pages[0]]);
    } else {
        let ri = idx.drop_first();
        let rp = pages.drop_first();
        assert forall|j: int| 0 <= j < ri.len() implies page_at(db, s, ps, #[trigger] ri[j]) == Ok::<PageV, PdbError>(rp[j]) by {
            assert(page_at(db, s, ps, idx[j + 1]) == Ok::<PageV, PdbError>(pages[j + 1]));
        }
        assert forall|j: int| 0 <= j < ri.len() - 1 implies (#[trigger] rp[j]).index != last && rp[j].next_page == ri[j + 1] by {
            assert(pages[j + 1].index != last && pages[j + 1].next_page == idx[j + 2]);
        }
        assert(pages[0].index != last && pages[0].next_page == idx[1]);
        lemma_chain_of_k_pages(db, s, ps, ri, rp, last, (fuel - 1) as nat);
        assert(seq![pages[0]] + rp =~= pages);
    }
}

/// A directory that declares more tables than the file has bytes for is
/// rejected as a malformed header.
pub proof fn lemma_directory_overrun(db: DatabaseType, s: Seq<u8>)
    requires
        s.len() >= PROLOGUE_LEN,
        PROLOGUE_LEN + ENTRY_LEN * le32(s, 8) > s.len(),
    ensures
        file_rows(db, s) == Err::<Seq<RowV>, PdbError>(PdbError::MalformedHeader),
{
}

/// A page that runs past the end of the file is malformed.
pub proof fn lemma_truncated_page(db: DatabaseType, s: Seq<u8>, ps: nat, idx: u32)
    requires
        idx * ps + ps > s.len(),
    ensures
        page_at(db, s, ps, idx) == Err::<PageV, PdbError>(PdbError::MalformedPage),
{
}

/// When a table's chain fails, after the tables before it were read, the
/// whole read fails with that error and yields no rows.
pub proof fn lemma_table_error_fails_read(db: DatabaseType, s: Seq<u8>, k: nat)
    requires
        header_of(s) is Ok,
        k < header_of(s)->Ok_0.tables.len(),
        tables_rows(db, s, header_of(s)->Ok_0.page_size as nat, header_of(s)->Ok_0.tables, k) is Ok,
        table_pages(db, s, header_of(s)->Ok_0.page_size as nat, header_of(s)->Ok_0.tables[k as int]) is Err,
    ensures
        file_rows(db, s) == Err::<Seq<RowV>, PdbError>(
            table_pages(db, s, header_of(s)->Ok_0.page_size as nat, header_of(s)->Ok_0.tables[k as int])->Err_0,
        ),
{
    let h = header_of(s)->Ok_0;
    crate::rows::lemma_tables_err(db, s, h.page_size as nat, h.tables, k + 1, h.tables.len());
}

/// A table whose first page lies past the end of a truncated file makes the
/// whole read fail as a malformed page.
pub proof fn lemma_truncated_file_rejected(db: DatabaseType, s: Seq<u8>, k: nat)
    requires
        header_of(s) is Ok,
        k < header_of(s)->Ok_0.tables.len(),
        tables_rows(db, s, header_of(s)->Ok_0.page_size as nat, header_of(s)->Ok_0.tables, k) is Ok,
        ({
            let h = header_of(s)->Ok_0;
            h.tables[k as int].first_page * h.page_size + h.page_size > s.len()
        }),
    ensures
        file_rows(db, s) == Err::<Seq<RowV>, PdbError>(PdbError::MalformedPage),
{
    lemma_table_error_fails_read(db, s, k);
}

} // verus!
