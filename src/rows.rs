//! The row collection of a whole file, and iteration over it.
use vstd::prelude::*;
use crate::error::PdbError;
use crate::group::rows_view;
use crate::header::{header_of, Header, TableDescriptor};
use crate::page::{page_rows, prepend, PageV};
use crate::reader::table_pages;
use crate::row::{DatabaseType, Row, RowV};

verus! {

/// The rows of a sequence of pages, in page order.
pub open spec fn pages_rows(p: Seq<PageV>) -> Seq<RowV>
    decreases p.len(),
{
    if p.len() == 0 {
        Seq::empty()
    } else {
        pages_rows(p.drop_last()) + page_rows(p.last())
    }
}

/// The rows of the first `k` tables of directory `t`, table after table;
/// the first error met, if any.
pub open spec fn tables_rows(db: DatabaseType, s: Seq<u8>, ps: nat, t: Seq<TableDescriptor>, k: nat) -> Result<
    Seq<RowV>,
    PdbError,
>
    decreases k,
{
    if k == 0 {
        Ok(Seq::empty())
    } else {
        match tables_rows(db, s, ps, t, (k - 1) as nat) {
            Err(e) => Err(e),
            Ok(r) => match table_pages(db, s, ps, t[k - 1]) {
                Ok(p) => Ok(r + pages_rows(p)),
                Err(e) => Err(e),
            },
        }
    }
}

/// Every row of file `s`, in directory, then page-chain, then slot order.
pub open spec fn file_rows(db: DatabaseType, s: Seq<u8>) -> Result<Seq<RowV>, PdbError> {
    match header_of(s) {
        Err(e) => Err(e),
        Ok(h) => tables_rows(db, s, h.page_size as nat, h.tables, h.tables.len()),
    }
}

/// Once a table fails, every longer prefix of the directory fails the same way.
pub proof fn lemma_tables_err(db: DatabaseType, s: Seq<u8>, ps: nat, t: Seq<TableDescriptor>, k: nat, m: nat)
    requires
        k <= m,
        tables_rows(db, s, ps, t, k) is Err,
    ensures
        tables_rows(db, s, ps, t, m) == tables_rows(db, s, ps, t, k),
    decreases m - k,
{
    if k < m {
        lemma_tables_err(db, s, ps, t, k, (m - 1) as nat);
    }
}

proof fn lemma_prepend_assoc(a: Seq<PageV>, p: PageV, r: Result<Seq<PageV>, PdbError>)
    ensures
        prepend(a, prepend(seq![p], r)) == prepend(a.push(p), r),
{
    if r is Ok {
        assert(a + (seq![p] + r->Ok_0) =~= a.push(p) + r->Ok_0);
    }
}

/// All rows extracted from one file.
#[derive(Debug, Default)]
pub struct PdbRows {
    rows: Vec<Row>,
}

impl PdbRows {
    /// The rows held, in extraction order.
    pub closed spec fn rows(&self) -> Seq<Row> {
        self.rows@
    }

    /// Returns `true` if no rows were extracted.
    pub fn is_empty(&self) -> (r: bool)
        ensures
            r == (self.rows().len() == 0),
    {
        self.rows.len() == 0
    }

    /// Returns the number of extracted rows.
    pub fn len(&self) -> (r: usize)
        ensures
            r == self.rows().len(),
    {
        self.rows.len()
    }

    /// Iterates over the extracted rows by reference.
    pub fn iter(&self) -> (r: PdbRowIter<'_>)
        ensures
            r.wf(),
            r.remaining() == self.rows(),
    {
        PdbRowIter { rows: &self.rows, front: 0, back: self.rows.len() }
    }

    /// Consumes the collection and returns the owned rows.
    pub fn into_rows(self) -> (r: Vec<Row>)
        ensures
            r@ == self.rows(),
    {
        self.rows
    }
}

/// Iterator over the rows of a [`PdbRows`], from either end.
#[derive(Debug)]
pub struct PdbRowIter<'a> {
    rows: &'a Vec<Row>,
    front: usize,
    back: usize,
}

impl<'a> PdbRowIter<'a> {
    /// The cursor bounds lie within the rows.
    pub closed spec fn wf(&self) -> bool {
        self.front <= self.back <= self.rows@.len()
    }

    /// The rows not yet handed out, front first.
    pub closed spec fn remaining(&self) -> Seq<Row> {
        self.rows@.subrange(self.front as int, self.back as int)
    }

    /// Hands out the first remaining row.
    pub fn next(&mut self) -> (r: Option<&'a Row>)
        requires
            old(self).wf(),
        ensures
            final(self).wf(),
            old(self).remaining().len() == 0 ==> r is None && final(self).remaining() == old(self).remaining(),
            old(self).remaining().len() > 0 ==> r is Some && *r->Some_0 == old(self).remaining()[0]
                && final(self).remaining() == old(self).remaining().drop_first(),
    {
        if self.front == self.back {
            None
        } else {
            let rows: &'a Vec<Row> = self.rows;
            let i = self.front;
            self.front = self.front + 1;
            proof {
                assert(old(self).remaining().drop_first() =~= self.remaining());
            }
            Some(&rows[i])
        }
    }

    /// Hands out the last remaining row.
    pub fn next_back(&mut self) -> (r: Option<&'a Row>)
        requires
            old(self).wf(),
        ensures
            final(self).wf(),
            old(self).remaining().len() == 0 ==> r is None && final(self).remaining() == old(self).remaining(),
            old(self).remaining().len() > 0 ==> r is Some && *r->Some_0 == old(self).remaining().last()
                && final(self).remaining() == old(self).remaining().drop_last(),
    {
        if self.front == self.back {
            None
        } else {
            let rows: &'a Vec<Row> = self.rows;
            self.back = self.back - 1;
            proof {
                assert(old(self).remaining().drop_last() =~= self.remaining());
            }
            Some(&rows[self.back])
        }
    }

    /// The number of rows not yet handed out.
    pub fn len(&self) -> (r: usize)
        requires
            self.wf(),
        ensures
            r == self.remaining().len(),
    {
        self.back - self.front
    }
}

/// The rows handed out when draining `s` from both ends: at each step the
/// last remaining row where `back` holds, else the first.
pub open spec fn take_ends(s: Seq<Row>, back: Seq<bool>) -> Seq<Row>
    decreases back.len(),
{
    if back.len() == 0 || s.len() == 0 {
        Seq::empty()
    } else if back[0] {
        seq![s.last()] + take_ends(s.drop_last(), back.drop_first())
    } else {
        seq![s[0]] + take_ends(s.drop_first(), back.drop_first())
    }
}

/// Draining a collection from both ends in any alternation hands out every
/// row exactly once, as draining from the front does; draining from the
/// front alone hands them out in order.
pub proof fn lemma_drain_both_ends(s: Seq<Row>, back: Seq<bool>)
    requires
        back.len() >= s.len(),
    ensures
        take_ends(s, back).to_multiset() == s.to_multiset(),
        take_ends(s, back).len() == s.len(),
        (forall|i: int| 0 <= i < back.len() ==> !back[i]) ==> take_ends(s, back) == s,
    decreases back.len(),
{
    broadcast use vstd::seq_lib::lemma_multiset_commutative;
    if back.len() == 0 || s.len() == 0 {
        assert(s =~= Seq::<Row>::empty());
    } else if back[0] {
        let rest = s.drop_last();
        lemma_drain_both_ends(rest, back.drop_first());
        assert(s =~= rest + seq![s.last()]);
        assert((rest + seq![s.last()]).to_multiset() =~= (seq![s.last()] + rest).to_multiset());
    } else {
        let rest = s.drop_first();
        lemma_drain_both_ends(rest, back.drop_first());
        assert(s =~= seq![s[0]] + rest);
        if forall|i: int| 0 <= i < back.len() ==> !back[i] {
            assert forall|i: int| 0 <= i < back.drop_first().len() implies !back.drop_first()[i] by {
                assert(!back[i + 1]);
            }
        }
    }
}

/// Two collections read from the same bytes hold the same rows in the same
/// order; iteration and `into_rows` both hand out exactly those rows.
pub proof fn lemma_collection_owned_equivalence(a: &PdbRows, b: &PdbRows, db: DatabaseType, d: Seq<u8>)
    requires
        file_rows(db, d) == Ok::<Seq<RowV>, PdbError>(rows_view(a.rows())),
        file_rows(db, d) == Ok::<Seq<RowV>, PdbError>(rows_view(b.rows())),
    ensures
        rows_view(a.rows()) == rows_view(b.rows()),
        a.rows().len() == b.rows().len(),
{
    assert(a.rows().len() == rows_view(a.rows()).len());
    assert(b.rows().len() == rows_view(b.rows()).len());
}

/// Extracts every row of the database file `d`: all tables in directory
/// order, each walked along its page chain, keeping the live rows of each
/// data page. Fails with the first error met.
pub fn pdb_rows_from_bytes(d: &Vec<u8>, db: DatabaseType) -> (r: Result<PdbRows, PdbError>)
    ensures
        match file_rows(db, d@) {
            Ok(v) => r is Ok && rows_view(r->Ok_0.rows()) == v,
            Err(e) => r == Err::<PdbRows, PdbError>(e),
        },
{
    let header = match Header::decode(d) {
        Ok(h) => h,
        Err(e) => {
            return Err(e);
        },
    };
    let ghost ps = header.page_size as nat;
    let ghost t = header.tables@;
    let mut rows: Vec<Row> = Vec::new();
    let mut j: usize = 0;
    assert(rows_view(rows@) =~= Seq::<RowV>::empty());
    while j < header.tables.len()
        invariant
            header_of(d@) == Ok::<crate::header::HeaderV, PdbError>(header@),
            ps == header.page_size as nat,
            t == header.tables@,
            j <= t.len(),
            tables_rows(db, d@, ps, t, j as nat) == Ok::<Seq<RowV>, PdbError>(rows_view(rows@)),
        decreases t.len() - j,
    {
        let table = header.tables[j];
        let mut reader = header.read_pages(d, &table, db);
        let ghost prefix = rows_view(rows@);
        let ghost whole = table_pages(db, d@, ps, table);
        let ghost mut seen: Seq<PageV> = Seq::empty();
        let mut finished = false;
        assert(prepend(seen, reader.rest(d@)) =~= reader.rest(d@)) by {
            if reader.rest(d@) is Ok {
                assert(seen + reader.rest(d@)->Ok_0 =~= reader.rest(d@)->Ok_0);
            }
        }
        assert(prefix + pages_rows(seen) =~= prefix);
        while !finished
            invariant
                !finished ==> whole == prepend(seen, reader.rest(d@)),
                finished ==> whole == Ok::<Seq<PageV>, PdbError>(seen),
                rows_view(rows@) == prefix + pages_rows(seen),
                header_of(d@) == Ok::<crate::header::HeaderV, PdbError>(header@),
                ps == header.page_size as nat,
                t == header.tables@,
                j < t.len(),
                table == t[j as int],
                whole == table_pages(db, d@, ps, table),
                tables_rows(db, d@, ps, t, j as nat) == Ok::<Seq<RowV>, PdbError>(prefix),
            decreases reader.remaining() + if finished { 0int } else { 1int },
        {
            match reader.next_page(d) {
                None => {
                    finished = true;
                    assert(seen + Seq::<PageV>::empty() =~= seen);
                },
                Some(Ok(p)) => {
                    let ghost pv = p@;
                    proof {
                        lemma_prepend_assoc(seen, pv, reader.rest(d@));
                    }
                    let mut more = p.into_rows();
                    let ghost before = rows@;
                    rows.append(&mut more);
                    proof {
                        let ns = seen.push(pv);
                        assert(ns.drop_last() =~= seen);
                        assert(rows_view(rows@) =~= rows_view(before) + page_rows(pv));
                        assert(prefix + pages_rows(seen) + page_rows(pv) =~= prefix + pages_rows(ns));
                        seen = ns;
                    }
                },
                Some(Err(e)) => {
                    proof {
                        lemma_tables_err(db, d@, ps, t, (j + 1) as nat, t.len());
                    }
                    return Err(e);
                },
            }
        }
        j = j + 1;
    }
    assert(t.len() == header.tables.len());
    Ok(PdbRows { rows })
}

} // verus!
