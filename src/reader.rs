//! Walking a table's page chain, one page at a time.
use vstd::prelude::*;
use crate::error::PdbError;
use crate::header::{Header, TableDescriptor};
use crate::page::{decode_page, page_at, prepend, Page, PageV};
use crate::row::DatabaseType;

verus! {

/// The pages of the chain that starts at `cur` and stops after the page whose
/// stored index is `last`. At most `fuel` pages are read: a longer chain
/// revisits a page and is rejected.
pub open spec fn chain_pages(
    db: DatabaseType,
    s: Seq<u8>,
    ps: nat,
    cur: u32,
    last: u32,
    fuel: nat,
) -> Result<Seq<PageV>, PdbError>
    decreases fuel,
{
    if fuel == 0 {
        Err(PdbError::MalformedPage)
    } else {
        match page_at(db, s, ps, cur) {
            Err(e) => Err(e),
            Ok(p) => if p.index == last {
                Ok(seq![p])
            } else {
                prepend(seq![p], chain_pages(db, s, ps, p.next_page, last, (fuel - 1) as nat))
            },
        }
    }
}

/// How many pages of `ps` bytes file `s` holds: no chain is longer.
pub open spec fn page_limit(s: Seq<u8>, ps: nat) -> nat {
    if ps == 0 {
        0
    } else {
        s.len() / ps
    }
}

/// The pages of table `t` in file `s`.
pub open spec fn table_pages(db: DatabaseType, s: Seq<u8>, ps: nat, t: TableDescriptor) -> Result<
    Seq<PageV>,
    PdbError,
> {
    chain_pages(db, s, ps, t.first_page, t.last_page, page_limit(s, ps))
}

/// A cursor over a page chain: the next page to read and the page to stop
/// after.
#[derive(Debug)]
pub struct PageReader {
    next: u32,
    last: u32,
    fuel: usize,
    done: bool,
    page_size: u32,
    db: DatabaseType,
}

impl PageReader {
    /// The pages not yet handed out, read from file `s`.
    pub closed spec fn rest(&self, s: Seq<u8>) -> Result<Seq<PageV>, PdbError> {
        if self.done {
            Ok(Seq::empty())
        } else {
            chain_pages(self.db, s, self.page_size as nat, self.next, self.last, self.fuel as nat)
        }
    }

    /// Shrinks with each page handed out.
    pub closed spec fn remaining(&self) -> nat {
        if self.done {
            0
        } else {
            self.fuel as nat + 1
        }
    }

    /// Reads the next page of the chain from `d`: `None` once the last page
    /// has been handed out or an error was.
    pub fn next_page(&mut self, d: &Vec<u8>) -> (r: Option<Result<Page, PdbError>>)
        ensures
            match r {
                None => old(self).rest(d@) == Ok::<Seq<PageV>, PdbError>(Seq::empty()) && *final(self)
                    == *old(self),
                Some(Ok(p)) => old(self).rest(d@) == prepend(seq![p@], final(self).rest(d@)),
                Some(Err(e)) => old(self).rest(d@) == Err::<Seq<PageV>, PdbError>(e) && final(self).rest(
                    d@,
                ) == Ok::<Seq<PageV>, PdbError>(Seq::empty()),
            },
            r is Some ==> final(self).remaining() < old(self).remaining(),
    {
        if self.done {
            return None;
        }
        if self.fuel == 0 {
            self.done = true;
            return Some(Err(PdbError::MalformedPage));
        }
        match decode_page(d, self.page_size, self.next, self.db) {
            Err(e) => {
                self.done = true;
                Some(Err(e))
            },
            Ok(p) => {
                if p.index == self.last {
                    self.done = true;
                    assert(seq![p@] + Seq::<PageV>::empty() =~= seq![p@]);
                } else {
                    self.next = p.next_page;
                    self.fuel = self.fuel - 1;
                }
                Some(Ok(p))
            },
        }
    }
}

impl Header {
    /// A cursor over the page chain of table `t` in file `d`, whose pages
    /// lie at `index * page_size`.
    pub fn read_pages(&self, d: &Vec<u8>, t: &TableDescriptor, db: DatabaseType) -> (r: PageReader)
        ensures
            r.rest(d@) == table_pages(db, d@, self.page_size as nat, *t),
            r.remaining() == page_limit(d@, self.page_size as nat) + 1,
    {
        let fuel = if self.page_size == 0 {
            0
        } else {
            d.len() / (self.page_size as usize)
        };
        PageReader { next: t.first_page, last: t.last_page, fuel, done: false, page_size: self.page_size, db }
    }
}

} // verus!
