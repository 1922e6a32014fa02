//! The file prologue: page size, page count and the table directory.
use vstd::prelude::*;
use crate::bytes::{le32, read_u32};
use crate::error::PdbError;

verus! {

/// Bytes of the prologue before the table directory.
pub const PROLOGUE_LEN: usize = 12;

/// Bytes of one table directory entry.
pub const ENTRY_LEN: usize = 12;

/// One logical table: its type and the first and last page of its chain.
#[derive(Debug, Clone, Copy, PartialEq, Eq, Structural)]
pub struct TableDescriptor {
    pub table_type: u32,
    pub first_page: u32,
    pub last_page: u32,
}

/// The value of a decoded prologue.
pub struct HeaderV {
    pub page_size: u32,
    pub page_count: u32,
    pub tables: Seq<TableDescriptor>,
}

/// The directory entry stored at `o`.
pub open spec fn entry_at(s: Seq<u8>, o: int) -> TableDescriptor {
    TableDescriptor { table_type: le32(s, o), first_page: le32(s, o + 4), last_page: le32(s, o + 8) }
}

/// The prologue of file `s`: rejected when it is short, when the page size
/// is zero, or when the directory it declares runs past the end of the file.
pub open spec fn header_of(s: Seq<u8>) -> Result<HeaderV, PdbError> {
    if s.len() < PROLOGUE_LEN {
        Err(PdbError::MalformedHeader)
    } else {
        let n = le32(s, 8);
        if le32(s, 0) == 0 || PROLOGUE_LEN + ENTRY_LEN * n > s.len() {
            Err(PdbError::MalformedHeader)
        } else {
            Ok(
                HeaderV {
                    page_size: le32(s, 0),
                    page_count: le32(s, 4),
                    tables: Seq::new(n as nat, |i: int| entry_at(s, PROLOGUE_LEN + ENTRY_LEN * i)),
                },
            )
        }
    }
}

/// A decoded prologue.
#[derive(Debug)]
pub struct Header {
    pub page_size: u32,
    pub page_count: u32,
    pub tables: Vec<TableDescriptor>,
}

impl View for Header {
    type V = HeaderV;

    open spec fn view(&self) -> HeaderV {
        HeaderV { page_size: self.page_size, page_count: self.page_count, tables: self.tables@ }
    }
}

impl Header {
    /// Decodes the prologue and the table directory at the start of `d`.
    pub fn decode(d: &Vec<u8>) -> (r: Result<Header, PdbError>)
        ensures
            match header_of(d@) {
                Ok(v) => r is Ok && r->Ok_0@ == v,
                Err(e) => r == Err::<Header, PdbError>(e),
            },
    {
        let len = d.len();
        if len < PROLOGUE_LEN {
            return Err(PdbError::MalformedHeader);
        }
        let page_size = read_u32(d, 0);
        let page_count = read_u32(d, 4);
        let n = read_u32(d, 8);
        if page_size == 0 || (n as usize) > (len - PROLOGUE_LEN) / ENTRY_LEN {
            return Err(PdbError::MalformedHeader);
        }
        let ghost want = Seq::new(n as nat, |i: int| entry_at(d@, PROLOGUE_LEN + ENTRY_LEN * i));
        let mut tables: Vec<TableDescriptor> = Vec::new();
        let mut i: usize = 0;
        let mut o: usize = PROLOGUE_LEN;
        while i < n as usize
            invariant
                PROLOGUE_LEN + ENTRY_LEN * n <= len,
                len == d@.len(),
                i <= n,
                o == PROLOGUE_LEN + ENTRY_LEN * i,
                tables@ == want.take(i as int),
                want == Seq::new(n as nat, |k: int| entry_at(d@, PROLOGUE_LEN + ENTRY_LEN * k)),
            decreases n - i,
        {
            let table_type = read_u32(d, o);
            let first_page = read_u32(d, o + 4);
            let last_page = read_u32(d, o + 8);
            assert(want[i as int] == entry_at(d@, o as int));
            tables.push(TableDescriptor { table_type, first_page, last_page });
            assert(tables@ =~= want.take(i + 1));
            i = i + 1;
            o = o + ENTRY_LEN;
        }
        assert(want.take(n as int) =~= want);
        Ok(Header { page_size, page_count, tables })
    }
}

} // verus!
