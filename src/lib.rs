//! Reader for the paged device-export database of a DJ library.
//!
//! A file is a sequence of fixed-size pages. The first page starts with a
//! prologue holding the page size and a table directory; each table is a
//! chain of pages linked by page indices; each data page holds row groups
//! whose slots are filtered by a presence bitmask and decoded into rows.
use vstd::prelude::*;

pub mod bytes;
pub mod error;
pub mod row;
pub mod group;
pub mod page;
pub mod header;
pub mod reader;
pub mod rows;
pub mod laws;

pub use crate::error::PdbError;
pub use crate::group::RowGroup;
pub use crate::header::{Header, TableDescriptor};
pub use crate::page::{decode_page, Page, PageContent};
pub use crate::reader::PageReader;
pub use crate::row::{DatabaseType, Row};
pub use crate::rows::{pdb_rows_from_bytes, PdbRowIter, PdbRows};
