//! Pages: a fixed header followed, on data pages, by row groups.
use vstd::prelude::*;
use crate::bytes::{le16, le32, read_u16, read_u32};
use crate::error::PdbError;
use crate::group::{decode_group, group_at, group_end, RowGroup};
use crate::row::{DatabaseType, RowV};

verus! {

/// Bytes taken by a page's header: index, table type, kind, flags, row-group
/// count and next-page index.
pub const PAGE_HEADER_LEN: usize = 16;

/// The page kind whose content is row groups.
pub const DATA_PAGE: u8 = 0;

/// `a` followed by what `r` holds, or the error of `r`.
pub open spec fn prepend<T>(a: Seq<T>, r: Result<Seq<T>, PdbError>) -> Result<Seq<T>, PdbError> {
    match r {
        Ok(t) => Ok(a + t),
        Err(e) => Err(e),
    }
}

/// The `n` row groups that follow one another from `pos`, each ending by `end`.
pub open spec fn groups_at(
    db: DatabaseType,
    tag: u32,
    s: Seq<u8>,
    pos: int,
    end: int,
    n: nat,
) -> Result<Seq<Seq<RowV>>, PdbError>
    decreases n,
{
    if n == 0 {
        Ok(Seq::empty())
    } else {
        match group_at(db, tag, s, pos, end) {
            Err(e) => Err(e),
            Ok(g) => prepend(seq![g], groups_at(db, tag, s, group_end(db, tag, s, pos), end, (n - 1) as nat)),
        }
    }
}

/// The value of a decoded page; `groups` is `None` for a page that is not a
/// data page.
pub struct PageV {
    pub index: u32,
    pub table_type: u32,
    pub kind: u8,
    pub flags: u8,
    pub row_group_count: u16,
    pub next_page: u32,
    pub groups: Option<Seq<Seq<RowV>>>,
}

/// The page at index `idx` of a file `s` of pages of `ps` bytes.
pub open spec fn page_at(db: DatabaseType, s: Seq<u8>, ps: nat, idx: u32) -> Result<PageV, PdbError> {
    let off = idx * ps;
    if ps < PAGE_HEADER_LEN || off + ps > s.len() {
        Err(PdbError::MalformedPage)
    } else {
        let tag = le32(s, off + 4);
        let kind = s[off + 8];
        let n = le16(s, off + 10);
        let groups: Result<Option<Seq<Seq<RowV>>>, PdbError> = if kind == DATA_PAGE {
            match groups_at(db, tag, s, off + PAGE_HEADER_LEN, off + ps, n as nat) {
                Ok(g) => Ok(Some(g)),
                Err(e) => Err(e),
            }
        } else {
            Ok(None)
        };
        match groups {
            Ok(g) => Ok(
                PageV {
                    index: le32(s, off),
                    table_type: tag,
                    kind,
                    flags: s[off + 9],
                    row_group_count: n,
                    next_page: le32(s, off + 12),
                    groups: g,
                },
            ),
            Err(e) => Err(e),
        }
    }
}

/// The rows of a sequence of row groups, in order.
pub open spec fn flatten(g: Seq<Seq<RowV>>) -> Seq<RowV>
    decreases g.len(),
{
    if g.len() == 0 {
        Seq::empty()
    } else {
        flatten(g.drop_last()) + g.last()
    }
}

/// The rows a page contributes: those of its row groups, or none.
pub open spec fn page_rows(p: PageV) -> Seq<RowV> {
    match p.groups {
        Some(g) => flatten(g),
        None => Seq::empty(),
    }
}

/// What a page holds beyond its header.
#[derive(Debug)]
pub enum PageContent {
    /// Row groups, in page order.
    Data(Vec<RowGroup>),
    /// Content that holds no rows.
    Other,
}

/// One decoded page.
#[derive(Debug)]
pub struct Page {
    pub index: u32,
    pub table_type: u32,
    pub kind: u8,
    pub flags: u8,
    pub row_group_count: u16,
    pub next_page: u32,
    pub content: PageContent,
}

/// The values of a sequence of row groups.
pub open spec fn groups_view(v: Seq<RowGroup>) -> Seq<Seq<RowV>> {
    v.map_values(|g: RowGroup| g@)
}

impl View for Page {
    type V = PageV;

    open spec fn view(&self) -> PageV {
        PageV {
            index: self.index,
            table_type: self.table_type,
            kind: self.kind,
            flags: self.flags,
            row_group_count: self.row_group_count,
            next_page: self.next_page,
            groups: match self.content {
                PageContent::Data(g) => Some(groups_view(g@)),
                PageContent::Other => None,
            },
        }
    }
}

/// Decodes `n` consecutive row groups from `pos`, each ending by `end`.
fn decode_groups(d: &Vec<u8>, pos: usize, end: usize, n: u16, db: DatabaseType, tag: u32) -> (r: Result<
    Vec<RowGroup>,
    PdbError,
>)
    requires
        end <= d@.len(),
    ensures
        match groups_at(db, tag, d@, pos as int, end as int, n as nat) {
            Ok(v) => r is Ok && groups_view(r->Ok_0@) == v,
            Err(e) => r == Err::<Vec<RowGroup>, PdbError>(e),
        },
{
    let mut out: Vec<RowGroup> = Vec::new();
    let mut p: usize = pos;
    let mut i: u16 = 0;
    assert(groups_view(out@) =~= Seq::<Seq<RowV>>::empty());
    assert(groups_at(db, tag, d@, pos as int, end as int, n as nat) =~= prepend(
        groups_view(out@),
        groups_at(db, tag, d@, p as int, end as int, n as nat),
    ));
    while i < n
        invariant
            i <= n,
            end <= d@.len(),
            groups_at(db, tag, d@, pos as int, end as int, n as nat) == prepend(
                groups_view(out@),
                groups_at(db, tag, d@, p as int, end as int, (n - i) as nat),
            ),
        decreases n - i,
    {
        match decode_group(d, p, end, db, tag) {
            Ok((g, next)) => {
                let ghost before = groups_view(out@);
                let ghost gv = g@;
                out.push(g);
                assert(groups_view(out@) =~= before.push(gv));
                proof {
                    let rest = groups_at(db, tag, d@, next as int, end as int, (n - i - 1) as nat);
                    if rest is Ok {
                        let t = rest->Ok_0;
                        assert(before + (seq![gv] + t) =~= before.push(gv) + t);
                    }
                }
                p = next;
                i = i + 1;
            },
            Err(e) => {
                return Err(e);
            },
        }
    }
    assert(groups_view(out@) + Seq::<Seq<RowV>>::empty() =~= groups_view(out@));
    Ok(out)
}

/// Decodes the page at index `idx` of a file of pages of `page_size` bytes.
pub fn decode_page(d: &Vec<u8>, page_size: u32, idx: u32, db: DatabaseType) -> (r: Result<Page, PdbError>)
    ensures
        match page_at(db, d@, page_size as nat, idx) {
            Ok(v) => r is Ok && r->Ok_0@ == v,
            Err(e) => r == Err::<Page, PdbError>(e),
        },
{
    let len = d.len();
    let ps = page_size as usize;
    if ps < PAGE_HEADER_LEN {
        return Err(PdbError::MalformedPage);
    }
    let off = match (idx as usize).checked_mul(ps) {
        Some(o) => o,
        None => {
            return Err(PdbError::MalformedPage);
        },
    };
    if off > len || ps > len - off {
        return Err(PdbError::MalformedPage);
    }
    let index = read_u32(d, off);
    let table_type = read_u32(d, off + 4);
    let kind = d[off + 8];
    let flags = d[off + 9];
    let n = read_u16(d, off + 10);
    let next_page = read_u32(d, off + 12);
    let content = if kind == DATA_PAGE {
        match decode_groups(d, off + PAGE_HEADER_LEN, off + ps, n, db, table_type) {
            Ok(g) => PageContent::Data(g),
            Err(e) => {
                return Err(e);
            },
        }
    } else {
        PageContent::Other
    };
    Ok(Page { index, table_type, kind, flags, row_group_count: n, next_page, content })
}

impl Page {
    /// The rows of this page, in row-group then slot order; none unless it
    /// is a data page.
    pub fn into_rows(self) -> (r: Vec<crate::row::Row>)
        ensures
            crate::group::rows_view(r@) == page_rows(self@),
    {
        let mut out: Vec<crate::row::Row> = Vec::new();
        match self.content {
            PageContent::Data(groups) => {
                let ghost all = groups_view(groups@);
                let mut rest = groups;
                let ghost mut done: Seq<Seq<RowV>> = Seq::empty();
                assert(crate::group::rows_view(out@) =~= flatten(done));
                while rest.len() > 0
                    invariant
                        all == done + groups_view(rest@),
                        crate::group::rows_view(out@) == flatten(done),
                    decreases rest.len(),
                {
                    let g = rest.remove(0);
                    let ghost gv = g@;
                    let mut rows = g.into_rows();
                    let ghost before = out@;
                    out.append(&mut rows);
                    proof {
                        let nd = done.push(gv);
                        assert(nd.drop_last() =~= done);
                        assert(crate::group::rows_view(out@) =~= crate::group::rows_view(before) + gv);
                        assert(all =~= nd + groups_view(rest@));
                        done = nd;
                    }
                }
                assert(done =~= all);
            },
            PageContent::Other => {
                assert(crate::group::rows_view(out@) =~= Seq::<RowV>::empty());
            },
        }
        out
    }
}

} // verus!
