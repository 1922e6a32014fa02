//! Row encodings, one per known table type, and their decoding from a slot.
use vstd::prelude::*;
use crate::bytes::{le32, read_u32};
use crate::error::PdbError;

verus! {

/// Which of the two export databases a file is; it selects the table types.
#[derive(Debug, Clone, Copy, PartialEq, Eq, Structural)]
pub enum DatabaseType {
    /// The main library database.
    Plain,
    /// The extension database holding tags.
    Ext,
}

/// Table types of the main database.
pub const TRACKS: u32 = 0;
pub const GENRES: u32 = 1;
pub const ARTISTS: u32 = 2;
pub const ALBUMS: u32 = 3;
pub const LABELS: u32 = 4;
pub const KEYS: u32 = 5;
pub const COLORS: u32 = 6;
pub const PLAYLIST_TREE: u32 = 7;
pub const PLAYLIST_ENTRIES: u32 = 8;
pub const ARTWORK: u32 = 13;
/// Table types of the extension database.
pub const TAGS: u32 = 3;
pub const TAG_TRACKS: u32 = 4;

/// Slot sizes: rows of an id and a name, albums, tracks, playlist entries,
/// tag assignments, and rows of unknown table types.
pub const NAMED_SLOT: usize = 32;
pub const ALBUM_SLOT: usize = 36;
pub const TRACK_SLOT: usize = 48;
pub const ENTRY_SLOT: usize = 12;
pub const TAG_TRACK_SLOT: usize = 8;
pub const RAW_SLOT: usize = 16;

/// One decoded record. The variant is chosen by the table type of the page
/// the record was read from; unknown table types keep the raw slot bytes.
#[derive(Debug, Clone, PartialEq, Eq)]
pub enum Row {
    Track { id: u32, artist_id: u32, album_id: u32, genre_id: u32, key_id: u32, title: Vec<u8> },
    Genre { id: u32, name: Vec<u8> },
    Artist { id: u32, name: Vec<u8> },
    Album { id: u32, artist_id: u32, name: Vec<u8> },
    Label { id: u32, name: Vec<u8> },
    Key { id: u32, name: Vec<u8> },
    Color { id: u32, name: Vec<u8> },
    Artwork { id: u32, path: Vec<u8> },
    PlaylistTreeNode { id: u32, parent_id: u32, is_folder: bool, name: Vec<u8> },
    PlaylistEntry { entry_index: u32, track_id: u32, playlist_id: u32 },
    Tag { id: u32, category: u32, name: Vec<u8> },
    TagTrack { tag_id: u32, track_id: u32 },
    Unknown { table_type: u32, bytes: Vec<u8> },
}

/// The mathematical value of a [`Row`]: byte strings become sequences.
pub enum RowV {
    Track { id: u32, artist_id: u32, album_id: u32, genre_id: u32, key_id: u32, title: Seq<u8> },
    Genre { id: u32, name: Seq<u8> },
    Artist { id: u32, name: Seq<u8> },
    Album { id: u32, artist_id: u32, name: Seq<u8> },
    Label { id: u32, name: Seq<u8> },
    Key { id: u32, name: Seq<u8> },
    Color { id: u32, name: Seq<u8> },
    Artwork { id: u32, path: Seq<u8> },
    PlaylistTreeNode { id: u32, parent_id: u32, is_folder: bool, name: Seq<u8> },
    PlaylistEntry { entry_index: u32, track_id: u32, playlist_id: u32 },
    Tag { id: u32, category: u32, name: Seq<u8> },
    TagTrack { tag_id: u32, track_id: u32 },
    Unknown { table_type: u32, bytes: Seq<u8> },
}

impl View for Row {
    type V = RowV;

    open spec fn view(&self) -> RowV {
        match self {
            Row::Track { id, artist_id, album_id, genre_id, key_id, title } => RowV::Track {
                id: *id,
                artist_id: *artist_id,
                album_id: *album_id,
                genre_id: *genre_id,
                key_id: *key_id,
                title: title@,
            },
            Row::Genre { id, name } => RowV::Genre { id: *id, name: name@ },
            Row::Artist { id, name } => RowV::Artist { id: *id, name: name@ },
            Row::Album { id, artist_id, name } => RowV::Album { id: *id, artist_id: *artist_id, name: name@ },
            Row::Label { id, name } => RowV::Label { id: *id, name: name@ },
            Row::Key { id, name } => RowV::Key { id: *id, name: name@ },
            Row::Color { id, name } => RowV::Color { id: *id, name: name@ },
            Row::Artwork { id, path } => RowV::Artwork { id: *id, path: path@ },
            Row::PlaylistTreeNode { id, parent_id, is_folder, name } => RowV::PlaylistTreeNode {
                id: *id,
                parent_id: *parent_id,
                is_folder: *is_folder,
                name: name@,
            },
            Row::PlaylistEntry { entry_index, track_id, playlist_id } => RowV::PlaylistEntry {
                entry_index: *entry_index,
                track_id: *track_id,
                playlist_id: *playlist_id,
            },
            Row::Tag { id, category, name } => RowV::Tag { id: *id, category: *category, name: name@ },
            Row::TagTrack { tag_id, track_id } => RowV::TagTrack { tag_id: *tag_id, track_id: *track_id },
            Row::Unknown { table_type, bytes } => RowV::Unknown { table_type: *table_type, bytes: bytes@ },
        }
    }
}

/// Whether `tag` names a table type that has its own row variant in `db`.
pub open spec fn known_table(db: DatabaseType, tag: u32) -> bool {
    match db {
        DatabaseType::Plain => tag == TRACKS || tag == GENRES || tag == ARTISTS || tag == ALBUMS
            || tag == LABELS || tag == KEYS || tag == COLORS || tag == PLAYLIST_TREE
            || tag == PLAYLIST_ENTRIES || tag == ARTWORK,
        DatabaseType::Ext => tag == TAGS || tag == TAG_TRACKS,
    }
}

/// The size in bytes of one row slot of table type `tag`.
pub open spec fn slot_size(db: DatabaseType, tag: u32) -> nat {
    if !known_table(db, tag) {
        RAW_SLOT as nat
    } else {
        match db {
            DatabaseType::Plain => if tag == TRACKS {
                TRACK_SLOT as nat
            } else if tag == ALBUMS {
                ALBUM_SLOT as nat
            } else if tag == PLAYLIST_ENTRIES {
                ENTRY_SLOT as nat
            } else {
                NAMED_SLOT as nat
            },
            DatabaseType::Ext => if tag == TAGS {
                NAMED_SLOT as nat
            } else {
                TAG_TRACK_SLOT as nat
            },
        }
    }
}

/// The string whose (offset, length) descriptor is stored at `p`, when it
/// lies inside the slot.
pub open spec fn str_at(s: Seq<u8>, p: int) -> Option<Seq<u8>> {
    let off = s[p] as int;
    let len = s[p + 1] as int;
    if off + len <= s.len() {
        Some(s.subrange(off, off + len))
    } else {
        None
    }
}

/// The row that slot bytes `s` of table type `tag` decode to; `None` when
/// the slot violates the variant's layout.
pub open spec fn row_of(db: DatabaseType, tag: u32, s: Seq<u8>) -> Option<RowV> {
    if !known_table(db, tag) {
        Some(RowV::Unknown { table_type: tag, bytes: s })
    } else if db == DatabaseType::Plain && tag == PLAYLIST_ENTRIES {
        Some(RowV::PlaylistEntry { entry_index: le32(s, 0), track_id: le32(s, 4), playlist_id: le32(s, 8) })
    } else if db == DatabaseType::Ext && tag == TAG_TRACKS {
        Some(RowV::TagTrack { tag_id: le32(s, 0), track_id: le32(s, 4) })
    } else if db == DatabaseType::Plain && tag == TRACKS {
        match str_at(s, 20) {
            Some(t) => Some(RowV::Track {
                id: le32(s, 0),
                artist_id: le32(s, 4),
                album_id: le32(s, 8),
                genre_id: le32(s, 12),
                key_id: le32(s, 16),
                title: t,
            }),
            None => None,
        }
    } else if db == DatabaseType::Plain && tag == ALBUMS {
        match str_at(s, 8) {
            Some(n) => Some(RowV::Album { id: le32(s, 0), artist_id: le32(s, 4), name: n }),
            None => None,
        }
    } else if db == DatabaseType::Ext {
        match str_at(s, 8) {
            Some(n) => Some(RowV::Tag { id: le32(s, 0), category: le32(s, 4), name: n }),
            None => None,
        }
    } else if tag == PLAYLIST_TREE {
        match str_at(s, 9) {
            Some(n) => if s[8] <= 1 {
                Some(RowV::PlaylistTreeNode { id: le32(s, 0), parent_id: le32(s, 4), is_folder: s[8] == 1, name: n })
            } else {
                None
            },
            None => None,
        }
    } else {
        match str_at(s, 4) {
            Some(n) => Some(named_row(tag, le32(s, 0), n)),
            None => None,
        }
    }
}

/// The variant of an (id, name) row of the main database.
pub open spec fn named_row(tag: u32, id: u32, n: Seq<u8>) -> RowV {
    if tag == GENRES {
        RowV::Genre { id, name: n }
    } else if tag == ARTISTS {
        RowV::Artist { id, name: n }
    } else if tag == LABELS {
        RowV::Label { id, name: n }
    } else if tag == KEYS {
        RowV::Key { id, name: n }
    } else if tag == COLORS {
        RowV::Color { id, name: n }
    } else {
        RowV::Artwork { id, path: n }
    }
}

pub fn is_known_table(db: DatabaseType, tag: u32) -> (r: bool)
    ensures
        r == known_table(db, tag),
{
    match db {
        DatabaseType::Plain => tag == TRACKS || tag == GENRES || tag == ARTISTS || tag == ALBUMS
            || tag == LABELS || tag == KEYS || tag == COLORS || tag == PLAYLIST_TREE
            || tag == PLAYLIST_ENTRIES || tag == ARTWORK,
        DatabaseType::Ext => tag == TAGS || tag == TAG_TRACKS,
    }
}

/// The slot size of table type `tag`.
pub fn slot_len(db: DatabaseType, tag: u32) -> (r: usize)
    ensures
        r as nat == slot_size(db, tag),
{
    if !is_known_table(db, tag) {
        RAW_SLOT
    } else {
        match db {
            DatabaseType::Plain => if tag == TRACKS {
                TRACK_SLOT
            } else if tag == ALBUMS {
                ALBUM_SLOT
            } else if tag == PLAYLIST_ENTRIES {
                ENTRY_SLOT
            } else {
                NAMED_SLOT
            },
            DatabaseType::Ext => if tag == TAGS {
                NAMED_SLOT
            } else {
                TAG_TRACK_SLOT
            },
        }
    }
}

/// A copy of `d[a..b]`.
pub fn copy_range(d: &Vec<u8>, a: usize, b: usize) -> (r: Vec<u8>)
    requires
        a <= b <= d@.len(),
    ensures
        r@ == d@.subrange(a as int, b as int),
{
    let mut r: Vec<u8> = Vec::new();
    let mut i: usize = a;
    while i < b
        invariant
            a <= i <= b <= d@.len(),
            r@ == d@.subrange(a as int, i as int),
        decreases b - i,
    {
        r.push(d[i]);
        i = i + 1;
    }
    r
}

/// The string of the slot at `base` whose descriptor is at `p`.
fn read_str(d: &Vec<u8>, base: usize, size: usize, p: usize) -> (r: Option<Vec<u8>>)
    requires
        base + size <= d@.len(),
        p + 2 <= size,
    ensures
        match str_at(d@.subrange(base as int, base + size), p as int) {
            Some(t) => r is Some && r->Some_0@ == t,
            None => r is None,
        },
{
    // The length of a vector fits in usize.
    let _n = d.len();
    let ghost s = d@.subrange(base as int, base + size);
    let off = d[base + p] as usize;
    let len = d[base + p + 1] as usize;
    assert(s[p as int] == d@[base + p]);
    assert(s[p + 1] == d@[base + p + 1]);
    if off + len <= size {
        let v = copy_range(d, base + off, base + off + len);
        assert(v@ =~= s.subrange(off as int, off + len));
        Some(v)
    } else {
        None
    }
}

proof fn lemma_le32_slot(d: Seq<u8>, base: int, size: int, o: int)
    requires
        0 <= base,
        base + size <= d.len(),
        0 <= o,
        o + 4 <= size,
    ensures
        le32(d.subrange(base, base + size), o) == le32(d, base + o),
{
    let s = d.subrange(base, base + size);
    assert(s[o] == d[base + o]);
    assert(s[o + 1] == d[base + o + 1]);
    assert(s[o + 2] == d[base + o + 2]);
    assert(s[o + 3] == d[base + o + 3]);
}

/// Decodes the slot of table type `tag` that starts at `base`.
pub fn decode_row(d: &Vec<u8>, base: usize, db: DatabaseType, tag: u32) -> (r: Result<Row, PdbError>)
    requires
        base + slot_size(db, tag) <= d@.len(),
    ensures
        match row_of(db, tag, d@.subrange(base as int, base + slot_size(db, tag))) {
            Some(v) => r is Ok && r->Ok_0@ == v,
            None => r == Err::<Row, PdbError>(PdbError::MalformedRow),
        },
{
    // The length of a vector fits in usize.
    let _n = d.len();
    let size = slot_len(db, tag);
    let ghost s = d@.subrange(base as int, base + size);
    if !is_known_table(db, tag) {
        let bytes = copy_range(d, base, base + size);
        return Ok(Row::Unknown { table_type: tag, bytes });
    }
    proof {
        lemma_le32_slot(d@, base as int, size as int, 0);
        lemma_le32_slot(d@, base as int, size as int, 4);
    }
    let a = read_u32(d, base);
    let b = read_u32(d, base + 4);
    if db == DatabaseType::Plain && tag == PLAYLIST_ENTRIES {
        proof { lemma_le32_slot(d@, base as int, size as int, 8); }
        let c = read_u32(d, base + 8);
        return Ok(Row::PlaylistEntry { entry_index: a, track_id: b, playlist_id: c });
    }
    if db == DatabaseType::Ext && tag == TAG_TRACKS {
        return Ok(Row::TagTrack { tag_id: a, track_id: b });
    }
    if db == DatabaseType::Plain && tag == TRACKS {
        proof {
            lemma_le32_slot(d@, base as int, size as int, 8);
            lemma_le32_slot(d@, base as int, size as int, 12);
            lemma_le32_slot(d@, base as int, size as int, 16);
        }
        let c = read_u32(d, base + 8);
        let g = read_u32(d, base + 12);
        let k = read_u32(d, base + 16);
        return match read_str(d, base, size, 20) {
            Some(title) => Ok(Row::Track { id: a, artist_id: b, album_id: c, genre_id: g, key_id: k, title }),
            None => Err(PdbError::MalformedRow),
        };
    }
    if db == DatabaseType::Plain && tag == ALBUMS {
        return match read_str(d, base, size, 8) {
            Some(name) => Ok(Row::Album { id: a, artist_id: b, name }),
            None => Err(PdbError::MalformedRow),
        };
    }
    if db == DatabaseType::Ext {
        return match read_str(d, base, size, 8) {
            Some(name) => Ok(Row::Tag { id: a, category: b, name }),
            None => Err(PdbError::MalformedRow),
        };
    }
    if tag == PLAYLIST_TREE {
        let f = d[base + 8];
        assert(s[8] == f);
        return match read_str(d, base, size, 9) {
            Some(name) => if f <= 1 {
                Ok(Row::PlaylistTreeNode { id: a, parent_id: b, is_folder: f == 1, name })
            } else {
                Err(PdbError::MalformedRow)
            },
            None => Err(PdbError::MalformedRow),
        };
    }
    match read_str(d, base, size, 4) {
        Some(name) => Ok(
            if tag == GENRES {
                Row::Genre { id: a, name }
            } else if tag == ARTISTS {
                Row::Artist { id: a, name }
            } else if tag == LABELS {
                Row::Label { id: a, name }
            } else if tag == KEYS {
                Row::Key { id: a, name }
            } else if tag == COLORS {
                Row::Color { id: a, name }
            } else {
                Row::Artwork { id: a, path: name }
            },
        ),
        None => Err(PdbError::MalformedRow),
    }
}

} // verus!
