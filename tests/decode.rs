use rekordcrate::{decode_page, pdb_rows_from_bytes, DatabaseType, Header, PageContent, PdbError, Row};

const PAGE: usize = 512;

fn le(v: u32) -> Vec<u8> {
    v.to_le_bytes().to_vec()
}

/// A prologue padded to one page.
fn prologue(page_size: u32, page_count: u32, tables: &[(u32, u32, u32)]) -> Vec<u8> {
    let mut out = Vec::new();
    out.extend(le(page_size));
    out.extend(le(page_count));
    out.extend(le(tables.len() as u32));
    for (t, f, l) in tables {
        out.extend(le(*t));
        out.extend(le(*f));
        out.extend(le(*l));
    }
    out
}

/// A slot of `size` bytes: the fixed fields, then a string descriptor at
/// `desc`, then the string at offset `desc + 2`.
fn slot(size: usize, fixed: &[u32], desc: usize, text: &[u8]) -> Vec<u8> {
    let mut s = vec![0u8; size];
    for (i, v) in fixed.iter().enumerate() {
        s[4 * i..4 * i + 4].copy_from_slice(&v.to_le_bytes());
    }
    let off = desc + 2;
    s[desc] = off as u8;
    s[desc + 1] = text.len() as u8;
    s[off..off + text.len()].copy_from_slice(text);
    s
}

fn artist(id: u32, name: &[u8]) -> Vec<u8> {
    slot(32, &[id], 4, name)
}

fn group(slots: &[Vec<u8>], mask: &[u8]) -> Vec<u8> {
    let mut g = vec![slots.len() as u8];
    for s in slots {
        g.extend(s.iter().copied());
    }
    g.extend(mask.iter().copied());
    g
}

fn page(index: u32, tag: u32, kind: u8, next: u32, groups: &[Vec<u8>]) -> Vec<u8> {
    let mut p = Vec::new();
    p.extend(le(index));
    p.extend(le(tag));
    p.push(kind);
    p.push(0);
    p.extend((groups.len() as u16).to_le_bytes());
    p.extend(le(next));
    for g in groups {
        p.extend(g.iter().copied());
    }
    assert!(p.len() <= PAGE);
    p.resize(PAGE, 0);
    p
}

/// A file whose page 0 holds the prologue and whose page `i + 1` is `pages[i]`.
fn file(tables: &[(u32, u32, u32)], pages: &[Vec<u8>]) -> Vec<u8> {
    let mut f = prologue(PAGE as u32, pages.len() as u32 + 1, tables);
    f.resize(PAGE, 0);
    for p in pages {
        f.extend(p.iter().copied());
    }
    f
}

fn artist_page(index: u32, next: u32, names: &[&[u8]]) -> Vec<u8> {
    let slots: Vec<Vec<u8>> = names.iter().enumerate().map(|(i, n)| artist(index * 10 + i as u32, n)).collect();
    page(index, 2, 0, next, &[group(&slots, &[0xff])])
}

#[test]
fn header_round_trip() {
    let tables = [(0, 1, 4), (2, 5, 5), (99, 7, 9)];
    let mut bytes = prologue(4096, 10, &tables);
    bytes.extend([1, 2, 3]);
    let h = Header::decode(&bytes).unwrap();
    assert_eq!(h.page_size, 4096);
    assert_eq!(h.page_count, 10);
    assert_eq!(h.tables.len(), 3);
    for (d, (t, f, l)) in h.tables.iter().zip(tables.iter()) {
        assert_eq!((d.table_type, d.first_page, d.last_page), (*t, *f, *l));
    }
}

#[test]
fn header_with_no_tables() {
    let h = Header::decode(&prologue(512, 1, &[])).unwrap();
    assert!(h.tables.is_empty());
}

#[test]
fn directory_overrun_is_malformed_header() {
    let mut bytes = prologue(PAGE as u32, 1, &[(2, 1, 1)]);
    bytes[8] = 5;
    assert_eq!(Header::decode(&bytes).unwrap_err(), PdbError::MalformedHeader);
    assert_eq!(pdb_rows_from_bytes(&bytes, DatabaseType::Plain).unwrap_err(), PdbError::MalformedHeader);
}

#[test]
fn short_or_zero_page_size_header_rejected() {
    assert_eq!(Header::decode(&vec![1, 0, 0]).unwrap_err(), PdbError::MalformedHeader);
    assert_eq!(Header::decode(&prologue(0, 1, &[])).unwrap_err(), PdbError::MalformedHeader);
}

#[test]
fn presence_mask_filters_slots() {
    let slots = [artist(10, b"a"), artist(11, b"b"), artist(12, b"c"), artist(13, b"d")];
    let f = file(&[(2, 1, 1)], &[page(1, 2, 0, 0, &[group(&slots, &[0b1010])])]);
    let rows = pdb_rows_from_bytes(&f, DatabaseType::Plain).unwrap().into_rows();
    assert_eq!(
        rows,
        vec![Row::Artist { id: 11, name: b"b".to_vec() }, Row::Artist { id: 13, name: b"d".to_vec() }]
    );
}

#[test]
fn cleared_mask_decodes_no_slot() {
    // The slots hold descriptors that point outside the slot: decoding them would fail.
    let bad = vec![0xffu8; 32];
    let f = file(&[(2, 1, 1)], &[page(1, 2, 0, 0, &[group(&[bad.clone(), bad], &[0])])]);
    let rows = pdb_rows_from_bytes(&f, DatabaseType::Plain).unwrap();
    assert!(rows.is_empty());
    assert_eq!(rows.len(), 0);
}

#[test]
fn mask_spans_two_bytes() {
    let slots: Vec<Vec<u8>> = (0..10).map(|i| artist(i, b"x")).collect();
    let f = file(&[(2, 1, 1)], &[page(1, 2, 0, 0, &[group(&slots[..3], &[0b001]), group(&slots, &[0, 0b10])])]);
    let ids: Vec<u32> = pdb_rows_from_bytes(&f, DatabaseType::Plain)
        .unwrap()
        .into_rows()
        .iter()
        .map(|r| match r {
            Row::Artist { id, .. } => *id,
            _ => panic!("not an artist"),
        })
        .collect();
    assert_eq!(ids, vec![0, 9]);
}

#[test]
fn single_page_chain() {
    let f = file(&[(2, 1, 1)], &[artist_page(1, 2, &[b"x"]), artist_page(2, 0, &[b"y"])]);
    let rows = pdb_rows_from_bytes(&f, DatabaseType::Plain).unwrap().into_rows();
    assert_eq!(rows, vec![Row::Artist { id: 10, name: b"x".to_vec() }]);
}

#[test]
fn chain_follows_pointers() {
    // Chain 1 -> 3 -> 2; the last page's pointer is ignored.
    let f = file(
        &[(2, 1, 2)],
        &[artist_page(1, 3, &[b"p1"]), artist_page(2, 1, &[b"p2"]), artist_page(3, 2, &[b"p3"])],
    );
    let h = Header::decode(&f).unwrap();
    let mut reader = h.read_pages(&f, &h.tables[0], DatabaseType::Plain);
    let mut seen = Vec::new();
    while let Some(p) = reader.next_page(&f) {
        seen.push(p.unwrap().index);
    }
    assert_eq!(seen, vec![1, 3, 2]);
    let ids: Vec<u32> = pdb_rows_from_bytes(&f, DatabaseType::Plain)
        .unwrap()
        .into_rows()
        .iter()
        .map(|r| match r {
            Row::Artist { id, .. } => *id,
            _ => panic!("not an artist"),
        })
        .collect();
    assert_eq!(ids, vec![10, 30, 20]);
}

#[test]
fn tables_in_directory_order() {
    let f = file(&[(2, 2, 2), (2, 1, 1)], &[artist_page(1, 0, &[b"a"]), artist_page(2, 0, &[b"b", b"c"])]);
    let rows = pdb_rows_from_bytes(&f, DatabaseType::Plain).unwrap().into_rows();
    assert_eq!(
        rows,
        vec![
            Row::Artist { id: 20, name: b"b".to_vec() },
            Row::Artist { id: 21, name: b"c".to_vec() },
            Row::Artist { id: 10, name: b"a".to_vec() },
        ]
    );
}

#[test]
fn cyclic_chain_is_rejected() {
    let f = file(&[(2, 1, 7)], &[artist_page(1, 2, &[b"a"]), artist_page(2, 1, &[b"b"])]);
    assert_eq!(pdb_rows_from_bytes(&f, DatabaseType::Plain).unwrap_err(), PdbError::MalformedPage);
}

#[test]
fn truncated_file_is_malformed_page() {
    let mut f = file(&[(2, 1, 1)], &[artist_page(1, 0, &[b"a"])]);
    f.truncate(PAGE + PAGE / 2);
    assert_eq!(pdb_rows_from_bytes(&f, DatabaseType::Plain).unwrap_err(), PdbError::MalformedPage);
}

#[test]
fn row_group_past_page_end_is_malformed_page() {
    let slots: Vec<Vec<u8>> = (0..4).map(|i| artist(i, b"x")).collect();
    let mut p = page(1, 2, 0, 0, &[group(&slots[..3], &[0xff])]);
    p[16] = 255;
    let f = file(&[(2, 1, 1)], &[p]);
    assert_eq!(pdb_rows_from_bytes(&f, DatabaseType::Plain).unwrap_err(), PdbError::MalformedPage);
}

#[test]
fn bad_string_descriptor_is_malformed_row() {
    let mut s = artist(1, b"abc");
    s[5] = 200;
    let f = file(&[(2, 1, 1)], &[page(1, 2, 0, 0, &[group(&[s], &[1])])]);
    assert_eq!(pdb_rows_from_bytes(&f, DatabaseType::Plain).unwrap_err(), PdbError::MalformedRow);
}

#[test]
fn bad_folder_flag_is_malformed_row() {
    let mut s = slot(32, &[5, 1], 9, b"set");
    s[8] = 2;
    let f = file(&[(7, 1, 1)], &[page(1, 7, 0, 0, &[group(&[s], &[1])])]);
    assert_eq!(pdb_rows_from_bytes(&f, DatabaseType::Plain).unwrap_err(), PdbError::MalformedRow);
}

#[test]
fn unknown_table_type_keeps_raw_bytes() {
    let raw: Vec<u8> = (0..16).collect();
    let f = file(
        &[(42, 1, 1), (2, 2, 2)],
        &[page(1, 42, 0, 0, &[group(&[raw.clone()], &[1])]), artist_page(2, 0, &[b"k"])],
    );
    let rows = pdb_rows_from_bytes(&f, DatabaseType::Plain).unwrap().into_rows();
    assert_eq!(
        rows,
        vec![Row::Unknown { table_type: 42, bytes: raw }, Row::Artist { id: 20, name: b"k".to_vec() }]
    );
}

#[test]
fn row_variants_decode_fields() {
    let track = slot(48, &[1, 2, 3, 4, 5], 20, b"Song");
    let album = slot(36, &[7, 2], 8, b"LP");
    let entry = slot(12, &[0, 1, 9], 0, b"");
    let entry = {
        let mut e = entry;
        e[..12].copy_from_slice(&[3, 0, 0, 0, 1, 0, 0, 0, 9, 0, 0, 0]);
        e
    };
    let node = slot(32, &[9, 0x0102_0304], 9, b"Folder");
    let node = {
        let mut n = node;
        n[8] = 1;
        n
    };
    let f = file(
        &[(0, 1, 1), (3, 2, 2), (8, 3, 3), (7, 4, 4)],
        &[
            page(1, 0, 0, 0, &[group(&[track], &[1])]),
            page(2, 3, 0, 0, &[group(&[album], &[1])]),
            page(3, 8, 0, 0, &[group(&[entry], &[1])]),
            page(4, 7, 0, 0, &[group(&[node], &[1])]),
        ],
    );
    let rows = pdb_rows_from_bytes(&f, DatabaseType::Plain).unwrap().into_rows();
    assert_eq!(
        rows,
        vec![
            Row::Track { id: 1, artist_id: 2, album_id: 3, genre_id: 4, key_id: 5, title: b"Song".to_vec() },
            Row::Album { id: 7, artist_id: 2, name: b"LP".to_vec() },
            Row::PlaylistEntry { entry_index: 3, track_id: 1, playlist_id: 9 },
            Row::PlaylistTreeNode { id: 9, parent_id: 0x0102_0304, is_folder: true, name: b"Folder".to_vec() },
        ]
    );
}

#[test]
fn named_variants_follow_table_type() {
    let tags = [1u32, 4, 5, 6, 13];
    let tables: Vec<(u32, u32, u32)> = tags.iter().enumerate().map(|(i, t)| (*t, i as u32 + 1, i as u32 + 1)).collect();
    let pages: Vec<Vec<u8>> =
        tags.iter().enumerate().map(|(i, t)| page(i as u32 + 1, *t, 0, 0, &[group(&[artist(*t, b"n")], &[1])])).collect();
    let rows = pdb_rows_from_bytes(&file(&tables, &pages), DatabaseType::Plain).unwrap().into_rows();
    let n = b"n".to_vec();
    assert_eq!(
        rows,
        vec![
            Row::Genre { id: 1, name: n.clone() },
            Row::Label { id: 4, name: n.clone() },
            Row::Key { id: 5, name: n.clone() },
            Row::Color { id: 6, name: n.clone() },
            Row::Artwork { id: 13, path: n },
        ]
    );
}

#[test]
fn ext_database_tables() {
    let tag = slot(32, &[4, 2], 8, b"Warm");
    let tt = slot(8, &[4, 77], 0, b"");
    let tt = {
        let mut t = tt;
        t[..8].copy_from_slice(&[4, 0, 0, 0, 77, 0, 0, 0]);
        t
    };
    let f = file(&[(3, 1, 1), (4, 2, 2)], &[page(1, 3, 0, 0, &[group(&[tag], &[1])]), page(2, 4, 0, 0, &[group(&[tt], &[1])])]);
    let rows = pdb_rows_from_bytes(&f, DatabaseType::Ext).unwrap().into_rows();
    assert_eq!(
        rows,
        vec![Row::Tag { id: 4, category: 2, name: b"Warm".to_vec() }, Row::TagTrack { tag_id: 4, track_id: 77 }]
    );
}

#[test]
fn non_data_page_yields_no_rows() {
    let f = file(&[(2, 1, 1)], &[page(1, 2, 1, 0, &[group(&[artist(1, b"a")], &[1])])]);
    let p = decode_page(&f, PAGE as u32, 1, DatabaseType::Plain).unwrap();
    assert!(matches!(p.content, PageContent::Other));
    assert_eq!(p.row_group_count, 1);
    assert!(p.into_rows().is_empty());
    assert!(pdb_rows_from_bytes(&f, DatabaseType::Plain).unwrap().is_empty());
}

#[test]
fn page_header_fields() {
    let f = file(&[(2, 1, 1)], &[page(0x0a0b_0c0d, 2, 0, 0x1234_5678, &[])]);
    let p = decode_page(&f, PAGE as u32, 1, DatabaseType::Plain).unwrap();
    assert_eq!(p.index, 0x0a0b_0c0d);
    assert_eq!(p.table_type, 2);
    assert_eq!(p.next_page, 0x1234_5678);
    assert_eq!(decode_page(&f, PAGE as u32, 2, DatabaseType::Plain).unwrap_err(), PdbError::MalformedPage);
    assert_eq!(decode_page(&f, 8, 1, DatabaseType::Plain).unwrap_err(), PdbError::MalformedPage);
}
