use rekordcrate::{pdb_rows_from_bytes, DatabaseType, PdbRows, Row};

fn le(v: u32) -> [u8; 4] {
    v.to_le_bytes()
}

/// A file of one artist table on page 1 with `n` live rows.
fn artists(n: u32) -> Vec<u8> {
    let mut f = Vec::new();
    f.extend(le(512));
    f.extend(le(2));
    f.extend(le(1));
    f.extend(le(2));
    f.extend(le(1));
    f.extend(le(1));
    f.resize(512, 0);
    let mut p = Vec::new();
    p.extend(le(1));
    p.extend(le(2));
    p.extend([0, 0, 1, 0]);
    p.extend(le(0));
    p.push(n as u8);
    for i in 0..n {
        let mut s = vec![0u8; 32];
        s[..4].copy_from_slice(&le(100 + i));
        s[4] = 8;
        s[5] = 1;
        s[8] = b'a' + i as u8;
        p.extend(s);
    }
    p.push(0xff);
    p.resize(512, 0);
    f.extend(p);
    f
}

fn read(n: u32) -> PdbRows {
    pdb_rows_from_bytes(&artists(n), DatabaseType::Plain).unwrap()
}

#[test]
fn borrowed_and_owned_agree() {
    let a = read(3);
    let borrowed: Vec<Row> = {
        let mut it = a.iter();
        let mut v = Vec::new();
        while let Some(r) = it.next() {
            v.push(r.clone());
        }
        v
    };
    let b = read(3);
    assert_eq!(a.len(), b.len());
    let owned = b.into_rows();
    assert_eq!(borrowed, owned);
    assert_eq!(owned.len(), 3);
}

#[test]
fn remaining_count_after_front_steps() {
    let rows = read(5);
    let mut it = rows.iter();
    assert_eq!(it.len(), 5);
    for k in 1..=5 {
        it.next().unwrap();
        assert_eq!(it.len(), 5 - k);
    }
    assert!(it.next().is_none());
    assert_eq!(it.len(), 0);
}

#[test]
fn both_ends_give_every_row_once() {
    let rows = read(5);
    let front: Vec<Row> = rows.iter().next().into_iter().cloned().collect();
    assert_eq!(front.len(), 1);
    let mut it = rows.iter();
    let mut head = Vec::new();
    let mut tail = Vec::new();
    let mut from_back = false;
    loop {
        let r = if from_back { it.next_back() } else { it.next() };
        match r {
            Some(r) if from_back => tail.push(r.clone()),
            Some(r) => head.push(r.clone()),
            None => break,
        }
        from_back = !from_back;
    }
    tail.reverse();
    head.extend(tail);
    assert_eq!(head, read(5).into_rows());
    assert!(it.next_back().is_none());
}

#[test]
fn empty_collection() {
    let rows = read(0);
    assert!(rows.is_empty());
    assert_eq!(rows.len(), 0);
    assert!(rows.iter().next().is_none());
    assert!(rows.into_rows().is_empty());
    assert!(PdbRows::default().is_empty());
}
