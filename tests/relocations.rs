use decomp_toolkit::{ObjReloc, ObjRelocKind, ObjRelocations};

fn reloc(kind: ObjRelocKind, target: usize) -> ObjReloc {
    ObjReloc { kind, target_symbol: target, addend: 0, module: None }
}

const KINDS: [(ObjRelocKind, &str, &str); 7] = [
    (ObjRelocKind::Absolute, "abs", "Absolute"),
    (ObjRelocKind::PpcAddr16Hi, "hi", "PpcAddr16Hi"),
    (ObjRelocKind::PpcAddr16Ha, "ha", "PpcAddr16Ha"),
    (ObjRelocKind::PpcAddr16Lo, "l", "PpcAddr16Lo"),
    (ObjRelocKind::PpcRel24, "rel24", "PpcRel24"),
    (ObjRelocKind::PpcRel14, "rel14", "PpcRel14"),
    (ObjRelocKind::PpcEmbSda21, "sda21", "PpcEmbSda21"),
];

#[test]
fn insert_rounds_down_to_word() {
    let mut t = ObjRelocations::new(vec![]).unwrap();
    assert!(t.insert(0x1001, reloc(ObjRelocKind::Absolute, 1)).is_ok());
    assert_eq!(t.at(0x1000).map(|r| r.target_symbol), Some(1));
    assert!(t.at(0x1001).is_none());
    assert!(t.contains(0x1000));
    assert!(!t.contains(0x1001));
    let e = t.insert(0x1002, reloc(ObjRelocKind::PpcRel24, 2)).unwrap_err();
    assert_eq!(e.address, 0x1000);
    assert_eq!(e.value.target_symbol, 1);
    assert_eq!(t.len(), 1);
    assert_eq!(t.at(0x1000).map(|r| r.kind), Some(ObjRelocKind::Absolute));
}

#[test]
fn new_rejects_first_duplicate_word() {
    let e = ObjRelocations::new(vec![
        (0x10, reloc(ObjRelocKind::Absolute, 1)),
        (0x20, reloc(ObjRelocKind::Absolute, 2)),
        (0x13, reloc(ObjRelocKind::PpcAddr16Lo, 3)),
        (0x22, reloc(ObjRelocKind::PpcAddr16Lo, 4)),
    ])
    .unwrap_err();
    assert_eq!(e.address, 0x10);
    assert_eq!(e.value.target_symbol, 1);
}

#[test]
fn new_orders_entries_by_address() {
    let t = ObjRelocations::new(vec![
        (0x30, reloc(ObjRelocKind::Absolute, 3)),
        (0x11, reloc(ObjRelocKind::Absolute, 1)),
        (0x20, reloc(ObjRelocKind::Absolute, 2)),
    ])
    .unwrap();
    let all: Vec<(u32, usize)> = t.iter().into_iter().map(|(a, r)| (a, r.target_symbol)).collect();
    assert_eq!(all, vec![(0x10, 1), (0x20, 2), (0x30, 3)]);
    let window: Vec<u32> = t.range(0x10, 0x30).into_iter().map(|(a, _)| a).collect();
    assert_eq!(window, vec![0x10, 0x20]);
    assert_eq!(t.clone_map().len(), 3);
    assert!(!t.is_empty());
    assert!(ObjRelocations::new(vec![]).unwrap().is_empty());
}

#[test]
fn replace_overwrites_or_adds() {
    let mut t = ObjRelocations::new(vec![(0x40, reloc(ObjRelocKind::Absolute, 1))]).unwrap();
    t.replace(0x43, reloc(ObjRelocKind::PpcAddr16Ha, 9));
    assert_eq!(t.len(), 1);
    assert_eq!(t.at(0x40).map(|r| (r.kind, r.target_symbol)), Some((ObjRelocKind::PpcAddr16Ha, 9)));
    t.replace(0x44, reloc(ObjRelocKind::PpcAddr16Hi, 5));
    assert_eq!(t.len(), 2);
}

#[test]
fn kinds_write_short_codes() {
    for (kind, code, _) in KINDS {
        assert_eq!(kind.code(), code);
    }
}

#[test]
fn kinds_read_both_spellings() {
    for (kind, code, name) in KINDS {
        assert_eq!(ObjRelocKind::parse(code).unwrap(), kind);
        assert_eq!(ObjRelocKind::parse(name).unwrap(), kind);
        assert_eq!(ObjRelocKind::parse(kind.code()).unwrap(), kind);
    }
}

#[test]
fn unknown_kind_lists_codes() {
    let e = ObjRelocKind::parse("rel32").unwrap_err();
    assert_eq!(e.found, "rel32");
    assert_eq!(e.expected, vec!["abs", "hi", "ha", "l", "rel24", "rel14", "sda21"]);
}

#[test]
fn at_mut_changes_entry_in_place() {
    let mut t = ObjRelocations::new(vec![(0x80, reloc(ObjRelocKind::PpcRel14, 1))]).unwrap();
    if let Some(r) = t.at_mut(0x80) {
        r.addend = 12;
    }
    assert!(t.at_mut(0x84).is_none());
    assert_eq!(t.at(0x80).map(|r| r.addend), Some(12));
    assert_eq!(t.len(), 1);
}
