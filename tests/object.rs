use decomp_toolkit::{
    AddressRanges, ObjArchitecture, ObjInfo, ObjKind, ObjSection, ObjSectionKind, ObjSymbol,
    ObjSymbolFlagSet, ObjSymbolFlags, ObjSymbolKind, ObjSymbolScope, SectionAddress,
};

fn symbol(name: &str, address: u64, size: u64, flags: ObjSymbolFlagSet) -> ObjSymbol {
    ObjSymbol {
        name: name.to_string(),
        address,
        section: None,
        size,
        kind: ObjSymbolKind::Object,
        scope: ObjSymbolScope::Global,
        flags,
    }
}

fn empty() -> ObjInfo {
    ObjInfo::new(ObjKind::Relocatable, ObjArchitecture::PowerPc, "m".to_string(), vec![], vec![])
}

#[test]
fn sizes_count_code_data_and_common() {
    let sections = vec![
        ObjSection::new(".text".to_string(), ObjSectionKind::Code, 0x8000_0000, 0x100),
        ObjSection::new(".data".to_string(), ObjSectionKind::Data, 0x8000_1000, 0x40),
    ];
    let common = symbol("buf", 0, 0x10, ObjSymbolFlagSet::empty().with(ObjSymbolFlags::Common));
    let plain = symbol("x", 0x8000_1000, 0x20, ObjSymbolFlagSet::empty());
    let obj = ObjInfo::new(
        ObjKind::Relocatable,
        ObjArchitecture::PowerPc,
        "m".to_string(),
        vec![common, plain],
        sections,
    );
    assert_eq!(obj.code_size(), 0x100);
    assert_eq!(obj.data_size(), 0x50);
}

#[test]
fn sizes_of_empty_object_are_zero() {
    let obj = empty();
    assert_eq!(obj.code_size(), 0);
    assert_eq!(obj.data_size(), 0);
}

#[test]
fn sda_base_is_captured_and_overwritten() {
    let mut obj = empty();
    assert_eq!(obj.sda_base, None);
    let i = obj.add_symbol(symbol("_SDA_BASE_", 0x8041_0000, 0, ObjSymbolFlagSet::empty()), false);
    assert_eq!(i, 0);
    assert_eq!(obj.sda_base, Some(0x8041_0000));
    obj.add_symbol(symbol("_SDA_BASE_", 0x8042_0000, 0, ObjSymbolFlagSet::empty()), false);
    assert_eq!(obj.sda_base, Some(0x8042_0000));
    assert_eq!(obj.symbols.count(), 2);
    assert_eq!(obj.sda2_base, None);
}

#[test]
fn reserved_names_fill_their_fields() {
    let mut obj = empty();
    let names = [
        "_SDA2_BASE_", "_stack_addr", "_stack_end", "_db_stack_addr", "__ArenaLo", "__ArenaHi",
    ];
    for (k, name) in names.iter().enumerate() {
        obj.add_symbol(symbol(name, 0x1_0000_1000 + k as u64, 0, ObjSymbolFlagSet::empty()), false);
    }
    assert_eq!(obj.sda2_base, Some(0x1000));
    assert_eq!(obj.stack_address, Some(0x1001));
    assert_eq!(obj.stack_end, Some(0x1002));
    assert_eq!(obj.db_stack_addr, Some(0x1003));
    assert_eq!(obj.arena_lo, Some(0x1004));
    assert_eq!(obj.arena_hi, Some(0x1005));
    assert_eq!(obj.sda_base, None);
}

#[test]
fn replace_overwrites_same_symbol() {
    let mut obj = empty();
    obj.add_symbol(symbol("a", 0x10, 4, ObjSymbolFlagSet::empty()), false);
    obj.add_symbol(symbol("b", 0x20, 4, ObjSymbolFlagSet::empty()), false);
    let i = obj.add_symbol(symbol("b", 0x20, 8, ObjSymbolFlagSet::empty()), true);
    assert_eq!(i, 1);
    assert_eq!(obj.symbols.count(), 2);
    assert_eq!(obj.symbols.at(1).size, 8);
    let j = obj.add_symbol(symbol("b", 0x20, 8, ObjSymbolFlagSet::empty()), false);
    assert_eq!(j, 2);
    let k = obj.add_symbol(symbol("c", 0x30, 8, ObjSymbolFlagSet::empty()), true);
    assert_eq!(k, 3);
}

#[test]
fn flag_set_membership() {
    let f = ObjSymbolFlagSet::empty().with(ObjSymbolFlags::Weak);
    assert!(f.contains(ObjSymbolFlags::Weak));
    assert!(!f.is_common());
    assert!(f.with(ObjSymbolFlags::Common).is_common());
}

#[test]
fn address_ranges_block_inside_only() {
    let mut r = AddressRanges::new();
    let at = |address| SectionAddress { section: 1, address };
    r.insert(at(0x100), at(0x200));
    assert!(r.contains(at(0x100)));
    assert!(r.contains(at(0x1ff)));
    assert!(!r.contains(at(0x200)));
    assert!(!r.contains(SectionAddress { section: 2, address: 0x150 }));
}
