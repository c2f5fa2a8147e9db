use decomp_toolkit::{
    ObjArchitecture, ObjInfo, ObjKind, ObjSection, ObjSectionKind, ObjSplit, SplitError,
};

fn split(unit: &str, end: u32, autogenerated: bool) -> ObjSplit {
    ObjSplit {
        unit: unit.to_string(),
        end,
        align: None,
        common: false,
        autogenerated,
        skip: false,
        rename: None,
    }
}

fn object() -> ObjInfo {
    let text = ObjSection::new(".text".to_string(), ObjSectionKind::Code, 0x1000, 0x1000);
    let data = ObjSection::new(".data".to_string(), ObjSectionKind::Data, 0x2000, 0x1000);
    ObjInfo::new(ObjKind::Executable, ObjArchitecture::PowerPc, "main".to_string(), vec![], vec![
        text, data,
    ])
}

/// (start, unit, end, autogenerated) of every split of a section.
fn table(obj: &ObjInfo, section: usize) -> Vec<(u32, String, u32, bool)> {
    obj.sections
        .at(section)
        .splits
        .iter()
        .into_iter()
        .map(|(a, s)| (a, s.unit, s.end, s.autogenerated))
        .collect()
}

#[test]
fn first_split_is_registered() {
    let mut obj = object();
    assert!(obj.add_split(0, 0x1000, split("a.c", 0x1100, false)).is_ok());
    assert_eq!(table(&obj, 0), vec![(0x1000, "a.c".to_string(), 0x1100, false)]);
}

#[test]
fn open_ended_split_reaches_section_end() {
    let mut obj = object();
    assert!(obj.add_split(0, 0x1800, split("a.c", 0, false)).is_ok());
    assert_eq!(table(&obj, 0), vec![(0x1800, "a.c".to_string(), 0x2000, false)]);
}

#[test]
fn re_adding_identical_split_changes_nothing() {
    let mut obj = object();
    obj.add_split(0, 0x1000, split("a.c", 0x1100, false)).unwrap();
    let before = table(&obj, 0);
    assert!(obj.add_split(0, 0x1000, split("a.c", 0x1100, false)).is_ok());
    assert_eq!(table(&obj, 0), before);
}

#[test]
fn contained_split_changes_nothing() {
    let mut obj = object();
    obj.add_split(0, 0x1000, split("a.c", 0x1100, false)).unwrap();
    let before = table(&obj, 0);
    assert!(obj.add_split(0, 0x1040, split("a.c", 0x1080, true)).is_ok());
    assert_eq!(table(&obj, 0), before);
}

#[test]
fn merge_covers_old_and_new_range() {
    let mut obj = object();
    obj.add_split(0, 0x1100, split("a.c", 0x1200, true)).unwrap();
    obj.add_split(0, 0x1180, split("a.c", 0x1300, false)).unwrap();
    assert_eq!(table(&obj, 0), vec![(0x1100, "a.c".to_string(), 0x1300, false)]);
    obj.add_split(0, 0x1000, split("a.c", 0x1150, false)).unwrap();
    assert_eq!(table(&obj, 0), vec![(0x1000, "a.c".to_string(), 0x1300, false)]);
}

#[test]
fn confirmed_overlap_of_other_unit_fails() {
    let mut obj = object();
    obj.add_split(0, 0x1100, split("a.c", 0x1200, false)).unwrap();
    let before = table(&obj, 0);
    let r = obj.add_split(0, 0x1180, split("b.c", 0x1280, false));
    match r {
        Err(SplitError::OverlappingSplit { unit, existing_unit, existing_start, existing_end, .. }) => {
            assert_eq!(unit, "b.c");
            assert_eq!(existing_unit, "a.c");
            assert_eq!(existing_start, 0x1100);
            assert_eq!(existing_end, 0x1200);
        }
        other => panic!("unexpected result {:?}", other),
    }
    assert_eq!(table(&obj, 0), before);
}

#[test]
fn confirmed_extension_over_other_unit_fails_unchanged() {
    let mut obj = object();
    obj.add_split(0, 0x1000, split("a.c", 0x1100, false)).unwrap();
    obj.add_split(0, 0x1100, split("b.c", 0x1200, false)).unwrap();
    let before = table(&obj, 0);
    let r = obj.add_split(0, 0x1080, split("a.c", 0x1180, false));
    assert!(matches!(r, Err(SplitError::OverlappingSplit { .. })));
    assert_eq!(table(&obj, 0), before);
}

#[test]
fn inferred_split_yields_to_confirmed_one() {
    let mut obj = object();
    obj.add_split(0, 0x1100, split("a.c", 0x1200, false)).unwrap();
    let before = table(&obj, 0);
    assert!(obj.add_split(0, 0x1180, split("auto_b", 0x1280, true)).is_ok());
    assert_eq!(table(&obj, 0), before);
}

#[test]
fn confirmed_split_absorbs_inferred_unit_everywhere() {
    let mut obj = object();
    obj.add_split(0, 0x1000, split("a.c", 0x1100, false)).unwrap();
    obj.add_split(0, 0x1100, split("auto_x", 0x1200, true)).unwrap();
    obj.add_split(1, 0x2000, split("auto_x", 0x2100, true)).unwrap();
    obj.add_split(0, 0x1080, split("a.c", 0x1180, false)).unwrap();
    assert_eq!(table(&obj, 0), vec![(0x1000, "a.c".to_string(), 0x1180, false)]);
    assert_eq!(table(&obj, 1), vec![(0x2000, "a.c".to_string(), 0x2100, true)]);
    assert!(!obj.is_unit_autogenerated("a.c"));
    assert!(obj.is_unit_autogenerated("auto_x"));
}

#[test]
fn alignment_four_and_eight_conflict() {
    let mut obj = object();
    let mut first = split("a.c", 0x1100, false);
    first.align = Some(4);
    obj.add_split(0, 0x1000, first).unwrap();
    let mut second = split("a.c", 0x1200, false);
    second.align = Some(8);
    let r = obj.add_split(0, 0x1000, second);
    match r {
        Err(SplitError::AlignmentConflict { existing, requested, .. }) => {
            assert_eq!(existing, 4);
            assert_eq!(requested, 8);
        }
        other => panic!("unexpected result {:?}", other),
    }
}

#[test]
fn alignment_four_and_unset_merge_to_four() {
    let mut obj = object();
    let mut first = split("a.c", 0x1100, false);
    first.align = Some(4);
    obj.add_split(0, 0x1000, first).unwrap();
    obj.add_split(0, 0x1000, split("a.c", 0x1200, false)).unwrap();
    let splits = obj.sections.at(0).splits.iter();
    assert_eq!(splits.len(), 1);
    assert_eq!(splits[0].1.align, Some(4));
    assert_eq!(splits[0].1.end, 0x1200);
}

#[test]
fn common_flag_mismatch_fails() {
    let mut obj = object();
    obj.add_split(1, 0x2000, split("a.c", 0x2100, false)).unwrap();
    let mut second = split("a.c", 0x2200, false);
    second.common = true;
    let r = obj.add_split(1, 0x2000, second);
    assert!(matches!(
        r,
        Err(SplitError::CommonFlagConflict { existing: false, requested: true, .. })
    ));
}

#[test]
fn invalid_section_fails() {
    let mut obj = object();
    let r = obj.add_split(2, 0x1000, split("a.c", 0x1100, false));
    assert!(matches!(r, Err(SplitError::InvalidSection { index: 2 })));
}

#[test]
fn split_beyond_section_fails() {
    let mut obj = object();
    let r = obj.add_split(0, 0x1f00, split("a.c", 0x2001, false));
    match r {
        Err(SplitError::SplitOutOfBounds { start, end, section_start, section_end, .. }) => {
            assert_eq!((start, end, section_start, section_end), (0x1f00, 0x2001, 0x1000, 0x2000));
        }
        other => panic!("unexpected result {:?}", other),
    }
    assert!(obj.add_split(0, 0x1f00, split("a.c", 0x2000, false)).is_ok());
}

#[test]
fn repeated_unit_in_section_fails() {
    let mut text = ObjSection::new(".text".to_string(), ObjSectionKind::Code, 0x1000, 0x1000);
    text.splits.push(0x1000, split("a.c", 0x1100, false));
    text.splits.push(0x1200, split("a.c", 0x1300, false));
    let mut obj =
        ObjInfo::new(ObjKind::Executable, ObjArchitecture::PowerPc, "m".to_string(), vec![], vec![
            text,
        ]);
    let r = obj.add_split(0, 0x1400, split("a.c", 0x1500, false));
    assert!(matches!(r, Err(SplitError::MultipleSplits { .. })));
}

#[test]
fn unit_without_splits_counts_as_autogenerated() {
    let obj = object();
    assert!(obj.is_unit_autogenerated("nothing.c"));
}

#[test]
fn split_index_queries() {
    let mut text = ObjSection::new(".text".to_string(), ObjSectionKind::Code, 0x1000, 0x1000);
    text.splits.push(0x1200, split("b.c", 0x1300, false));
    text.splits.push(0x1000, split("a.c", 0x1100, false));
    text.splits.push(0x1100, split("c.c", 0x1200, true));
    let starts: Vec<u32> = text.splits.iter().into_iter().map(|(a, _)| a).collect();
    assert_eq!(starts, vec![0x1000, 0x1100, 0x1200]);
    let hit: Vec<String> =
        text.splits.for_range(0x10c0, 0x1200).into_iter().map(|(_, s)| s.unit).collect();
    assert_eq!(hit, vec!["a.c".to_string(), "c.c".to_string()]);
    match text.splits.for_unit(&"c.c".to_string()) {
        Ok(Some((a, s))) => assert_eq!((a, s.end), (0x1100, 0x1200)),
        other => panic!("unexpected result {:?}", other),
    }
    assert!(matches!(text.splits.for_unit(&"d.c".to_string()), Ok(None)));
    assert_eq!(text.splits.len(), 3);
    assert_eq!(text.end_address(), 0x2000);
}
