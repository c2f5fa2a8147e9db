use vstd::prelude::*;

use crate::splits::{overlaps, splits_disjoint, ObjSplit};

verus! {

/// The end a split asks for, with 0 read as the end of the section.
pub open spec fn requested_end(split: ObjSplit, sec_end: u32) -> u32 {
    if split.end == 0 {
        sec_end
    } else {
        split.end
    }
}

/// Whether some entry of `s` belongs to `unit`.
pub open spec fn has_unit(s: Seq<(u32, ObjSplit)>, unit: Seq<char>) -> bool {
    exists|i: int| 0 <= i < s.len() && #[trigger] s[i].1.unit@ == unit
}

/// Whether two entries of `s` belong to `unit`.
pub open spec fn unit_repeated(s: Seq<(u32, ObjSplit)>, unit: Seq<char>) -> bool {
    exists|i: int, j: int| 0 <= i < j < s.len() && s[i].1.unit@ == unit && s[j].1.unit@ == unit
}

/// The entry of `s` that belongs to `unit` (meaningful under `has_unit`).
pub open spec fn unit_entry(s: Seq<(u32, ObjSplit)>, unit: Seq<char>) -> (u32, ObjSplit) {
    s[choose|i: int| 0 <= i < s.len() && #[trigger] s[i].1.unit@ == unit]
}

/// Both the unit's split and the incoming one ask for an alignment, and they differ.
pub open spec fn align_conflict(s: Seq<(u32, ObjSplit)>, split: ObjSplit) -> bool {
    has_unit(s, split.unit@) && match (unit_entry(s, split.unit@).1.align, split.align) {
        (Some(a), Some(b)) => a != b,
        _ => false,
    }
}

/// The unit's split and the incoming one disagree on the common flag.
pub open spec fn common_conflict(s: Seq<(u32, ObjSplit)>, split: ObjSplit) -> bool {
    has_unit(s, split.unit@) && unit_entry(s, split.unit@).1.common != split.common
}

/// The incoming range lies within the unit's split.
pub open spec fn already_covered(
    s: Seq<(u32, ObjSplit)>,
    sec_end: u32,
    address: u32,
    split: ObjSplit,
) -> bool {
    has_unit(s, split.unit@) && unit_entry(s, split.unit@).0 <= address && requested_end(
        split,
        sec_end,
    ) <= unit_entry(s, split.unit@).1.end
}

/// Start of the union of the unit's split and the incoming range.
pub open spec fn merged_start(s: Seq<(u32, ObjSplit)>, address: u32, split: ObjSplit) -> u32 {
    if has_unit(s, split.unit@) && unit_entry(s, split.unit@).0 < address {
        unit_entry(s, split.unit@).0
    } else {
        address
    }
}

/// End of the union of the unit's split and the incoming range.
pub open spec fn merged_end(
    s: Seq<(u32, ObjSplit)>,
    sec_end: u32,
    split: ObjSplit,
) -> u32 {
    let e = requested_end(split, sec_end);
    if has_unit(s, split.unit@) && unit_entry(s, split.unit@).1.end > e {
        unit_entry(s, split.unit@).1.end
    } else {
        e
    }
}

/// The split that ends up registered for the unit.
pub open spec fn merged_split(s: Seq<(u32, ObjSplit)>, sec_end: u32, split: ObjSplit) -> ObjSplit {
    if has_unit(s, split.unit@) {
        let ex = unit_entry(s, split.unit@).1;
        ObjSplit {
            unit: split.unit,
            end: merged_end(s, sec_end, split),
            align: if split.align is Some {
                split.align
            } else {
                ex.align
            },
            common: split.common,
            autogenerated: split.autogenerated && ex.autogenerated,
            skip: false,
            rename: None,
        }
    } else {
        ObjSplit { end: requested_end(split, sec_end), ..split }
    }
}

/// Whether an entry gives way to the merged split: it shares an address
/// with the merged range, or it is the unit's own split.
pub open spec fn absorbed(
    e: (u32, ObjSplit),
    start: u32,
    end: u32,
    unit: Seq<char>,
) -> bool {
    overlaps(e, start, end) || e.1.unit@ == unit
}

/// An entry that gives way and was confirmed rather than inferred.
pub open spec fn absorbs_confirmed(
    s: Seq<(u32, ObjSplit)>,
    sec_end: u32,
    address: u32,
    split: ObjSplit,
) -> bool {
    exists|i: int|
        0 <= i < s.len() && #[trigger] absorbed(
            s[i],
            merged_start(s, address, split),
            merged_end(s, sec_end, split),
            split.unit@,
        ) && !s[i].1.autogenerated
}

/// An entry of another unit, confirmed, in the way of the merged range.
pub open spec fn blocks(
    s: Seq<(u32, ObjSplit)>,
    sec_end: u32,
    address: u32,
    split: ObjSplit,
    i: int,
) -> bool {
    &&& 0 <= i < s.len()
    &&& absorbed(
        s[i],
        merged_start(s, address, split),
        merged_end(s, sec_end, split),
        split.unit@,
    )
    &&& !s[i].1.autogenerated
    &&& s[i].1.unit@ != split.unit@
}

/// Whether a confirmed split of another unit is in the way.
pub open spec fn overlap_conflict(
    s: Seq<(u32, ObjSplit)>,
    sec_end: u32,
    address: u32,
    split: ObjSplit,
) -> bool {
    exists|i: int| #[trigger] blocks(s, sec_end, address, split, i)
}

/// The call is refused: the object stays as it was.
pub open spec fn split_rejected(
    s: Seq<(u32, ObjSplit)>,
    sec_end: u32,
    address: u32,
    split: ObjSplit,
) -> bool {
    ||| (split.end != 0 && split.end > sec_end)
    ||| unit_repeated(s, split.unit@)
    ||| align_conflict(s, split)
    ||| common_conflict(s, split)
    ||| (!already_covered(s, sec_end, address, split) && !split.autogenerated && overlap_conflict(
        s,
        sec_end,
        address,
        split,
    ))
}

/// The call succeeds without changing anything: the range is already the
/// unit's, or an inferred split meets a confirmed one.
pub open spec fn split_ignored(
    s: Seq<(u32, ObjSplit)>,
    sec_end: u32,
    address: u32,
    split: ObjSplit,
) -> bool {
    &&& !split_rejected(s, sec_end, address, split)
    &&& (already_covered(s, sec_end, address, split) || (split.autogenerated && absorbs_confirmed(
        s,
        sec_end,
        address,
        split,
    )))
}

/// The units other than `unit` with an entry of `s` that gives way to the
/// range `[start, end)`.
pub open spec fn displaced_between(
    s: Seq<(u32, ObjSplit)>,
    start: u32,
    end: u32,
    unit: Seq<char>,
) -> Set<Seq<char>> {
    Set::new(
        |n: Seq<char>|
            n != unit && exists|i: int|
                0 <= i < s.len() && #[trigger] absorbed(s[i], start, end, unit) && s[i].1.unit@
                    == n,
    )
}

/// The units whose splits give way to another unit, and so take its name.
pub open spec fn displaced_units(
    s: Seq<(u32, ObjSplit)>,
    sec_end: u32,
    address: u32,
    split: ObjSplit,
) -> Set<Seq<char>> {
    displaced_between(
        s,
        merged_start(s, address, split),
        merged_end(s, sec_end, split),
        split.unit@,
    )
}

/// An entry after the units in `names` were renamed to `unit`.
pub open spec fn renamed(e: (u32, ObjSplit), names: Set<Seq<char>>, unit: String) -> (
    u32,
    ObjSplit,
) {
    if names.contains(e.1.unit@) {
        (e.0, ObjSplit { unit: unit, ..e.1 })
    } else {
        e
    }
}

/// The entries of a section after renaming.
pub open spec fn renamed_all(s: Seq<(u32, ObjSplit)>, names: Set<Seq<char>>, unit: String) -> Seq<
    (u32, ObjSplit),
> {
    s.map_values(|e: (u32, ObjSplit)| renamed(e, names, unit))
}

/// The entries of `s` that do not give way to `[start, end)`.
pub open spec fn kept_between(
    s: Seq<(u32, ObjSplit)>,
    start: u32,
    end: u32,
    unit: Seq<char>,
) -> Seq<(u32, ObjSplit)> {
    s.filter(|e: (u32, ObjSplit)| !absorbed(e, start, end, unit))
}

/// The entries of the target section that stay, renamed, before the merged
/// split is placed among them.
pub open spec fn kept_entries(
    s: Seq<(u32, ObjSplit)>,
    sec_end: u32,
    address: u32,
    split: ObjSplit,
) -> Seq<(u32, ObjSplit)> {
    renamed_all(
        kept_between(
            s,
            merged_start(s, address, split),
            merged_end(s, sec_end, split),
            split.unit@,
        ),
        displaced_units(s, sec_end, address, split),
        split.unit,
    )
}

/// Index `i` of `s` is the unit's split.
proof fn lemma_unit_entry_at(s: Seq<(u32, ObjSplit)>, unit: Seq<char>, i: int)
    requires
        0 <= i < s.len(),
        s[i].1.unit@ == unit,
        !unit_repeated(s, unit),
    ensures
        has_unit(s, unit),
        unit_entry(s, unit) == s[i],
{
    assert(has_unit(s, unit));
    let c = choose|c: int| 0 <= c < s.len() && #[trigger] s[c].1.unit@ == unit;
    if c < i {
        assert(unit_repeated(s, unit));
    } else if i < c {
        assert(unit_repeated(s, unit));
    }
}

/// Adding a split that lies within the unit's registered split, with the
/// same common flag and no other alignment, changes nothing; re-adding the
/// registered split itself is one such case.
pub proof fn lemma_contained_split_ignored(
    s: Seq<(u32, ObjSplit)>,
    sec_end: u32,
    i: int,
    address: u32,
    split: ObjSplit,
)
    requires
        0 <= i < s.len(),
        s[i].1.unit@ == split.unit@,
        !unit_repeated(s, split.unit@),
        split.end == 0 || split.end <= sec_end,
        s[i].0 <= address,
        requested_end(split, sec_end) <= s[i].1.end,
        s[i].1.common == split.common,
        s[i].1.align is None || split.align is None || s[i].1.align == split.align,
    ensures
        split_ignored(s, sec_end, address, split),
{
    lemma_unit_entry_at(s, split.unit@, i);
}

/// A confirmed split of one unit makes a confirmed split of another unit
/// that shares an address with it fail, in a section whose splits do not
/// overlap.
pub proof fn lemma_confirmed_overlap_rejected(
    s: Seq<(u32, ObjSplit)>,
    sec_end: u32,
    i: int,
    address: u32,
    split: ObjSplit,
)
    requires
        splits_disjoint(s),
        0 <= i < s.len(),
        !s[i].1.autogenerated,
        s[i].1.unit@ != split.unit@,
        !split.autogenerated,
        overlaps(s[i], address, requested_end(split, sec_end)),
    ensures
        split_rejected(s, sec_end, address, split),
{
    if split.end != 0 && split.end > sec_end {
    } else if unit_repeated(s, split.unit@) {
    } else if align_conflict(s, split) || common_conflict(s, split) {
    } else {
        if already_covered(s, sec_end, address, split) {
            let u = choose|u: int| 0 <= u < s.len() && #[trigger] s[u].1.unit@ == split.unit@;
            lemma_unit_entry_at(s, split.unit@, u);
            assert(overlaps(s[i], s[u].0, s[u].1.end));
        } else {
            assert(blocks(s, sec_end, address, split, i));
        }
    }
}

/// An inferred split that shares an address with a confirmed split of
/// another unit is dropped without error.
pub proof fn lemma_inferred_overlap_ignored(
    s: Seq<(u32, ObjSplit)>,
    sec_end: u32,
    i: int,
    address: u32,
    split: ObjSplit,
)
    requires
        0 <= i < s.len(),
        !s[i].1.autogenerated,
        s[i].1.unit@ != split.unit@,
        split.autogenerated,
        overlaps(s[i], address, requested_end(split, sec_end)),
        !split_rejected(s, sec_end, address, split),
    ensures
        split_ignored(s, sec_end, address, split),
{
    if !already_covered(s, sec_end, address, split) {
        assert(absorbed(
            s[i],
            merged_start(s, address, split),
            merged_end(s, sec_end, split),
            split.unit@,
        ));
    }
}

/// Merging two different alignments for one unit fails; where only one side
/// asks for an alignment, the merged split keeps it.
pub proof fn lemma_alignment_merge(s: Seq<(u32, ObjSplit)>, sec_end: u32, i: int, split: ObjSplit)
    requires
        0 <= i < s.len(),
        s[i].1.unit@ == split.unit@,
        !unit_repeated(s, split.unit@),
    ensures
        (s[i].1.align matches Some(a) && split.align matches Some(b) && a != b) ==> forall|
            address: u32,
        | #[trigger] split_rejected(s, sec_end, address, split),
        (s[i].1.align is None || split.align is None) ==> merged_split(s, sec_end, split).align
            == if split.align is Some {
            split.align
        } else {
            s[i].1.align
        },
{
    lemma_unit_entry_at(s, split.unit@, i);
}

} // verus!
