use vstd::prelude::*;

verus! {

/// An address within a numbered section.
#[derive(Debug, Copy, Clone, PartialEq, Eq, Hash, Structural)]
pub struct SectionAddress {
    pub section: u32,
    pub address: u32,
}

/// Whether `a` lies in the range that starts at `start` and ends at `end`
/// (exclusive), in the same section.
pub open spec fn in_range(start: SectionAddress, end: u32, a: SectionAddress) -> bool {
    start.section == a.section && start.address <= a.address && a.address < end
}

/// A set of address ranges that can be asked whether they hold an address.
#[derive(Debug)]
pub struct AddressRanges {
    ranges: Vec<(SectionAddress, u32)>,
}

impl AddressRanges {
    /// The ranges, each a start and an end address (exclusive).
    pub closed spec fn view(&self) -> Seq<(SectionAddress, u32)> {
        self.ranges@
    }

    /// Whether some range holds `a`.
    pub open spec fn holds(&self, a: SectionAddress) -> bool {
        exists|i: int| 0 <= i < self@.len() && #[trigger] in_range(self@[i].0, self@[i].1, a)
    }

    /// No range.
    pub fn new() -> (r: Self)
        ensures
            r@.len() == 0,
            forall|a: SectionAddress| !r.holds(a),
    {
        AddressRanges { ranges: Vec::new() }
    }

    /// Adds the range `[start, end)`, in the section of `start`.
    pub fn insert(&mut self, start: SectionAddress, end: SectionAddress)
        ensures
            forall|a: SectionAddress|
                final(self).holds(a) <==> (old(self).holds(a) || in_range(start, end.address, a)),
    {
        let ghost before = self@;
        self.ranges.push((start, end.address));
        proof {
            assert forall|a: SectionAddress|
                final(self).holds(a) <==> (old(self).holds(a) || in_range(start, end.address, a)) by {
                if final(self).holds(a) {
                    let i = choose|i: int|
                        0 <= i < self@.len() && #[trigger] in_range(self@[i].0, self@[i].1, a);
                    if i < before.len() {
                        assert(before[i] == self@[i]);
                    }
                }
                if old(self).holds(a) {
                    let i = choose|i: int|
                        0 <= i < before.len() && #[trigger] in_range(before[i].0, before[i].1, a);
                    assert(self@[i] == before[i]);
                }
                if in_range(start, end.address, a) {
                    assert(in_range(self@[before.len() as int].0, self@[before.len() as int].1, a));
                }
            }
        }
    }

    /// Whether some range holds `a`.
    pub fn contains(&self, a: SectionAddress) -> (r: bool)
        ensures
            r == self.holds(a),
    {
        let mut i: usize = 0;
        while i < self.ranges.len()
            invariant
                i <= self@.len(),
                forall|k: int| 0 <= k < i ==> !#[trigger] in_range(self@[k].0, self@[k].1, a),
            decreases self@.len() - i,
        {
            let (s, e) = self.ranges[i];
            if s.section == a.section && s.address <= a.address && a.address < e {
                assert(in_range(self@[i as int].0, self@[i as int].1, a));
                return true;
            }
            i = i + 1;
        }
        false
    }
}

} // verus!
