use vstd::prelude::*;

verus! {

/// A provisional attribution of an address range to a translation unit.
/// The range starts at the address the split is registered at.
#[derive(Debug)]
pub struct ObjSplit {
    pub unit: String,
    /// End of the range (exclusive); 0 stands for the end of the section.
    pub end: u32,
    pub align: Option<u32>,
    /// Uninitialized data that the linker merges into a common block.
    pub common: bool,
    /// Inferred by analysis rather than confirmed.
    pub autogenerated: bool,
    pub skip: bool,
    pub rename: Option<String>,
}

impl ObjSplit {
    /// A field-by-field copy.
    pub fn duplicate(&self) -> (r: ObjSplit)
        ensures
            r == *self,
    {
        let rename = match &self.rename {
            Some(n) => Some(n.clone()),
            None => None,
        };
        ObjSplit {
            unit: self.unit.clone(),
            end: self.end,
            align: self.align,
            common: self.common,
            autogenerated: self.autogenerated,
            skip: self.skip,
            rename,
        }
    }
}

/// Entries ordered by ascending start address; equal starts may repeat.
pub open spec fn splits_sorted(s: Seq<(u32, ObjSplit)>) -> bool {
    forall|i: int, j: int| 0 <= i <= j < s.len() ==> s[i].0 <= s[j].0
}

/// Whether a split entry shares at least one address with `[start, end)`.
pub open spec fn overlaps(e: (u32, ObjSplit), start: u32, end: u32) -> bool {
    e.0 < end && start < e.1.end
}

/// No two entries share an address.
pub open spec fn splits_disjoint(s: Seq<(u32, ObjSplit)>) -> bool {
    forall|i: int, j: int|
        0 <= i < s.len() && 0 <= j < s.len() && i != j ==> !overlaps(s[i], s[j].0, s[j].1.end)
}

/// The splits of one section, ordered by start address.
#[derive(Debug)]
pub struct ObjSplits {
    splits: Vec<(u32, ObjSplit)>,
}

impl ObjSplits {
    pub closed spec fn view(&self) -> Seq<(u32, ObjSplit)> {
        self.splits@
    }

    pub open spec fn wf(&self) -> bool {
        splits_sorted(self@)
    }

    /// An empty index.
    pub fn new() -> (r: Self)
        ensures
            r.wf(),
            r@.len() == 0,
    {
        ObjSplits { splits: Vec::new() }
    }

    /// Builds an index from entries already in ascending start order.
    pub fn from_sorted(entries: Vec<(u32, ObjSplit)>) -> (r: Self)
        requires
            splits_sorted(entries@),
        ensures
            r.wf(),
            r@ == entries@,
    {
        ObjSplits { splits: entries }
    }

    /// The number of splits.
    pub fn len(&self) -> (r: usize)
        ensures
            r == self@.len(),
    {
        self.splits.len()
    }

    /// Whether there is no split.
    pub fn is_empty(&self) -> (r: bool)
        ensures
            r == (self@.len() == 0),
    {
        self.splits.len() == 0
    }

    /// The entry at position `i`.
    pub fn at(&self, i: usize) -> (r: &(u32, ObjSplit))
        requires
            i < self@.len(),
        ensures
            *r == self@[i as int],
    {
        &self.splits[i]
    }

    /// Adds a split starting at `address`, after any split with the same start.
    pub fn push(&mut self, address: u32, split: ObjSplit)
        requires
            old(self).wf(),
        ensures
            final(self).wf(),
            exists|i: int|
                0 <= i <= old(self)@.len() && final(self)@ == old(self)@.insert(i, (address, split)),
    {
        proof {
            assert(splits_sorted(self@));
        }
        let mut i: usize = 0;
        while i < self.splits.len() && self.splits[i].0 <= address
            invariant
                old(self)@ == self@,
                splits_sorted(self@),
                i <= self@.len(),
                forall|k: int| 0 <= k < i ==> self@[k].0 <= address,
            decreases self@.len() - i,
        {
            i = i + 1;
        }
        let ghost s = self@;
        self.splits.insert(i, (address, split));
        proof {
            let t = self@;
            assert forall|a: int, b: int| 0 <= a <= b < t.len() implies t[a].0 <= t[b].0 by {
                if a < i && b > i {
                    assert(t[b] == s[b - 1]);
                } else if a > i {
                    assert(t[a] == s[a - 1] && t[b] == s[b - 1]);
                } else if a == i && b > i {
                    assert(t[b] == s[b - 1]);
                    assert(s[i as int].0 > address);
                    assert(s[i as int].0 <= s[b - 1].0);
                }
            }
            assert(splits_sorted(self@));
        }
    }

    /// Every entry, in ascending start order.
    pub fn iter(&self) -> (r: Vec<(u32, ObjSplit)>)
        ensures
            r@ == self@,
    {
        let mut out: Vec<(u32, ObjSplit)> = Vec::new();
        let mut i: usize = 0;
        while i < self.splits.len()
            invariant
                i <= self@.len(),
                out@ == self@.subrange(0, i as int),
            decreases self@.len() - i,
        {
            let e = &self.splits[i];
            out.push((e.0, e.1.duplicate()));
            i = i + 1;
            assert(out@ =~= self@.subrange(0, i as int));
        }
        assert(out@ =~= self@);
        out
    }

    /// The entries that share an address with `[start, end)`, in order.
    pub fn for_range(&self, start: u32, end: u32) -> (r: Vec<(u32, ObjSplit)>)
        ensures
            r@ == self@.filter(|e: (u32, ObjSplit)| overlaps(e, start, end)),
    {
        let mut out: Vec<(u32, ObjSplit)> = Vec::new();
        let mut i: usize = 0;
        while i < self.splits.len()
            invariant
                i <= self@.len(),
                out@ == self@.subrange(0, i as int).filter(
                    |e: (u32, ObjSplit)| overlaps(e, start, end),
                ),
            decreases self@.len() - i,
        {
            let e = &self.splits[i];
            proof {
                let f = |e: (u32, ObjSplit)| overlaps(e, start, end);
                assert(self@.subrange(0, i + 1) =~= self@.subrange(0, i as int).push(self@[i as int]));
                self@.subrange(0, i as int).lemma_filter_push(self@[i as int], f);
            }
            if e.0 < end && start < e.1.end {
                out.push((e.0, e.1.duplicate()));
            }
            i = i + 1;
        }
        assert(self@.subrange(0, self@.len() as int) =~= self@);
        out
    }

    /// The split registered for `unit`: `Ok(None)` when there is none, an
    /// error when there are several.
    pub fn for_unit(&self, unit: &String) -> (r: Result<Option<(u32, ObjSplit)>, ()>)
        ensures
            match r {
                Ok(None) => forall|i: int| 0 <= i < self@.len() ==> self@[i].1.unit@ != unit@,
                Ok(Some(e)) => exists|i: int|
                    0 <= i < self@.len() && self@[i] == e && e.1.unit@ == unit@ && forall|j: int|
                        0 <= j < self@.len() && j != i ==> self@[j].1.unit@ != unit@,
                Err(()) => exists|i: int, j: int|
                    0 <= i < j < self@.len() && self@[i].1.unit@ == unit@ && self@[j].1.unit@
                        == unit@,
            },
    {
        let n = self.len();
        match self.find_unit(unit, 0) {
            None => Ok(None),
            Some(i) => {
                match self.find_unit(unit, i + 1) {
                    None => {
                        let e = &self.splits[i];
                        Ok(Some((e.0, e.1.duplicate())))
                    },
                    Some(_) => Err(()),
                }
            },
        }
    }

    /// The first position at or after `from` whose split belongs to `unit`.
    pub fn find_unit(&self, unit: &String, from: usize) -> (r: Option<usize>)
        ensures
            match r {
                None => forall|i: int| from <= i < self@.len() ==> self@[i].1.unit@ != unit@,
                Some(i) => from <= i < self@.len() && self@[i as int].1.unit@ == unit@
                    && forall|k: int| from <= k < i ==> self@[k].1.unit@ != unit@,
            },
    {
        let mut i: usize = from;
        while i < self.splits.len()
            invariant
                from <= i,
                forall|k: int| from <= k < i ==> self@[k].1.unit@ != unit@,
            decreases self@.len() - i,
        {
            if self.splits[i].1.unit == *unit {
                return Some(i);
            }
            i = i + 1;
        }
        None
    }
}

} // verus!
