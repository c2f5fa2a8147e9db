use vstd::prelude::*;

use crate::relocations::ObjRelocations;
use crate::splits::ObjSplits;

verus! {

#[derive(Debug, Copy, Clone, PartialEq, Eq, Hash, Structural)]
pub enum ObjSectionKind {
    Code,
    Data,
    ReadOnlyData,
    Bss,
}

/// One section: the range `[address, address + size)`, with the splits and
/// relocations that fall in it.
#[derive(Debug)]
pub struct ObjSection {
    pub name: String,
    pub kind: ObjSectionKind,
    pub address: u64,
    pub size: u64,
    pub splits: ObjSplits,
    pub relocations: ObjRelocations,
}

/// The 32-bit end address of a section.
pub open spec fn section_end(s: ObjSection) -> u32 {
    ((s.address as int + s.size as int) % 0x1_0000_0000) as u32
}

impl ObjSection {
    /// A section with no split and no relocation.
    pub fn new(name: String, kind: ObjSectionKind, address: u64, size: u64) -> (r: Self)
        ensures
            r.name == name,
            r.kind == kind,
            r.address == address,
            r.size == size,
            r.splits.wf(),
            r.splits@.len() == 0,
            r.relocations.wf(),
            r.relocations@.len() == 0,
    {
        ObjSection {
            name,
            kind,
            address,
            size,
            splits: ObjSplits::new(),
            relocations: ObjRelocations::empty(),
        }
    }

    /// The 32-bit end address (exclusive).
    pub fn end_address(&self) -> (r: u32)
        ensures
            r == section_end(*self),
    {
        let a = (self.address % 0x1_0000_0000) as u32;
        let b = (self.size % 0x1_0000_0000) as u32;
        let r = a.wrapping_add(b);
        assert(r == section_end(*self)) by (nonlinear_arith)
            requires
                a == self.address % 0x1_0000_0000,
                b == self.size % 0x1_0000_0000,
                r == (a + b) % 0x1_0000_0000,
        ;
        r
    }
}

/// The sections of an object, in order.
#[derive(Debug)]
pub struct ObjSections {
    sections: Vec<ObjSection>,
}

impl ObjSections {
    pub closed spec fn view(&self) -> Seq<ObjSection> {
        self.sections@
    }

    pub fn new(sections: Vec<ObjSection>) -> (r: Self)
        ensures
            r@ == sections@,
    {
        ObjSections { sections }
    }

    /// The number of sections.
    pub fn count(&self) -> (r: usize)
        ensures
            r == self@.len(),
    {
        self.sections.len()
    }

    /// The section at `index`, if there is one.
    pub fn get(&self, index: usize) -> (r: Option<&ObjSection>)
        ensures
            index < self@.len() ==> r == Some(&self@[index as int]),
            index >= self@.len() ==> r is None,
    {
        if index < self.sections.len() {
            Some(&self.sections[index])
        } else {
            None
        }
    }

    /// The section at `index`, which must exist.
    pub fn at(&self, index: usize) -> (r: &ObjSection)
        requires
            index < self@.len(),
        ensures
            *r == self@[index as int],
    {
        &self.sections[index]
    }

    /// Replaces the splits of the section at `index`, keeping all else.
    pub fn set_splits(&mut self, index: usize, splits: ObjSplits)
        requires
            index < old(self)@.len(),
        ensures
            final(self)@.len() == old(self)@.len(),
            final(self)@[index as int].splits == splits,
            final(self)@[index as int].name == old(self)@[index as int].name,
            final(self)@[index as int].kind == old(self)@[index as int].kind,
            final(self)@[index as int].address == old(self)@[index as int].address,
            final(self)@[index as int].size == old(self)@[index as int].size,
            final(self)@[index as int].relocations == old(self)@[index as int].relocations,
            forall|j: int| 0 <= j < final(self)@.len() && j != index ==> final(self)@[j] == old(self)@[j],
    {
        let mut section = self.sections.remove(index);
        section.splits = splits;
        self.sections.insert(index, section);
    }
}

} // verus!
