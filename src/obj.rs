use vstd::prelude::*;

use crate::addresses::{AddressRanges, SectionAddress};
use crate::merge::{
    absorbed, absorbs_confirmed, align_conflict, has_unit, already_covered, blocks, common_conflict, displaced_between,
    displaced_units, kept_between, kept_entries, merged_end, merged_split, merged_start,
    renamed, renamed_all, requested_end, split_ignored, split_rejected, unit_entry,
    unit_repeated,
};
use crate::relocations::ObjRelocKind;
use crate::relocations::SymbolIndex;
use crate::symbols::{same_symbol, ObjSymbol, ObjSymbols};
use crate::sections::{section_end, ObjSection, ObjSectionKind, ObjSections};
use crate::splits::{overlaps, splits_disjoint, splits_sorted, ObjSplit, ObjSplits};

verus! {

#[derive(Debug, Copy, Clone, PartialEq, Eq, Hash, Structural)]
pub enum ObjKind {
    /// Fully linked object
    Executable,
    /// Relocatable object
    Relocatable,
}

#[derive(Debug, Copy, Clone, PartialEq, Eq, Hash, Structural)]
pub enum ObjArchitecture {
    PowerPc,
}

/// Translation unit information.
#[derive(Debug)]
pub struct ObjUnit {
    pub name: String,
    /// Generated, replaceable by user.
    pub autogenerated: bool,
    /// Version of the compiler's `.comment` section.
    pub comment_version: Option<u8>,
}

/// A relocation of a loadable module against another module, kept until
/// the modules are linked.
#[derive(Debug, Copy, Clone)]
pub struct RelReloc {
    pub kind: ObjRelocKind,
    pub section: u8,
    pub address: u32,
    pub module_id: u32,
    pub target_section: u8,
    pub addend: u32,
    pub original_section: u8,
    pub original_target_section: u8,
}

/// An executable or relocatable module, with its sections and symbols.
#[derive(Debug)]
pub struct ObjInfo {
    pub kind: ObjKind,
    pub architecture: ObjArchitecture,
    pub name: String,
    pub symbols: ObjSymbols,
    pub sections: ObjSections,
    pub entry: Option<u64>,
    // Linker generated
    pub sda2_base: Option<u32>,
    pub sda_base: Option<u32>,
    pub stack_address: Option<u32>,
    pub stack_end: Option<u32>,
    pub db_stack_addr: Option<u32>,
    pub arena_lo: Option<u32>,
    pub arena_hi: Option<u32>,
    // Extracted
    pub link_order: Vec<ObjUnit>,
    pub blocked_relocation_sources: AddressRanges,
    pub blocked_relocation_targets: AddressRanges,
    /// From constructor, destructor and exception tables: function start and
    /// size, when known.
    pub known_functions: Vec<(SectionAddress, Option<u32>)>,
    /// Module ID (0 for the main image)
    pub module_id: u32,
    pub unresolved_relocations: Vec<RelReloc>,
}

/// The low 32 bits of an address.
pub open spec fn low32(a: u64) -> u32 {
    (a % 0x1_0000_0000) as u32
}

/// The value a reserved linker symbol gives the field it belongs to, if
/// `symbol` carries that name.
pub open spec fn captured(field: Option<u32>, symbol: ObjSymbol, reserved: Seq<char>) -> Option<u32> {
    if symbol.name@ == reserved {
        Some(low32(symbol.address))
    } else {
        field
    }
}

/// The total size of the Code sections among `secs`, each size taken to 32 bits.
pub open spec fn code_total(secs: Seq<ObjSection>) -> int
    decreases secs.len(),
{
    if secs.len() == 0 {
        0
    } else {
        code_total(secs.drop_last()) + if secs.last().kind == ObjSectionKind::Code {
            low32(secs.last().size) as int
        } else {
            0
        }
    }
}

/// The total size of the sections among `secs` that are not Code.
pub open spec fn data_total(secs: Seq<ObjSection>) -> int
    decreases secs.len(),
{
    if secs.len() == 0 {
        0
    } else {
        data_total(secs.drop_last()) + if secs.last().kind != ObjSectionKind::Code {
            low32(secs.last().size) as int
        } else {
            0
        }
    }
}

/// The total size of the common symbols among `syms`.
pub open spec fn common_total(syms: Seq<ObjSymbol>) -> int
    decreases syms.len(),
{
    if syms.len() == 0 {
        0
    } else {
        common_total(syms.drop_last()) + if syms.last().flags.0 & 8 != 0 {
            low32(syms.last().size) as int
        } else {
            0
        }
    }
}

proof fn lemma_code_total_prefix(secs: Seq<ObjSection>, i: int)
    requires
        0 <= i <= secs.len(),
    ensures
        0 <= code_total(secs.subrange(0, i)) <= code_total(secs),
    decreases secs.len(),
{
    if i < secs.len() {
        assert(secs.drop_last().subrange(0, i) =~= secs.subrange(0, i));
        lemma_code_total_prefix(secs.drop_last(), i);
    } else {
        assert(secs.subrange(0, i) =~= secs);
    }
    lemma_code_total_nonneg(secs);
}

proof fn lemma_code_total_nonneg(secs: Seq<ObjSection>)
    ensures
        0 <= code_total(secs),
        0 <= data_total(secs),
    decreases secs.len(),
{
    if secs.len() > 0 {
        lemma_code_total_nonneg(secs.drop_last());
    }
}

proof fn lemma_data_total_prefix(secs: Seq<ObjSection>, i: int)
    requires
        0 <= i <= secs.len(),
    ensures
        0 <= data_total(secs.subrange(0, i)) <= data_total(secs),
    decreases secs.len(),
{
    if i < secs.len() {
        assert(secs.drop_last().subrange(0, i) =~= secs.subrange(0, i));
        lemma_data_total_prefix(secs.drop_last(), i);
    } else {
        assert(secs.subrange(0, i) =~= secs);
    }
    lemma_code_total_nonneg(secs);
}

proof fn lemma_common_total_prefix(syms: Seq<ObjSymbol>, i: int)
    requires
        0 <= i <= syms.len(),
    ensures
        0 <= common_total(syms.subrange(0, i)) <= common_total(syms),
    decreases syms.len(),
{
    if i < syms.len() {
        assert(syms.drop_last().subrange(0, i) =~= syms.subrange(0, i));
        lemma_common_total_prefix(syms.drop_last(), i);
    } else {
        assert(syms.subrange(0, i) =~= syms);
    }
    if syms.len() > 0 {
        lemma_common_total_prefix(syms.drop_last(), syms.len() - 1);
    }
}

/// Two sections that differ at most in their splits.
pub open spec fn same_but_splits(a: ObjSection, b: ObjSection) -> bool {
    &&& a.name == b.name
    &&& a.kind == b.kind
    &&& a.address == b.address
    &&& a.size == b.size
    &&& a.relocations == b.relocations
}

/// Two objects that differ at most in the splits of their sections.
pub open spec fn same_but_splits_everywhere(a: ObjInfo, b: ObjInfo) -> bool {
    &&& a.sections@.len() == b.sections@.len()
    &&& forall|j: int| 0 <= j < a.sections@.len() ==> same_but_splits(a.sections@[j], b.sections@[j])
    &&& a.kind == b.kind
    &&& a.architecture == b.architecture
    &&& a.name == b.name
    &&& a.symbols == b.symbols
    &&& a.entry == b.entry
    &&& a.sda2_base == b.sda2_base
    &&& a.sda_base == b.sda_base
    &&& a.stack_address == b.stack_address
    &&& a.stack_end == b.stack_end
    &&& a.db_stack_addr == b.db_stack_addr
    &&& a.arena_lo == b.arena_lo
    &&& a.arena_hi == b.arena_hi
    &&& a.link_order == b.link_order
    &&& a.blocked_relocation_sources == b.blocked_relocation_sources
    &&& a.blocked_relocation_targets == b.blocked_relocation_targets
    &&& a.known_functions == b.known_functions
    &&& a.module_id == b.module_id
    &&& a.unresolved_relocations == b.unresolved_relocations
}

/// What a merge that goes through does: the units that gave way take the
/// incoming unit's name in every section, and the target section holds the
/// merged split in place of the entries that gave way.
pub open spec fn split_applied(pre: ObjInfo, post: ObjInfo, idx: int, address: u32, split: ObjSplit) -> bool {
    let sec = pre.sections@[idx];
    let s = sec.splits@;
    let se = section_end(sec);
    let names = displaced_units(s, se, address, split);
    &&& same_but_splits_everywhere(pre, post)
    &&& forall|j: int|
        0 <= j < pre.sections@.len() && j != idx ==> post.sections@[j].splits@ == renamed_all(
            pre.sections@[j].splits@,
            names,
            split.unit,
        )
    &&& exists|p: int|
        0 <= p <= kept_entries(s, se, address, split).len() && post.sections@[idx].splits@
            == kept_entries(s, se, address, split).insert(
            p,
            (merged_start(s, address, split), merged_split(s, se, split)),
        )
}

/// What `add_split` does on a section that exists.
pub open spec fn split_outcome(
    pre: ObjInfo,
    post: ObjInfo,
    idx: int,
    address: u32,
    split: ObjSplit,
    r: Result<(), SplitError>,
) -> bool {
    let sec = pre.sections@[idx];
    let s = sec.splits@;
    let se = section_end(sec);
    let oob = split.end != 0 && split.end > se;
    &&& (r is Err <==> split_rejected(s, se, address, split))
    &&& (r is Err || split_ignored(s, se, address, split)) ==> post == pre
    &&& (r is Ok && !split_ignored(s, se, address, split)) ==> split_applied(
        pre,
        post,
        idx,
        address,
        split,
    )
    &&& (r matches Err(SplitError::SplitOutOfBounds { .. }) <==> oob)
    &&& (r matches Err(SplitError::MultipleSplits { .. }) <==> !oob && unit_repeated(
        s,
        split.unit@,
    ))
    &&& (r matches Err(SplitError::AlignmentConflict { .. }) <==> !oob && !unit_repeated(
        s,
        split.unit@,
    ) && align_conflict(s, split))
    &&& (r matches Err(SplitError::CommonFlagConflict { .. }) <==> !oob && !unit_repeated(
        s,
        split.unit@,
    ) && !align_conflict(s, split) && common_conflict(s, split))
    &&& (r matches Err(SplitError::OverlappingSplit { unit, existing_unit, .. }) ==> unit@
        == split.unit@ && exists|i: int|
        #[trigger] blocks(s, se, address, split, i) && existing_unit@ == s[i].1.unit@)
    &&& !(r matches Err(SplitError::InvalidSection { .. }))
}

/// Why `add_split` refused a split.
#[derive(Debug)]
pub enum SplitError {
    /// No section has this index.
    InvalidSection { index: usize },
    /// The split ends beyond its section.
    SplitOutOfBounds {
        unit: String,
        start: u32,
        end: u32,
        section_start: u32,
        section_end: u32,
    },
    /// The section already holds more than one split of the unit.
    MultipleSplits { unit: String },
    /// The unit's split and the incoming one ask for different alignments.
    AlignmentConflict { unit: String, existing: u32, requested: u32 },
    /// The unit's split and the incoming one disagree on the common flag.
    CommonFlagConflict { unit: String, existing: bool, requested: bool },
    /// A confirmed split of another unit holds part of the range.
    OverlappingSplit {
        unit: String,
        start: u32,
        end: u32,
        existing_unit: String,
        existing_start: u32,
        existing_end: u32,
    },
}

impl ObjInfo {
    /// Every section keeps its splits ordered by start address.
    pub open spec fn wf(&self) -> bool {
        forall|j: int| 0 <= j < self.sections@.len() ==> #[trigger] self.sections@[j].splits.wf()
    }

    /// An object built from its symbols and sections; every other field starts unset.
    pub fn new(
        kind: ObjKind,
        architecture: ObjArchitecture,
        name: String,
        symbols: Vec<ObjSymbol>,
        sections: Vec<ObjSection>,
    ) -> (r: Self)
        ensures
            r.kind == kind,
            r.architecture == architecture,
            r.name == name,
            r.symbols@ == symbols@,
            r.sections@ == sections@,
            (forall|j: int| 0 <= j < sections@.len() ==> #[trigger] sections@[j].splits.wf())
                ==> r.wf(),
            r.entry is None,
            r.sda2_base is None,
            r.sda_base is None,
            r.stack_address is None,
            r.stack_end is None,
            r.db_stack_addr is None,
            r.arena_lo is None,
            r.arena_hi is None,
            r.link_order@.len() == 0,
            forall|a: SectionAddress| !r.blocked_relocation_sources.holds(a),
            forall|a: SectionAddress| !r.blocked_relocation_targets.holds(a),
            r.known_functions@.len() == 0,
            r.module_id == 0,
            r.unresolved_relocations@.len() == 0,
    {
        ObjInfo {
            kind,
            architecture,
            name,
            symbols: ObjSymbols::new(symbols),
            sections: ObjSections::new(sections),
            entry: None,
            sda2_base: None,
            sda_base: None,
            stack_address: None,
            stack_end: None,
            db_stack_addr: None,
            arena_lo: None,
            arena_hi: None,
            link_order: Vec::new(),
            blocked_relocation_sources: AddressRanges::new(),
            blocked_relocation_targets: AddressRanges::new(),
            known_functions: Vec::new(),
            module_id: 0,
            unresolved_relocations: Vec::new(),
        }
    }

    /// Adds a symbol to the symbol table (see `ObjSymbols::add`). A symbol
    /// with a reserved linker name also sets the matching field to the low
    /// 32 bits of its address.
    pub fn add_symbol(&mut self, in_symbol: ObjSymbol, replace: bool) -> (r: SymbolIndex)
        requires
            old(self).symbols@.len() < usize::MAX,
        ensures
            final(self).sda_base == captured(old(self).sda_base, in_symbol, "_SDA_BASE_"@),
            final(self).sda2_base == captured(old(self).sda2_base, in_symbol, "_SDA2_BASE_"@),
            final(self).stack_address == captured(old(self).stack_address, in_symbol, "_stack_addr"@),
            final(self).stack_end == captured(old(self).stack_end, in_symbol, "_stack_end"@),
            final(self).db_stack_addr == captured(old(self).db_stack_addr, in_symbol, "_db_stack_addr"@),
            final(self).arena_lo == captured(old(self).arena_lo, in_symbol, "__ArenaLo"@),
            final(self).arena_hi == captured(old(self).arena_hi, in_symbol, "__ArenaHi"@),
            replace && (exists|i: int|
                0 <= i < old(self).symbols@.len() && same_symbol(old(self).symbols@[i], in_symbol))
                ==> {
                &&& r < old(self).symbols@.len()
                &&& same_symbol(old(self).symbols@[r as int], in_symbol)
                &&& forall|k: int| 0 <= k < r ==> !same_symbol(old(self).symbols@[k], in_symbol)
                &&& final(self).symbols@ == old(self).symbols@.update(r as int, in_symbol)
            },
            !(replace && (exists|i: int|
                0 <= i < old(self).symbols@.len() && same_symbol(old(self).symbols@[i], in_symbol)))
                ==> {
                &&& r == old(self).symbols@.len()
                &&& final(self).symbols@ == old(self).symbols@.push(in_symbol)
            },
            final(self).sections == old(self).sections,
            final(self).name == old(self).name,
            final(self).kind == old(self).kind,
            final(self).link_order == old(self).link_order,
            final(self).known_functions == old(self).known_functions,
            final(self).module_id == old(self).module_id,
    {
        proof {
            reveal_strlit("_SDA_BASE_");
            reveal_strlit("_SDA2_BASE_");
            reveal_strlit("_stack_addr");
            reveal_strlit("_stack_end");
            reveal_strlit("_db_stack_addr");
            reveal_strlit("__ArenaLo");
            reveal_strlit("__ArenaHi");
            assert("_SDA_BASE_"@.len() != "_SDA2_BASE_"@.len());
            assert("_SDA_BASE_"@.len() != "_stack_addr"@.len());
            assert("_SDA_BASE_"@[1] != "_stack_end"@[1]);
            assert("_SDA_BASE_"@.len() != "_db_stack_addr"@.len());
            assert("_SDA_BASE_"@.len() != "__ArenaLo"@.len());
            assert("_SDA_BASE_"@.len() != "__ArenaHi"@.len());
            assert("_SDA2_BASE_"@[1] != "_stack_addr"@[1]);
            assert("_SDA2_BASE_"@.len() != "_stack_end"@.len());
            assert("_SDA2_BASE_"@.len() != "_db_stack_addr"@.len());
            assert("_SDA2_BASE_"@.len() != "__ArenaLo"@.len());
            assert("_SDA2_BASE_"@.len() != "__ArenaHi"@.len());
            assert("_stack_addr"@.len() != "_stack_end"@.len());
            assert("_stack_addr"@.len() != "_db_stack_addr"@.len());
            assert("_stack_addr"@.len() != "__ArenaLo"@.len());
            assert("_stack_addr"@.len() != "__ArenaHi"@.len());
            assert("_stack_end"@.len() != "_db_stack_addr"@.len());
            assert("_stack_end"@.len() != "__ArenaLo"@.len());
            assert("_stack_end"@.len() != "__ArenaHi"@.len());
            assert("_db_stack_addr"@.len() != "__ArenaLo"@.len());
            assert("_db_stack_addr"@.len() != "__ArenaHi"@.len());
            assert("__ArenaLo"@[7] != "__ArenaHi"@[7]);
        }
        let address = (in_symbol.address % 0x1_0000_0000) as u32;
        if in_symbol.name == "_SDA_BASE_".to_owned() {
            self.sda_base = Some(address);
        } else if in_symbol.name == "_SDA2_BASE_".to_owned() {
            self.sda2_base = Some(address);
        } else if in_symbol.name == "_stack_addr".to_owned() {
            self.stack_address = Some(address);
        } else if in_symbol.name == "_stack_end".to_owned() {
            self.stack_end = Some(address);
        } else if in_symbol.name == "_db_stack_addr".to_owned() {
            self.db_stack_addr = Some(address);
        } else if in_symbol.name == "__ArenaLo".to_owned() {
            self.arena_lo = Some(address);
        } else if in_symbol.name == "__ArenaHi".to_owned() {
            self.arena_hi = Some(address);
        }
        self.symbols.add(in_symbol, replace)
    }

    /// Whether every split of `unit`, in every section, is autogenerated
    /// (true when the unit has none).
    pub fn is_unit_autogenerated(&self, unit: &str) -> (r: bool)
        ensures
            r == forall|j: int, i: int|
                0 <= j < self.sections@.len() && 0 <= i < self.sections@[j].splits@.len()
                    && #[trigger] self.sections@[j].splits@[i].1.unit@ == unit@
                    ==> self.sections@[j].splits@[i].1.autogenerated,
    {
        let name = unit.to_owned();
        let n = self.sections.count();
        let mut j: usize = 0;
        while j < n
            invariant
                n == self.sections@.len(),
                name@ == unit@,
                forall|jj: int, i: int|
                    0 <= jj < j && 0 <= i < self.sections@[jj].splits@.len()
                        && #[trigger] self.sections@[jj].splits@[i].1.unit@ == unit@
                        ==> self.sections@[jj].splits@[i].1.autogenerated,
            decreases n - j,
        {
            let splits = &self.sections.at(j).splits;
            let m = splits.len();
            let mut i: usize = 0;
            while i < m
                invariant
                    n == self.sections@.len(),
                    j < n,
                    name@ == unit@,
                    *splits == self.sections@[j as int].splits,
                    m == splits@.len(),
                    forall|jj: int, ii: int|
                        0 <= jj < j && 0 <= ii < self.sections@[jj].splits@.len()
                            && #[trigger] self.sections@[jj].splits@[ii].1.unit@ == unit@
                            ==> self.sections@[jj].splits@[ii].1.autogenerated,
                    forall|ii: int|
                        0 <= ii < i && #[trigger] splits@[ii].1.unit@ == unit@
                            ==> splits@[ii].1.autogenerated,
                decreases m - i,
            {
                let e = splits.at(i);
                if e.1.unit == name && !e.1.autogenerated {
                    assert(self.sections@[j as int].splits@[i as int].1.unit@ == unit@);
                    return false;
                }
                i = i + 1;
            }
            j = j + 1;
        }
        true
    }

    /// The total size of all Code sections.
    pub fn code_size(&self) -> (r: u32)
        requires
            code_total(self.sections@) <= u32::MAX,
        ensures
            r == code_total(self.sections@),
    {
        let n = self.sections.count();
        let mut total: u32 = 0;
        let mut j: usize = 0;
        while j < n
            invariant
                n == self.sections@.len(),
                j <= n,
                code_total(self.sections@) <= u32::MAX,
                total == code_total(self.sections@.subrange(0, j as int)),
            decreases n - j,
        {
            let section = self.sections.at(j);
            proof {
                assert(self.sections@.subrange(0, j + 1).drop_last() =~= self.sections@.subrange(0, j as int));
                lemma_code_total_prefix(self.sections@, j + 1);
            }
            if section.kind == ObjSectionKind::Code {
                total = total + (section.size % 0x1_0000_0000) as u32;
            }
            j = j + 1;
        }
        assert(self.sections@.subrange(0, n as int) =~= self.sections@);
        total
    }

    /// The total size of all sections other than Code, plus the size of every
    /// common symbol.
    pub fn data_size(&self) -> (r: u32)
        requires
            data_total(self.sections@) + common_total(self.symbols@) <= u32::MAX,
        ensures
            r == data_total(self.sections@) + common_total(self.symbols@),
    {
        proof {
            lemma_common_total_prefix(self.symbols@, 0);
            lemma_code_total_nonneg(self.sections@);
        }
        let n = self.sections.count();
        let mut total: u32 = 0;
        let mut j: usize = 0;
        while j < n
            invariant
                n == self.sections@.len(),
                j <= n,
                data_total(self.sections@) + common_total(self.symbols@) <= u32::MAX,
                0 <= common_total(self.symbols@),
                total == data_total(self.sections@.subrange(0, j as int)),
            decreases n - j,
        {
            let section = self.sections.at(j);
            proof {
                assert(self.sections@.subrange(0, j + 1).drop_last() =~= self.sections@.subrange(0, j as int));
                lemma_data_total_prefix(self.sections@, j + 1);
            }
            if section.kind != ObjSectionKind::Code {
                total = total + (section.size % 0x1_0000_0000) as u32;
            }
            j = j + 1;
        }
        assert(self.sections@.subrange(0, n as int) =~= self.sections@);
        let m = self.symbols.count();
        let mut k: usize = 0;
        while k < m
            invariant
                m == self.symbols@.len(),
                k <= m,
                data_total(self.sections@) + common_total(self.symbols@) <= u32::MAX,
                total == data_total(self.sections@) + common_total(self.symbols@.subrange(0, k as int)),
            decreases m - k,
        {
            let symbol = self.symbols.at(k);
            proof {
                assert(self.symbols@.subrange(0, k + 1).drop_last() =~= self.symbols@.subrange(0, k as int));
                lemma_common_total_prefix(self.symbols@, k + 1);
            }
            if symbol.flags.is_common() {
                total = total + (symbol.size % 0x1_0000_0000) as u32;
            }
            k = k + 1;
        }
        assert(self.symbols@.subrange(0, m as int) =~= self.symbols@);
        total
    }

    /// Registers `split`, starting at `address`, in the section `section_index`,
    /// merging it with the unit's split there. A refused call changes nothing.
    #[verifier::rlimit(60)]
    #[verifier::spinoff_prover]
    pub fn add_split(&mut self, section_index: usize, address: u32, split: ObjSplit) -> (r: Result<
        (),
        SplitError,
    >)
        requires
            old(self).wf(),
        ensures
            final(self).wf(),
            section_index >= old(self).sections@.len() ==> r == Err::<(), SplitError>(
                SplitError::InvalidSection { index: section_index },
            ) && *final(self) == *old(self),
            section_index < old(self).sections@.len() ==> split_outcome(
                *old(self),
                *final(self),
                section_index as int,
                address,
                split,
                r,
            ),
            final(self).sections@.len() == old(self).sections@.len(),
            forall|j: int|
                0 <= j < old(self).sections@.len() && splits_disjoint(old(self).sections@[j].splits@)
                    ==> splits_disjoint(#[trigger] final(self).sections@[j].splits@),
    {
        if section_index >= self.sections.count() {
            return Err(SplitError::InvalidSection { index: section_index });
        }
        let section = self.sections.at(section_index);
        let ghost s = section.splits@;
        assert(self.sections@[section_index as int].splits.wf());
        let ghost sec = self.sections@[section_index as int];
        let section_start = (section.address % 0x1_0000_0000) as u32;
        let sec_end = section.end_address();
        if split.end != 0 && split.end > sec_end {
            return Err(
                SplitError::SplitOutOfBounds {
                    unit: split.unit,
                    start: address,
                    end: split.end,
                    section_start,
                    section_end: sec_end,
                },
            );
        }
        let req_end = if split.end == 0 {
            sec_end
        } else {
            split.end
        };
        let inferred = split.autogenerated;
        let unit = split.unit.clone();
        let (start, end, merged) = match section.splits.for_unit(&split.unit) {
            Err(()) => {
                return Err(SplitError::MultipleSplits { unit: split.unit });
            },
            Ok(Some((ea, ex))) => {
                proof {
                    let i = choose|i: int|
                        0 <= i < s.len() && s[i] == (ea, ex) && ex.unit@ == unit@ && forall|j: int|
                            0 <= j < s.len() && j != i ==> s[j].1.unit@ != unit@;
                    assert(has_unit_at(s, unit@, i));
                    let c = choose|c: int| 0 <= c < s.len() && #[trigger] s[c].1.unit@ == unit@;
                    assert(c == i);
                    assert(unit_entry(s, unit@) == (ea, ex));
                    assert(!unit_repeated(s, unit@));
                }
                let align = match (split.align, ex.align) {
                    (Some(a), Some(b)) => {
                        if a != b {
                            return Err(
                                SplitError::AlignmentConflict {
                                    unit: split.unit,
                                    existing: b,
                                    requested: a,
                                },
                            );
                        }
                        Some(a)
                    },
                    (Some(a), None) => Some(a),
                    (None, b) => b,
                };
                if split.common != ex.common {
                    return Err(
                        SplitError::CommonFlagConflict {
                            unit: split.unit,
                            existing: ex.common,
                            requested: split.common,
                        },
                    );
                }
                if address >= ea && req_end <= ex.end {
                    return Ok(());
                }
                let start = if ea < address {
                    ea
                } else {
                    address
                };
                let end = if ex.end > req_end {
                    ex.end
                } else {
                    req_end
                };
                (
                    start,
                    end,
                    ObjSplit {
                        unit: split.unit,
                        end,
                        align,
                        common: split.common,
                        autogenerated: split.autogenerated && ex.autogenerated,
                        skip: false,
                        rename: None,
                    },
                )
            },
            Ok(None) => {
                proof {
                    assert(!has_unit(s, unit@));
                    assert(!unit_repeated(s, unit@));
                }
                (address, req_end, ObjSplit { end: req_end, ..split })
            },
        };
        proof {
            assert(start == merged_start(s, address, split));
            assert(end == merged_end(s, sec_end, split));
            assert(merged == merged_split(s, sec_end, split));
            assert(!already_covered(s, sec_end, address, split));
        }
        let entries = section.splits.iter();
        match find_obstacle(&entries, start, end, &unit, inferred) {
            Some(i) => {
                if inferred {
                    return Ok(());
                }
                let e = &entries[i];
                proof {
                    assert(blocks(s, sec_end, address, split, i as int));
                }
                return Err(
                    SplitError::OverlappingSplit {
                        unit,
                        start,
                        end,
                        existing_unit: e.1.unit.clone(),
                        existing_start: e.0,
                        existing_end: e.1.end,
                    },
                );
            },
            None => {},
        }
        let names = displaced_names(&entries, start, end, &unit);
        let ghost set = names_set(names@);
        let kept = keep_renamed(&entries, start, end, &unit, &names, Ghost(set));
        proof {
            assert(entries@ == s);
            assert(unit == split.unit);
            assert(kept@ == kept_entries(s, sec_end, address, split));
        }
        let mut target = ObjSplits::from_sorted(kept);
        target.push(start, merged);
        let ghost tv = target@;
        let ghost pre = *self;
        let n = self.sections.count();
        let mut j: usize = 0;
        while j < n
            invariant
                n == self.sections@.len(),
                n == pre.sections@.len(),
                section_index < n,
                set == displaced_units(s, sec_end, address, split),
                set == names_set(names@),
                s == pre.sections@[section_index as int].splits@,
                same_but_splits_everywhere(pre, *self),
                self.sections@[section_index as int] == pre.sections@[section_index as int],
                forall|k: int| 0 <= k < n ==> #[trigger] self.sections@[k].splits.wf(),
                forall|k: int| 0 <= k < j && k != section_index ==> #[trigger] self.sections@[k].splits@
                    == renamed_all(pre.sections@[k].splits@, set, unit),
                forall|k: int|
                    0 <= k < n && splits_disjoint(pre.sections@[k].splits@) ==> splits_disjoint(
                        #[trigger] self.sections@[k].splits@,
                    ),
                forall|k: int| j <= k < n ==> #[trigger] self.sections@[k] == pre.sections@[k],
            decreases n - j,
        {
            if j != section_index {
                let current = self.sections.at(j).splits.iter();
                let renamed = rename_all(&current, &names, &unit, Ghost(set));
                proof {
                    assert(self.sections@[j as int].splits.wf());
                    assert(splits_sorted(current@));
                    assert forall|a: int, b: int| 0 <= a <= b < renamed@.len() implies renamed@[a].0 <= renamed@[b].0 by {
                        assert(renamed@[a].0 == current@[a].0);
                        assert(renamed@[b].0 == current@[b].0);
                    }
                }
                proof {
                    if splits_disjoint(pre.sections@[j as int].splits@) {
                        lemma_renamed_disjoint(pre.sections@[j as int].splits@, set, unit);
                    }
                }
                self.sections.set_splits(j, ObjSplits::from_sorted(renamed));
            }
            j = j + 1;
        }
        self.sections.set_splits(section_index, target);
        proof {
            let p = choose|p: int| 0 <= p <= kept@.len() && tv == kept@.insert(p, (start, merged));
            if splits_disjoint(s) {
                lemma_insert_disjoint(kept@, p, (start, merged));
            }
            assert(self.sections@[section_index as int].splits@ == kept_entries(s, sec_end, address, split).insert(
                p,
                (merged_start(s, address, split), merged_split(s, sec_end, split)),
            ));
        }
        Ok(())
    }
}

/// After a call of `add_split` that succeeds, the unit's split in the section
/// covers both the range it had and the range that was asked for. The one
/// exception is an inferred split dropped in favour of a confirmed one.
pub proof fn lemma_split_growth(
    pre: ObjInfo,
    post: ObjInfo,
    idx: int,
    address: u32,
    split: ObjSplit,
    r: Result<(), SplitError>,
)
    requires
        0 <= idx < pre.sections@.len(),
        split_outcome(pre, post, idx, address, split, r),
        r is Ok,
        !(split.autogenerated && absorbs_confirmed(
            pre.sections@[idx].splits@,
            section_end(pre.sections@[idx]),
            address,
            split,
        )),
    ensures
        ({
            let s = pre.sections@[idx].splits@;
            let t = post.sections@[idx].splits@;
            let se = section_end(pre.sections@[idx]);
            exists|k: int|
                0 <= k < t.len() && #[trigger] t[k].1.unit@ == split.unit@ && t[k].0 <= address
                    && t[k].1.end >= requested_end(split, se) && (has_unit(s, split.unit@) ==> t[k].0
                    <= unit_entry(s, split.unit@).0 && t[k].1.end >= unit_entry(s, split.unit@).1.end)
        }),
{
    let s = pre.sections@[idx].splits@;
    let se = section_end(pre.sections@[idx]);
    if split_ignored(s, se, address, split) {
        assert(already_covered(s, se, address, split));
        let u = choose|u: int| 0 <= u < s.len() && #[trigger] s[u].1.unit@ == split.unit@;
        assert(post == pre);
        assert(post.sections@[idx].splits@[u] == unit_entry(s, split.unit@));
        assert(post.sections@[idx].splits@[u].1.unit@ == split.unit@);
    } else {
        let kept = kept_entries(s, se, address, split);
        let p = choose|p: int|
            0 <= p <= kept.len() && post.sections@[idx].splits@ == kept.insert(
                p,
                (merged_start(s, address, split), merged_split(s, se, split)),
            );
        assert(post.sections@[idx].splits@[p] == (
            merged_start(s, address, split),
            merged_split(s, se, split),
        ));
        assert(merged_split(s, se, split).unit == split.unit);
        assert(post.sections@[idx].splits@[p].1.unit@ == split.unit@);
    }
}

proof fn lemma_insert_disjoint(t: Seq<(u32, ObjSplit)>, p: int, x: (u32, ObjSplit))
    requires
        splits_disjoint(t),
        0 <= p <= t.len(),
        forall|k: int| 0 <= k < t.len() ==> !#[trigger] overlaps(t[k], x.0, x.1.end),
    ensures
        splits_disjoint(t.insert(p, x)),
{
    let u = t.insert(p, x);
    assert forall|a: int, b: int|
        0 <= a < u.len() && 0 <= b < u.len() && a != b implies !overlaps(u[a], u[b].0, u[b].1.end) by {
        let ia = if a < p { a } else { a - 1 };
        let ib = if b < p { b } else { b - 1 };
        if a == p {
            assert(!overlaps(t[ib], x.0, x.1.end));
        } else if b == p {
            assert(!overlaps(t[ia], x.0, x.1.end));
        } else {
            assert(u[a] == t[ia] && u[b] == t[ib]);
        }
    }
}

proof fn lemma_renamed_disjoint(s: Seq<(u32, ObjSplit)>, names: Set<Seq<char>>, unit: String)
    requires
        splits_disjoint(s),
    ensures
        splits_disjoint(renamed_all(s, names, unit)),
{
    let t = renamed_all(s, names, unit);
    assert forall|a: int, b: int|
        0 <= a < t.len() && 0 <= b < t.len() && a != b implies !overlaps(t[a], t[b].0, t[b].1.end) by {
        assert(!overlaps(s[a], s[b].0, s[b].1.end));
    }
}

/// The first position from which an entry gives way to `[start, end)` while
/// confirmed, and (unless `inferred`) belongs to another unit.
fn find_obstacle(
    entries: &Vec<(u32, ObjSplit)>,
    start: u32,
    end: u32,
    unit: &String,
    inferred: bool,
) -> (r: Option<usize>)
    ensures
        match r {
            Some(i) => {
                &&& i < entries@.len()
                &&& absorbed(entries@[i as int], start, end, unit@)
                &&& !entries@[i as int].1.autogenerated
                &&& (inferred || entries@[i as int].1.unit@ != unit@)
            },
            None => forall|i: int|
                0 <= i < entries@.len() && #[trigger] absorbed(entries@[i], start, end, unit@)
                    ==> entries@[i].1.autogenerated || (!inferred && entries@[i].1.unit@
                    == unit@),
        },
{
    let mut i: usize = 0;
    while i < entries.len()
        invariant
            i <= entries@.len(),
            forall|k: int|
                0 <= k < i && #[trigger] absorbed(entries@[k], start, end, unit@)
                    ==> entries@[k].1.autogenerated || (!inferred && entries@[k].1.unit@
                    == unit@),
        decreases entries@.len() - i,
    {
        let e = &entries[i];
        let takes = (e.0 < end && start < e.1.end) || e.1.unit == *unit;
        if takes && !e.1.autogenerated && (inferred || e.1.unit != *unit) {
            return Some(i);
        }
        i = i + 1;
    }
    None
}

/// Entry `i` of `s` belongs to `unit`.
pub open spec fn has_unit_at(s: Seq<(u32, ObjSplit)>, unit: Seq<char>, i: int) -> bool {
    0 <= i < s.len() && s[i].1.unit@ == unit
}

/// The units named in `names`.
pub open spec fn names_set(names: Seq<String>) -> Set<Seq<char>> {
    Set::new(|n: Seq<char>| exists|k: int| 0 <= k < names.len() && #[trigger] names[k]@ == n)
}

/// Whether `name` is among `names`.
fn names_contain(names: &Vec<String>, name: &String) -> (r: bool)
    ensures
        r == names_set(names@).contains(name@),
{
    let mut k: usize = 0;
    while k < names.len()
        invariant
            k <= names@.len(),
            forall|m: int| 0 <= m < k ==> #[trigger] names@[m]@ != name@,
        decreases names@.len() - k,
    {
        if names[k] == *name {
            assert(names@[k as int]@ == name@);
            return true;
        }
        k = k + 1;
    }
    false
}

/// The units, other than `unit`, of the entries that give way to `[start, end)`.
fn displaced_names(entries: &Vec<(u32, ObjSplit)>, start: u32, end: u32, unit: &String) -> (r:
    Vec<String>)
    ensures
        names_set(r@) == displaced_between(entries@, start, end, unit@),
{
    let mut out: Vec<String> = Vec::new();
    let mut i: usize = 0;
    while i < entries.len()
        invariant
            i <= entries@.len(),
            names_set(out@) == displaced_between(entries@.subrange(0, i as int), start, end, unit@),
        decreases entries@.len() - i,
    {
        let e = &entries[i];
        let takes = (e.0 < end && start < e.1.end) || e.1.unit == *unit;
        let ghost before = out@;
        if takes && e.1.unit != *unit {
            out.push(e.1.unit.clone());
        }
        proof {
            let pre = entries@.subrange(0, i as int);
            let post = entries@.subrange(0, i + 1);
            assert forall|n: Seq<char>|
                names_set(out@).contains(n) == displaced_between(post, start, end, unit@).contains(n) by {
                if displaced_between(post, start, end, unit@).contains(n) {
                    let j = choose|j: int|
                        0 <= j < post.len() && #[trigger] absorbed(post[j], start, end, unit@)
                            && post[j].1.unit@ == n;
                    if j == i {
                        assert(out@[out@.len() - 1]@ == n);
                    } else {
                        assert(pre[j] == post[j]);
                        assert(displaced_between(pre, start, end, unit@).contains(n));
                        assert(names_set(before).contains(n));
                        let k = choose|k: int| 0 <= k < before.len() && #[trigger] before[k]@ == n;
                        assert(out@[k]@ == n);
                    }
                }
                if names_set(out@).contains(n) {
                    let k = choose|k: int| 0 <= k < out@.len() && #[trigger] out@[k]@ == n;
                    if k < before.len() {
                        assert(before[k]@ == n);
                        assert(names_set(before).contains(n));
                        let j = choose|j: int|
                            0 <= j < pre.len() && #[trigger] absorbed(pre[j], start, end, unit@)
                                && pre[j].1.unit@ == n;
                        assert(post[j] == pre[j]);
                    } else {
                        assert(post[i as int] == entries@[i as int]);
                        assert(absorbed(post[i as int], start, end, unit@));
                    }
                }
            }
            assert(names_set(out@) =~= displaced_between(post, start, end, unit@));
        }
        i = i + 1;
    }
    assert(entries@.subrange(0, entries@.len() as int) =~= entries@);
    out
}

/// An entry with its unit renamed to `unit` when that unit is in `names`.
fn rename_entry(
    e: &(u32, ObjSplit),
    names: &Vec<String>,
    unit: &String,
    Ghost(set): Ghost<Set<Seq<char>>>,
) -> (r: (u32, ObjSplit))
    requires
        set == names_set(names@),
    ensures
        r == renamed(*e, set, *unit),
{
    if names_contain(names, &e.1.unit) {
        (e.0, ObjSplit { unit: unit.clone(), ..e.1.duplicate() })
    } else {
        (e.0, e.1.duplicate())
    }
}

/// Every entry renamed as `rename_entry` does.
fn rename_all(
    entries: &Vec<(u32, ObjSplit)>,
    names: &Vec<String>,
    unit: &String,
    Ghost(set): Ghost<Set<Seq<char>>>,
) -> (r: Vec<(u32, ObjSplit)>)
    requires
        set == names_set(names@),
    ensures
        r@ == renamed_all(entries@, set, *unit),
{
    let mut out: Vec<(u32, ObjSplit)> = Vec::new();
    let mut i: usize = 0;
    while i < entries.len()
        invariant
            i <= entries@.len(),
            set == names_set(names@),
            out@ == renamed_all(entries@.subrange(0, i as int), set, *unit),
        decreases entries@.len() - i,
    {
        let e = rename_entry(&entries[i], names, unit, Ghost(set));
        out.push(e);
        i = i + 1;
        assert(out@ =~= renamed_all(entries@.subrange(0, i as int), set, *unit));
    }
    assert(entries@.subrange(0, entries@.len() as int) =~= entries@);
    out
}

/// The entries that do not give way to `[start, end)`, renamed.
fn keep_renamed(
    entries: &Vec<(u32, ObjSplit)>,
    start: u32,
    end: u32,
    unit: &String,
    names: &Vec<String>,
    Ghost(set): Ghost<Set<Seq<char>>>,
) -> (r: Vec<(u32, ObjSplit)>)
    requires
        splits_sorted(entries@),
        set == names_set(names@),
    ensures
        r@ == renamed_all(kept_between(entries@, start, end, unit@), set, *unit),
        splits_sorted(r@),
        forall|k: int| 0 <= k < r@.len() ==> !#[trigger] overlaps(r@[k], start, end),
        splits_disjoint(entries@) ==> splits_disjoint(r@),
{
    let ghost f = |e: (u32, ObjSplit)| !absorbed(e, start, end, unit@);
    let ghost mut origin: Seq<int> = Seq::empty();
    let mut out: Vec<(u32, ObjSplit)> = Vec::new();
    let mut i: usize = 0;
    while i < entries.len()
        invariant
            i <= entries@.len(),
            splits_sorted(entries@),
            f == (|e: (u32, ObjSplit)| !absorbed(e, start, end, unit@)),
            set == names_set(names@),
            out@ == renamed_all(entries@.subrange(0, i as int).filter(f), set, *unit),
            splits_sorted(out@),
            forall|k: int, m: int| 0 <= k < out@.len() && i <= m < entries@.len() ==> out@[k].0 <= entries@[m].0,
            forall|k: int| 0 <= k < out@.len() ==> !#[trigger] overlaps(out@[k], start, end),
            origin.len() == out@.len(),
            forall|k: int| 0 <= k < out@.len() ==> 0 <= #[trigger] origin[k] < i,
            forall|a: int, b: int| 0 <= a < b < out@.len() ==> origin[a] < origin[b],
            forall|k: int|
                0 <= k < out@.len() ==> #[trigger] out@[k].0 == entries@[origin[k]].0
                    && out@[k].1.end == entries@[origin[k]].1.end,
        decreases entries@.len() - i,
    {
        let e = &entries[i];
        proof {
            assert(entries@.subrange(0, i + 1) =~= entries@.subrange(0, i as int).push(entries@[i as int]));
            entries@.subrange(0, i as int).lemma_filter_push(entries@[i as int], f);
        }
        let takes = (e.0 < end && start < e.1.end) || e.1.unit == *unit;
        if !takes {
            let x = rename_entry(e, names, unit, Ghost(set));
            out.push(x);
            proof {
                origin = origin.push(i as int);
                assert(out@ =~= renamed_all(entries@.subrange(0, i + 1).filter(f), set, *unit));
            }
        } else {
            proof {
                assert(out@ =~= renamed_all(entries@.subrange(0, i + 1).filter(f), set, *unit));
            }
        }
        i = i + 1;
    }
    assert(entries@.subrange(0, entries@.len() as int) =~= entries@);
    proof {
        if splits_disjoint(entries@) {
            assert forall|a: int, b: int|
                0 <= a < out@.len() && 0 <= b < out@.len() && a != b implies !overlaps(
                out@[a],
                out@[b].0,
                out@[b].1.end,
            ) by {
                assert(out@[a].0 == entries@[origin[a]].0);
                assert(out@[b].0 == entries@[origin[b]].0);
                if a < b {
                    assert(origin[a] < origin[b]);
                } else {
                    assert(origin[b] < origin[a]);
                }
                assert(!overlaps(entries@[origin[a]], entries@[origin[b]].0, entries@[origin[b]].1.end));
            }
        }
    }
    out
}

} // verus!
