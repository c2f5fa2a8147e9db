use vstd::prelude::*;

use crate::relocations::SymbolIndex;

verus! {

#[derive(Debug, Copy, Clone, PartialEq, Eq, Hash, Structural)]
pub enum ObjSymbolKind {
    Unknown,
    Function,
    Object,
    Section,
}

#[derive(Debug, Copy, Clone, PartialEq, Eq, Hash, Structural)]
pub enum ObjSymbolScope {
    Unknown,
    Global,
    Weak,
    Local,
}

/// A single symbol attribute.
#[derive(Debug, Copy, Clone, PartialEq, Eq, Hash, Structural)]
pub enum ObjSymbolFlags {
    Global,
    Local,
    Weak,
    Common,
    Hidden,
}

/// The bit that stands for a flag in a flag set.
pub open spec fn flag_bit(f: ObjSymbolFlags) -> u32 {
    match f {
        ObjSymbolFlags::Global => 1,
        ObjSymbolFlags::Local => 2,
        ObjSymbolFlags::Weak => 4,
        ObjSymbolFlags::Common => 8,
        ObjSymbolFlags::Hidden => 16,
    }
}

/// A set of symbol attributes, one bit each.
#[derive(Debug, Copy, Clone, PartialEq, Eq, Hash, Structural)]
pub struct ObjSymbolFlagSet(pub u32);

impl ObjSymbolFlags {
    pub fn bit(&self) -> (r: u32)
        ensures
            r == flag_bit(*self),
    {
        match self {
            ObjSymbolFlags::Global => 1,
            ObjSymbolFlags::Local => 2,
            ObjSymbolFlags::Weak => 4,
            ObjSymbolFlags::Common => 8,
            ObjSymbolFlags::Hidden => 16,
        }
    }
}

impl ObjSymbolFlagSet {
    /// The empty set.
    pub fn empty() -> (r: Self)
        ensures
            r.0 == 0,
    {
        ObjSymbolFlagSet(0)
    }

    /// The set with `flag` added.
    pub fn with(&self, flag: ObjSymbolFlags) -> (r: Self)
        ensures
            r.0 == self.0 | flag_bit(flag),
    {
        ObjSymbolFlagSet(self.0 | flag.bit())
    }

    /// Whether `flag` is in the set.
    pub fn contains(&self, flag: ObjSymbolFlags) -> (r: bool)
        ensures
            r == (self.0 & flag_bit(flag) != 0),
    {
        self.0 & flag.bit() != 0
    }

    /// Whether the symbol is a common (linker-merged uninitialized) block.
    pub fn is_common(&self) -> (r: bool)
        ensures
            r == (self.0 & flag_bit(ObjSymbolFlags::Common) != 0),
    {
        self.contains(ObjSymbolFlags::Common)
    }
}

#[derive(Debug)]
pub struct ObjSymbol {
    pub name: String,
    pub address: u64,
    /// The index of the section that holds the symbol, if any.
    pub section: Option<usize>,
    pub size: u64,
    pub kind: ObjSymbolKind,
    pub scope: ObjSymbolScope,
    pub flags: ObjSymbolFlagSet,
}

/// Whether `incoming` stands for the same symbol as `present`, so that it may
/// replace it.
pub open spec fn same_symbol(present: ObjSymbol, incoming: ObjSymbol) -> bool {
    &&& present.name@ == incoming.name@
    &&& present.address == incoming.address
    &&& present.section == incoming.section
}

/// The symbol table of an object, indexed by `SymbolIndex`.
#[derive(Debug)]
pub struct ObjSymbols {
    symbols: Vec<ObjSymbol>,
}

impl ObjSymbols {
    pub closed spec fn view(&self) -> Seq<ObjSymbol> {
        self.symbols@
    }

    pub fn new(symbols: Vec<ObjSymbol>) -> (r: Self)
        ensures
            r@ == symbols@,
    {
        ObjSymbols { symbols }
    }

    /// The number of symbols.
    pub fn count(&self) -> (r: usize)
        ensures
            r == self@.len(),
    {
        self.symbols.len()
    }

    /// The symbol at `index`.
    pub fn at(&self, index: SymbolIndex) -> (r: &ObjSymbol)
        requires
            index < self@.len(),
        ensures
            *r == self@[index as int],
    {
        &self.symbols[index]
    }

    /// Adds a symbol. With `replace`, the first symbol with the same name,
    /// address and section is overwritten in place; otherwise, or when there
    /// is none, the symbol is appended. Returns its index.
    pub fn add(&mut self, symbol: ObjSymbol, replace: bool) -> (r: SymbolIndex)
        requires
            old(self)@.len() < usize::MAX,
        ensures
            replace && (exists|i: int|
                0 <= i < old(self)@.len() && same_symbol(old(self)@[i], symbol)) ==> {
                &&& r < old(self)@.len()
                &&& same_symbol(old(self)@[r as int], symbol)
                &&& forall|k: int| 0 <= k < r ==> !same_symbol(old(self)@[k], symbol)
                &&& final(self)@ == old(self)@.update(r as int, symbol)
            },
            !(replace && (exists|i: int|
                0 <= i < old(self)@.len() && same_symbol(old(self)@[i], symbol))) ==> {
                &&& r == old(self)@.len()
                &&& final(self)@ == old(self)@.push(symbol)
            },
    {
        let found = if replace {
            self.find_same(&symbol)
        } else {
            None
        };
        match found {
            Some(i) => {
                self.symbols.set(i, symbol);
                i
            },
            None => {
                let index = self.symbols.len();
                self.symbols.push(symbol);
                index
            },
        }
    }

    /// The first position whose symbol `symbol` may replace.
    fn find_same(&self, symbol: &ObjSymbol) -> (r: Option<usize>)
        ensures
            r matches Some(i) ==> i < self@.len() && same_symbol(self@[i as int], *symbol)
                && forall|k: int| 0 <= k < i ==> !same_symbol(self@[k], *symbol),
            r is None ==> forall|k: int| 0 <= k < self@.len() ==> !same_symbol(self@[k], *symbol),
    {
        let mut i: usize = 0;
        while i < self.symbols.len()
            invariant
                i <= self@.len(),
                forall|k: int| 0 <= k < i ==> !same_symbol(self@[k], *symbol),
            decreases self@.len() - i,
        {
            let e = &self.symbols[i];
            let same_section = match (e.section, symbol.section) {
                (Some(a), Some(b)) => a == b,
                (None, None) => true,
                _ => false,
            };
            if e.name == symbol.name && e.address == symbol.address && same_section {
                return Some(i);
            }
            i = i + 1;
        }
        None
    }
}

} // verus!
