//! The object model of a PowerPC decompilation toolkit: sections, symbols
//! and relocations of one executable or module, and the splits that assign
//! its address ranges back to translation units.

pub mod addresses;
pub mod file;
pub mod merge;
pub mod obj;
pub mod relocations;
pub mod sections;
pub mod splits;
pub mod symbols;

pub use addresses::{AddressRanges, SectionAddress};
pub use obj::{ObjArchitecture, ObjInfo, ObjKind, ObjUnit, RelReloc, SplitError};
pub use relocations::{
    ExistingRelocationError, ObjReloc, ObjRelocKind, ObjRelocations, SymbolIndex, UnknownRelocKind,
};
pub use sections::{ObjSection, ObjSectionKind, ObjSections};
pub use splits::{ObjSplit, ObjSplits};
pub use symbols::{
    ObjSymbol, ObjSymbolFlagSet, ObjSymbolFlags, ObjSymbolKind, ObjSymbolScope, ObjSymbols,
};
