use vstd::prelude::*;

verus! {

/// The index of a symbol in an object's symbol table.
pub type SymbolIndex = usize;

/// Rounds an address down to the start of the 4-byte word that holds it.
pub open spec fn word_of(address: u32) -> u32 {
    address & !3u32
}

/// The PowerPC patch encodings a relocation can use.
#[derive(Debug, Copy, Clone, PartialEq, Eq, Hash, Structural)]
pub enum ObjRelocKind {
    /// The full 32-bit value stored in a data word.
    Absolute,
    /// The high 16 bits of the value.
    PpcAddr16Hi,
    /// The high 16 bits, adjusted for the sign of the paired low half.
    PpcAddr16Ha,
    /// The low 16 bits of the value.
    PpcAddr16Lo,
    /// A 24-bit word-aligned signed branch displacement.
    PpcRel24,
    /// A 14-bit word-aligned signed conditional-branch displacement.
    PpcRel14,
    /// A 21-bit displacement from a small-data-area base.
    PpcEmbSda21,
}

/// The short code a relocation kind is written as.
pub open spec fn kind_code(k: ObjRelocKind) -> Seq<char> {
    match k {
        ObjRelocKind::Absolute => "abs"@,
        ObjRelocKind::PpcAddr16Hi => "hi"@,
        ObjRelocKind::PpcAddr16Ha => "ha"@,
        ObjRelocKind::PpcAddr16Lo => "l"@,
        ObjRelocKind::PpcRel24 => "rel24"@,
        ObjRelocKind::PpcRel14 => "rel14"@,
        ObjRelocKind::PpcEmbSda21 => "sda21"@,
    }
}

/// The older, verbose name of a relocation kind, still accepted when reading.
pub open spec fn kind_name(k: ObjRelocKind) -> Seq<char> {
    match k {
        ObjRelocKind::Absolute => "Absolute"@,
        ObjRelocKind::PpcAddr16Hi => "PpcAddr16Hi"@,
        ObjRelocKind::PpcAddr16Ha => "PpcAddr16Ha"@,
        ObjRelocKind::PpcAddr16Lo => "PpcAddr16Lo"@,
        ObjRelocKind::PpcRel24 => "PpcRel24"@,
        ObjRelocKind::PpcRel14 => "PpcRel14"@,
        ObjRelocKind::PpcEmbSda21 => "PpcEmbSda21"@,
    }
}

/// The kind a text names, by short code or by verbose name.
pub open spec fn kind_from_text(t: Seq<char>) -> Option<ObjRelocKind> {
    if t == "Absolute"@ || t == "abs"@ {
        Some(ObjRelocKind::Absolute)
    } else if t == "PpcAddr16Hi"@ || t == "hi"@ {
        Some(ObjRelocKind::PpcAddr16Hi)
    } else if t == "PpcAddr16Ha"@ || t == "ha"@ {
        Some(ObjRelocKind::PpcAddr16Ha)
    } else if t == "PpcAddr16Lo"@ || t == "l"@ {
        Some(ObjRelocKind::PpcAddr16Lo)
    } else if t == "PpcRel24"@ || t == "rel24"@ {
        Some(ObjRelocKind::PpcRel24)
    } else if t == "PpcRel14"@ || t == "rel14"@ {
        Some(ObjRelocKind::PpcRel14)
    } else if t == "PpcEmbSda21"@ || t == "sda21"@ {
        Some(ObjRelocKind::PpcEmbSda21)
    } else {
        None
    }
}

/// The short codes, in the order the kinds are declared.
pub open spec fn valid_codes() -> Seq<Seq<char>> {
    seq!["abs"@, "hi"@, "ha"@, "l"@, "rel24"@, "rel14"@, "sda21"@]
}

/// Returned when a text names no relocation kind.
#[derive(Debug)]
pub struct UnknownRelocKind {
    pub found: String,
    /// The short codes that would have been accepted.
    pub expected: Vec<&'static str>,
}

impl ObjRelocKind {
    /// The short code of this kind.
    pub fn code(&self) -> (r: &'static str)
        ensures
            r@ == kind_code(*self),
    {
        match self {
            ObjRelocKind::Absolute => "abs",
            ObjRelocKind::PpcAddr16Hi => "hi",
            ObjRelocKind::PpcAddr16Ha => "ha",
            ObjRelocKind::PpcAddr16Lo => "l",
            ObjRelocKind::PpcRel24 => "rel24",
            ObjRelocKind::PpcRel14 => "rel14",
            ObjRelocKind::PpcEmbSda21 => "sda21",
        }
    }

    /// The kind that `text` names, by short code or verbose name.
    pub fn parse(text: &str) -> (r: Result<ObjRelocKind, UnknownRelocKind>)
        ensures
            match r {
                Ok(k) => kind_from_text(text@) == Some(k),
                Err(e) => {
                    &&& kind_from_text(text@) is None
                    &&& e.found@ == text@
                    &&& e.expected@.len() == valid_codes().len()
                    &&& forall|i: int| 0 <= i < e.expected@.len() ==> #[trigger] e.expected@[i]@ == valid_codes()[i]
                },
            },
    {
        let t = text.to_owned();
        if t == "Absolute".to_owned() || t == "abs".to_owned() {
            Ok(ObjRelocKind::Absolute)
        } else if t == "PpcAddr16Hi".to_owned() || t == "hi".to_owned() {
            Ok(ObjRelocKind::PpcAddr16Hi)
        } else if t == "PpcAddr16Ha".to_owned() || t == "ha".to_owned() {
            Ok(ObjRelocKind::PpcAddr16Ha)
        } else if t == "PpcAddr16Lo".to_owned() || t == "l".to_owned() {
            Ok(ObjRelocKind::PpcAddr16Lo)
        } else if t == "PpcRel24".to_owned() || t == "rel24".to_owned() {
            Ok(ObjRelocKind::PpcRel24)
        } else if t == "PpcRel14".to_owned() || t == "rel14".to_owned() {
            Ok(ObjRelocKind::PpcRel14)
        } else if t == "PpcEmbSda21".to_owned() || t == "sda21".to_owned() {
            Ok(ObjRelocKind::PpcEmbSda21)
        } else {
            let mut expected: Vec<&'static str> = Vec::new();
            expected.push("abs");
            expected.push("hi");
            expected.push("ha");
            expected.push("l");
            expected.push("rel24");
            expected.push("rel14");
            expected.push("sda21");
            Err(UnknownRelocKind { found: t, expected })
        }
    }
}

/// Writing a kind as its short code and reading it back gives the kind
/// again, and so does reading its verbose name.
pub proof fn lemma_kind_round_trip(k: ObjRelocKind)
    ensures
        kind_from_text(kind_code(k)) == Some(k),
        kind_from_text(kind_name(k)) == Some(k),
{
    match k {
        ObjRelocKind::Absolute => {
            reveal_strlit("abs");
            reveal_strlit("Absolute");
        },
        ObjRelocKind::PpcAddr16Hi => {
            reveal_strlit("hi");
            reveal_strlit("PpcAddr16Hi");
            reveal_strlit("Absolute");
            reveal_strlit("abs");
            assert("hi"@.len() != "Absolute"@.len());
            assert("hi"@.len() != "abs"@.len());
            assert("PpcAddr16Hi"@.len() != "Absolute"@.len());
            assert("PpcAddr16Hi"@.len() != "abs"@.len());
        },
        ObjRelocKind::PpcAddr16Ha => {
            reveal_strlit("ha");
            reveal_strlit("PpcAddr16Ha");
            reveal_strlit("Absolute");
            reveal_strlit("abs");
            reveal_strlit("PpcAddr16Hi");
            reveal_strlit("hi");
            assert("ha"@.len() != "Absolute"@.len());
            assert("ha"@.len() != "abs"@.len());
            assert("ha"@.len() != "PpcAddr16Hi"@.len());
            assert("ha"@[1] != "hi"@[1]);
            assert("PpcAddr16Ha"@.len() != "Absolute"@.len());
            assert("PpcAddr16Ha"@.len() != "abs"@.len());
            assert("PpcAddr16Ha"@[10] != "PpcAddr16Hi"@[10]);
            assert("PpcAddr16Ha"@.len() != "hi"@.len());
        },
        ObjRelocKind::PpcAddr16Lo => {
            reveal_strlit("l");
            reveal_strlit("PpcAddr16Lo");
            reveal_strlit("Absolute");
            reveal_strlit("abs");
            reveal_strlit("PpcAddr16Hi");
            reveal_strlit("hi");
            reveal_strlit("PpcAddr16Ha");
            reveal_strlit("ha");
            assert("l"@.len() != "Absolute"@.len());
            assert("l"@.len() != "abs"@.len());
            assert("l"@.len() != "PpcAddr16Hi"@.len());
            assert("l"@.len() != "hi"@.len());
            assert("l"@.len() != "PpcAddr16Ha"@.len());
            assert("l"@.len() != "ha"@.len());
            assert("PpcAddr16Lo"@.len() != "Absolute"@.len());
            assert("PpcAddr16Lo"@.len() != "abs"@.len());
            assert("PpcAddr16Lo"@[9] != "PpcAddr16Hi"@[9]);
            assert("PpcAddr16Lo"@.len() != "hi"@.len());
            assert("PpcAddr16Lo"@[9] != "PpcAddr16Ha"@[9]);
            assert("PpcAddr16Lo"@.len() != "ha"@.len());
        },
        ObjRelocKind::PpcRel24 => {
            reveal_strlit("rel24");
            reveal_strlit("PpcRel24");
            reveal_strlit("Absolute");
            reveal_strlit("abs");
            reveal_strlit("PpcAddr16Hi");
            reveal_strlit("hi");
            reveal_strlit("PpcAddr16Ha");
            reveal_strlit("ha");
            reveal_strlit("PpcAddr16Lo");
            reveal_strlit("l");
            assert("rel24"@.len() != "Absolute"@.len());
            assert("rel24"@.len() != "abs"@.len());
            assert("rel24"@.len() != "PpcAddr16Hi"@.len());
            assert("rel24"@.len() != "hi"@.len());
            assert("rel24"@.len() != "PpcAddr16Ha"@.len());
            assert("rel24"@.len() != "ha"@.len());
            assert("rel24"@.len() != "PpcAddr16Lo"@.len());
            assert("rel24"@.len() != "l"@.len());
            assert("PpcRel24"@[0] != "Absolute"@[0]);
            assert("PpcRel24"@.len() != "abs"@.len());
            assert("PpcRel24"@.len() != "PpcAddr16Hi"@.len());
            assert("PpcRel24"@.len() != "hi"@.len());
            assert("PpcRel24"@.len() != "PpcAddr16Ha"@.len());
            assert("PpcRel24"@.len() != "ha"@.len());
            assert("PpcRel24"@.len() != "PpcAddr16Lo"@.len());
            assert("PpcRel24"@.len() != "l"@.len());
        },
        ObjRelocKind::PpcRel14 => {
            reveal_strlit("rel14");
            reveal_strlit("PpcRel14");
            reveal_strlit("Absolute");
            reveal_strlit("abs");
            reveal_strlit("PpcAddr16Hi");
            reveal_strlit("hi");
            reveal_strlit("PpcAddr16Ha");
            reveal_strlit("ha");
            reveal_strlit("PpcAddr16Lo");
            reveal_strlit("l");
            reveal_strlit("PpcRel24");
            reveal_strlit("rel24");
            assert("rel14"@.len() != "Absolute"@.len());
            assert("rel14"@.len() != "abs"@.len());
            assert("rel14"@.len() != "PpcAddr16Hi"@.len());
            assert("rel14"@.len() != "hi"@.len());
            assert("rel14"@.len() != "PpcAddr16Ha"@.len());
            assert("rel14"@.len() != "ha"@.len());
            assert("rel14"@.len() != "PpcAddr16Lo"@.len());
            assert("rel14"@.len() != "l"@.len());
            assert("rel14"@.len() != "PpcRel24"@.len());
            assert("rel14"@[3] != "rel24"@[3]);
            assert("PpcRel14"@[0] != "Absolute"@[0]);
            assert("PpcRel14"@.len() != "abs"@.len());
            assert("PpcRel14"@.len() != "PpcAddr16Hi"@.len());
            assert("PpcRel14"@.len() != "hi"@.len());
            assert("PpcRel14"@.len() != "PpcAddr16Ha"@.len());
            assert("PpcRel14"@.len() != "ha"@.len());
            assert("PpcRel14"@.len() != "PpcAddr16Lo"@.len());
            assert("PpcRel14"@.len() != "l"@.len());
            assert("PpcRel14"@[6] != "PpcRel24"@[6]);
            assert("PpcRel14"@.len() != "rel24"@.len());
        },
        ObjRelocKind::PpcEmbSda21 => {
            reveal_strlit("sda21");
            reveal_strlit("PpcEmbSda21");
            reveal_strlit("Absolute");
            reveal_strlit("abs");
            reveal_strlit("PpcAddr16Hi");
            reveal_strlit("hi");
            reveal_strlit("PpcAddr16Ha");
            reveal_strlit("ha");
            reveal_strlit("PpcAddr16Lo");
            reveal_strlit("l");
            reveal_strlit("PpcRel24");
            reveal_strlit("rel24");
            reveal_strlit("PpcRel14");
            reveal_strlit("rel14");
            assert("sda21"@.len() != "Absolute"@.len());
            assert("sda21"@.len() != "abs"@.len());
            assert("sda21"@.len() != "PpcAddr16Hi"@.len());
            assert("sda21"@.len() != "hi"@.len());
            assert("sda21"@.len() != "PpcAddr16Ha"@.len());
            assert("sda21"@.len() != "ha"@.len());
            assert("sda21"@.len() != "PpcAddr16Lo"@.len());
            assert("sda21"@.len() != "l"@.len());
            assert("sda21"@.len() != "PpcRel24"@.len());
            assert("sda21"@[0] != "rel24"@[0]);
            assert("sda21"@.len() != "PpcRel14"@.len());
            assert("sda21"@[0] != "rel14"@[0]);
            assert("PpcEmbSda21"@.len() != "Absolute"@.len());
            assert("PpcEmbSda21"@.len() != "abs"@.len());
            assert("PpcEmbSda21"@[3] != "PpcAddr16Hi"@[3]);
            assert("PpcEmbSda21"@.len() != "hi"@.len());
            assert("PpcEmbSda21"@[3] != "PpcAddr16Ha"@[3]);
            assert("PpcEmbSda21"@.len() != "ha"@.len());
            assert("PpcEmbSda21"@[3] != "PpcAddr16Lo"@[3]);
            assert("PpcEmbSda21"@.len() != "l"@.len());
            assert("PpcEmbSda21"@.len() != "PpcRel24"@.len());
            assert("PpcEmbSda21"@.len() != "rel24"@.len());
            assert("PpcEmbSda21"@.len() != "PpcRel14"@.len());
            assert("PpcEmbSda21"@.len() != "rel14"@.len());
        },
    }
}

/// One patch record: how the word at some address refers to a symbol.
#[derive(Debug, Copy, Clone)]
pub struct ObjReloc {
    pub kind: ObjRelocKind,
    pub target_symbol: SymbolIndex,
    pub addend: i64,
    /// If present, the relocation refers to a symbol of another module.
    pub module: Option<u32>,
}

/// Returned when a relocation is already registered at an aligned address.
#[derive(Debug, Copy, Clone)]
pub struct ExistingRelocationError {
    pub address: u32,
    pub value: ObjReloc,
}

/// Entries ordered by strictly ascending address, every address word-aligned.
pub open spec fn reloc_entries_wf(s: Seq<(u32, ObjReloc)>) -> bool {
    &&& forall|i: int, j: int| 0 <= i < j < s.len() ==> s[i].0 < s[j].0
    &&& forall|i: int| 0 <= i < s.len() ==> word_of(#[trigger] s[i].0) == s[i].0
}

/// Whether some entry is registered exactly at `address`.
pub open spec fn reloc_has(s: Seq<(u32, ObjReloc)>, address: u32) -> bool {
    exists|i: int| 0 <= i < s.len() && #[trigger] s[i].0 == address
}

/// The relocation registered exactly at `address`, if any.
pub open spec fn reloc_lookup(s: Seq<(u32, ObjReloc)>, address: u32) -> Option<ObjReloc> {
    if reloc_has(s, address) {
        Some(s[choose|i: int| 0 <= i < s.len() && #[trigger] s[i].0 == address].1)
    } else {
        None
    }
}

/// In a well-formed table, looking up the address of an entry finds that entry.
pub proof fn lemma_reloc_lookup_index(s: Seq<(u32, ObjReloc)>, i: int)
    requires
        reloc_entries_wf(s),
        0 <= i < s.len(),
    ensures
        reloc_lookup(s, s[i].0) == Some(s[i].1),
{
    assert(reloc_has(s, s[i].0));
    let j = choose|j: int| 0 <= j < s.len() && #[trigger] s[j].0 == s[i].0;
    assert(i == j) by {
        if i < j {
        } else if j < i {
        }
    }
}

/// The relocations of one section, keyed by word-aligned address.
#[derive(Debug, Clone)]
pub struct ObjRelocations {
    relocations: Vec<(u32, ObjReloc)>,
}

impl ObjRelocations {
    /// The entries in ascending address order.
    pub closed spec fn view(&self) -> Seq<(u32, ObjReloc)> {
        self.relocations@
    }

    pub open spec fn wf(&self) -> bool {
        reloc_entries_wf(self@)
    }

    /// An empty table.
    pub fn empty() -> (r: Self)
        ensures
            r.wf(),
            r@.len() == 0,
    {
        ObjRelocations { relocations: Vec::new() }
    }

    /// Builds a table from `(address, relocation)` pairs, in order, failing at
    /// the first pair whose aligned address is already taken.
    pub fn new(relocations: Vec<(u32, ObjReloc)>) -> (r: Result<Self, ExistingRelocationError>)
        ensures
            match r {
                Ok(t) => {
                    &&& t.wf()
                    &&& t@.len() == relocations@.len()
                    &&& forall|i: int, j: int|
                        0 <= i < j < relocations@.len() ==> word_of(relocations@[i].0)
                            != word_of(relocations@[j].0)
                    &&& forall|a: u32|
                        #![auto]
                        reloc_has(t@, a) <==> exists|i: int|
                            0 <= i < relocations@.len() && word_of(relocations@[i].0) == a
                    &&& forall|i: int|
                        #![auto]
                        0 <= i < relocations@.len() ==> reloc_lookup(
                            t@,
                            word_of(relocations@[i].0),
                        ) == Some(relocations@[i].1)
                },
                Err(e) => exists|i: int, j: int|
                    #![auto]
                    0 <= i < j < relocations@.len() && word_of(relocations@[i].0) == word_of(
                        relocations@[j].0,
                    ) && e.address == word_of(relocations@[j].0) && e.value == relocations@[i].1
                        && forall|k: int, l: int|
                        0 <= k < l < j ==> word_of(relocations@[k].0) != word_of(
                            relocations@[l].0,
                        ),
            },
    {
        let mut table = ObjRelocations::empty();
        let mut n: usize = 0;
        while n < relocations.len()
            invariant
                n <= relocations@.len(),
                table.wf(),
                table@.len() == n,
                forall|k: int, l: int|
                    0 <= k < l < n ==> word_of(relocations@[k].0) != word_of(relocations@[l].0),
                forall|a: u32|
                    #![auto]
                    reloc_has(table@, a) <==> exists|i: int|
                        0 <= i < n && word_of(relocations@[i].0) == a,
                forall|i: int|
                    #![auto]
                    0 <= i < n ==> reloc_lookup(table@, word_of(relocations@[i].0)) == Some(
                        relocations@[i].1,
                    ),
            decreases relocations@.len() - n,
        {
            let (address, reloc) = relocations[n];
            let ghost before = table@;
            match table.insert(address, reloc) {
                Ok(()) => {
                    proof {
                        assert forall|k: int, l: int|
                            0 <= k < l < n + 1 implies word_of(relocations@[k].0) != word_of(
                                relocations@[l].0,
                            ) by {
                            if l == n {
                                if word_of(relocations@[k].0) == word_of(relocations@[l].0) {
                                    assert(reloc_has(before, word_of(relocations@[k].0)));
                                }
                            }
                        }
                        assert forall|a: u32|
                            #![auto]
                            reloc_has(table@, a) <==> exists|i: int|
                                0 <= i < n + 1 && word_of(relocations@[i].0) == a by {
                            if a == word_of(address) {
                                assert(word_of(relocations@[n as int].0) == a);
                                assert(reloc_has(table@, a));
                            } else {
                                assert(reloc_lookup(table@, a) == reloc_lookup(before, a));
                                if exists|i: int| 0 <= i < n + 1 && word_of(relocations@[i].0) == a {
                                    let i = choose|i: int| 0 <= i < n + 1 && word_of(relocations@[i].0) == a;
                                    assert(0 <= i < n && word_of(relocations@[i].0) == a);
                                }
                            }
                        }
                    }
                    n = n + 1;
                },
                Err(e) => {
                    proof {
                        let w = word_of(address);
                        assert(reloc_has(before, w));
                        let i = choose|i: int| 0 <= i < n && word_of(relocations@[i].0) == w;
                        assert(reloc_lookup(before, w) == Some(relocations@[i].1));
                        assert(0 <= i < n as int && word_of(relocations@[i].0) == word_of(
                            relocations@[n as int].0,
                        ) && e.address == word_of(relocations@[n as int].0) && e.value
                            == relocations@[i].1);
                    }
                    return Err(e);
                },
            }
        }
        Ok(table)
    }

    /// The number of relocations.
    pub fn len(&self) -> (r: usize)
        ensures
            r == self@.len(),
    {
        self.relocations.len()
    }

    /// Whether the table holds no relocation.
    pub fn is_empty(&self) -> (r: bool)
        ensures
            r == (self@.len() == 0),
    {
        self.relocations.len() == 0
    }

    /// The first position whose address is not below `address`.
    fn lower_bound(&self, address: u32) -> (r: usize)
        requires
            self.wf(),
        ensures
            r <= self@.len(),
            forall|i: int| 0 <= i < r ==> self@[i].0 < address,
            forall|i: int| r <= i < self@.len() ==> self@[i].0 >= address,
    {
        let mut i: usize = 0;
        while i < self.relocations.len() && self.relocations[i].0 < address
            invariant
                self.wf(),
                i <= self@.len(),
                forall|k: int| 0 <= k < i ==> self@[k].0 < address,
            decreases self@.len() - i,
        {
            i = i + 1;
        }
        proof {
            if i < self@.len() {
                assert forall|k: int| i <= k < self@.len() implies self@[k].0 >= address by {
                    if k > i {
                        assert(self@[i as int].0 < self@[k].0);
                    }
                }
            }
        }
        i
    }

    /// Registers `reloc` at the word that holds `address`, unless a relocation
    /// is already registered there; the table is then left unchanged.
    pub fn insert(&mut self, address: u32, reloc: ObjReloc) -> (r: Result<(), ExistingRelocationError>)
        requires
            old(self).wf(),
        ensures
            final(self).wf(),
            match r {
                Ok(()) => {
                    &&& !reloc_has(old(self)@, word_of(address))
                    &&& final(self)@.len() == old(self)@.len() + 1
                    &&& reloc_lookup(final(self)@, word_of(address)) == Some(reloc)
                    &&& forall|a: u32|
                        a != word_of(address) ==> #[trigger] reloc_lookup(final(self)@, a)
                            == reloc_lookup(old(self)@, a)
                },
                Err(e) => {
                    &&& reloc_has(old(self)@, word_of(address))
                    &&& e.address == word_of(address)
                    &&& Some(e.value) == reloc_lookup(old(self)@, word_of(address))
                    &&& final(self)@ == old(self)@
                },
            },
    {
        let w = address & !3u32;
        assert(w & !3u32 == w) by (bit_vector)
            requires
                w == address & !3u32,
        ;
        let i = self.lower_bound(w);
        if i < self.relocations.len() && self.relocations[i].0 == w {
            proof {
                lemma_reloc_lookup_index(self@, i as int);
            }
            return Err(ExistingRelocationError { address: w, value: self.relocations[i].1 });
        }
        self.put_at(i, w, reloc);
        Ok(())
    }

    /// Registers `reloc` at the word that holds `address`, overwriting any
    /// relocation registered there.
    pub fn replace(&mut self, address: u32, reloc: ObjReloc)
        requires
            old(self).wf(),
        ensures
            final(self).wf(),
            reloc_lookup(final(self)@, word_of(address)) == Some(reloc),
            forall|a: u32|
                a != word_of(address) ==> #[trigger] reloc_lookup(final(self)@, a)
                    == reloc_lookup(old(self)@, a),
            final(self)@.len() == old(self)@.len() + (if reloc_has(old(self)@, word_of(address)) {
                0int
            } else {
                1int
            }),
    {
        let w = address & !3u32;
        assert(w & !3u32 == w) by (bit_vector)
            requires
                w == address & !3u32,
        ;
        let i = self.lower_bound(w);
        if i < self.relocations.len() && self.relocations[i].0 == w {
            let ghost s = self@;
            self.relocations.set(i, (w, reloc));
            proof {
                let t = self@;
                assert(reloc_entries_wf(t));
                lemma_reloc_lookup_index(t, i as int);
                assert(reloc_has(s, w));
                assert forall|a: u32| a != w implies #[trigger] reloc_lookup(t, a) == reloc_lookup(s, a) by {
                    if reloc_has(s, a) {
                        let k = choose|k: int| 0 <= k < s.len() && #[trigger] s[k].0 == a;
                        lemma_reloc_lookup_index(s, k);
                        lemma_reloc_lookup_index(t, k);
                    } else if reloc_has(t, a) {
                        let k = choose|k: int| 0 <= k < t.len() && #[trigger] t[k].0 == a;
                        assert(s[k].0 == a);
                    }
                }
            }
        } else {
            self.put_at(i, w, reloc);
        }
    }

    /// The relocation registered exactly at `address`. Addresses are not
    /// rounded here: only a word-aligned address can find an entry.
    pub fn at(&self, address: u32) -> (r: Option<&ObjReloc>)
        requires
            self.wf(),
        ensures
            r matches Some(x) ==> reloc_lookup(self@, address) == Some(*x),
            r is None ==> reloc_lookup(self@, address) is None,
    {
        let i = self.lower_bound(address);
        if i < self.relocations.len() && self.relocations[i].0 == address {
            proof {
                lemma_reloc_lookup_index(self@, i as int);
            }
            Some(&self.relocations[i].1)
        } else {
            proof {
                if reloc_has(self@, address) {
                    let k = choose|k: int| 0 <= k < self@.len() && #[trigger] self@[k].0 == address;
                }
            }
            None
        }
    }

    /// The relocation registered exactly at `address`, for changing in place.
    pub fn at_mut(&mut self, address: u32) -> (r: Option<&mut ObjReloc>)
        requires
            old(self).wf(),
        ensures
            r matches Some(x) ==> {
                &&& reloc_lookup(old(self)@, address) == Some(*x)
                &&& exists|i: int|
                    0 <= i < old(self)@.len() && old(self)@[i].0 == address && final(self)@
                        == old(self)@.update(i, (address, *final(x)))
            },
            r is None ==> reloc_lookup(old(self)@, address) is None && final(self)@ == old(self)@,
    {
        let i = self.lower_bound(address);
        if i < self.relocations.len() && self.relocations[i].0 == address {
            proof {
                lemma_reloc_lookup_index(self@, i as int);
            }
            Some(&mut self.relocations[i].1)
        } else {
            proof {
                if reloc_has(self@, address) {
                    let k = choose|k: int| 0 <= k < self@.len() && #[trigger] self@[k].0 == address;
                }
            }
            None
        }
    }

    /// Whether a relocation is registered exactly at `address`.
    pub fn contains(&self, address: u32) -> (r: bool)
        requires
            self.wf(),
        ensures
            r == reloc_has(self@, address),
    {
        let i = self.lower_bound(address);
        proof {
            if reloc_has(self@, address) {
                let k = choose|k: int| 0 <= k < self@.len() && #[trigger] self@[k].0 == address;
            }
        }
        i < self.relocations.len() && self.relocations[i].0 == address
    }

    /// A detached copy of all entries, in ascending address order.
    pub fn clone_map(&self) -> (r: Vec<(u32, ObjReloc)>)
        ensures
            r@ == self@,
    {
        self.iter()
    }

    /// All entries in ascending address order.
    pub fn iter(&self) -> (r: Vec<(u32, ObjReloc)>)
        ensures
            r@ == self@,
    {
        let mut out: Vec<(u32, ObjReloc)> = Vec::new();
        let mut i: usize = 0;
        while i < self.relocations.len()
            invariant
                i <= self@.len(),
                out@ == self@.subrange(0, i as int),
            decreases self@.len() - i,
        {
            out.push(self.relocations[i]);
            i = i + 1;
            assert(out@ =~= self@.subrange(0, i as int));
        }
        assert(out@ =~= self@);
        out
    }

    /// The entries whose address lies in `[start, end)`, in ascending order.
    pub fn range(&self, start: u32, end: u32) -> (r: Vec<(u32, ObjReloc)>)
        requires
            self.wf(),
        ensures
            reloc_entries_wf(r@),
            forall|e: (u32, ObjReloc)|
                #![auto]
                r@.contains(e) <==> (self@.contains(e) && start <= e.0 && e.0 < end),
    {
        let lo = self.lower_bound(start);
        let mut out: Vec<(u32, ObjReloc)> = Vec::new();
        let mut i: usize = lo;
        while i < self.relocations.len() && self.relocations[i].0 < end
            invariant
                lo <= i <= self@.len(),
                forall|k: int| 0 <= k < lo ==> self@[k].0 < start,
                forall|k: int| lo <= k < self@.len() ==> self@[k].0 >= start,
                forall|k: int| lo <= k < i ==> self@[k].0 < end,
                self.wf(),
                out@ == self@.subrange(lo as int, i as int),
            decreases self@.len() - i,
        {
            out.push(self.relocations[i]);
            i = i + 1;
            assert(out@ =~= self@.subrange(lo as int, i as int));
        }
        proof {
            assert forall|e: (u32, ObjReloc)|
                #![auto]
                out@.contains(e) <==> (self@.contains(e) && start <= e.0 && e.0 < end) by {
                if out@.contains(e) {
                    let k = choose|k: int| 0 <= k < out@.len() && out@[k] == e;
                    assert(self@[lo + k] == e);
                }
                if self@.contains(e) && start <= e.0 && e.0 < end {
                    let k = choose|k: int| 0 <= k < self@.len() && self@[k] == e;
                    if k >= i {
                        if i < self@.len() && k > i {
                            assert(self@[i as int].0 < self@[k].0);
                        }
                    }
                    assert(lo <= k < i);
                    assert(out@[k - lo] == e);
                }
            }
        }
        out
    }

    /// Places an entry for a key that is absent, at its ordered position `i`.
    fn put_at(&mut self, i: usize, w: u32, reloc: ObjReloc)
        requires
            old(self).wf(),
            word_of(w) == w,
            i <= old(self)@.len(),
            forall|k: int| 0 <= k < i ==> old(self)@[k].0 < w,
            forall|k: int| i <= k < old(self)@.len() ==> old(self)@[k].0 > w,
        ensures
            final(self).wf(),
            !reloc_has(old(self)@, w),
            final(self)@ == old(self)@.insert(i as int, (w, reloc)),
            final(self)@.len() == old(self)@.len() + 1,
            reloc_lookup(final(self)@, w) == Some(reloc),
            forall|a: u32|
                a != w ==> #[trigger] reloc_lookup(final(self)@, a) == reloc_lookup(
                    old(self)@,
                    a,
                ),
    {
        let ghost s = self@;
        self.relocations.insert(i, (w, reloc));
        let ghost t = self@;
        proof {
            assert(t == s.insert(i as int, (w, reloc)));
            assert(reloc_entries_wf(t));
            lemma_reloc_lookup_index(t, i as int);
            assert forall|a: u32| a != w implies #[trigger] reloc_lookup(t, a) == reloc_lookup(s, a) by {
                if reloc_has(s, a) {
                    let k = choose|k: int| 0 <= k < s.len() && #[trigger] s[k].0 == a;
                    lemma_reloc_lookup_index(s, k);
                    if k < i {
                        assert(t[k] == s[k]);
                        lemma_reloc_lookup_index(t, k);
                    } else {
                        assert(t[k + 1] == s[k]);
                        lemma_reloc_lookup_index(t, k + 1);
                    }
                } else if reloc_has(t, a) {
                    let k = choose|k: int| 0 <= k < t.len() && #[trigger] t[k].0 == a;
                    if k < i {
                        assert(s[k] == t[k]);
                    } else if k > i {
                        assert(s[k - 1] == t[k]);
                    }
                }
            }
            if reloc_has(s, w) {
                let k = choose|k: int| 0 <= k < s.len() && #[trigger] s[k].0 == w;
            }
        }
    }
}

} // verus!
