use vstd::prelude::*;
use crate::text::str_eq;

verus! {

/// An assembled module: its symbols, the places to patch at link time, and its words.
#[derive(Debug)]
pub struct BobjectFile {
    pub symbols: Vec<Symbol>,
    pub relocations: Vec<Relocation>,
    pub words: Vec<u16>,
}

/// A named offset into the words of an object file.
#[derive(Debug, Clone)]
pub struct Symbol {
    pub name: String,
    pub offset: u16,
    pub binding: Binding,
}

/// Whether a symbol is seen by other object files.
#[derive(Debug, Clone, Copy, PartialEq, Eq, Structural)]
pub enum Binding {
    Local,
    Global,
}

/// A word that the linker fills in with the address of `name`.
#[derive(Debug, Clone)]
pub struct Relocation {
    pub site: u16,
    pub kind: RelocationKind,
    pub name: String,
}

/// How a relocated address is written into its word.
#[derive(Debug, Clone, Copy, PartialEq, Eq, Structural)]
pub enum RelocationKind {
    PcRel9,
    PcRel11,
    Abs16,
}

/// The mathematical form of a [`Symbol`].
pub struct SymbolModel {
    pub name: Seq<char>,
    pub offset: u16,
    pub binding: Binding,
}

/// The mathematical form of a [`Relocation`].
pub struct RelocationModel {
    pub site: u16,
    pub kind: RelocationKind,
    pub name: Seq<char>,
}

/// The mathematical form of a [`BobjectFile`].
pub struct ObjectModel {
    pub symbols: Seq<SymbolModel>,
    pub relocations: Seq<RelocationModel>,
    pub words: Seq<u16>,
}

impl View for Symbol {
    type V = SymbolModel;

    open spec fn view(&self) -> SymbolModel {
        SymbolModel { name: self.name@, offset: self.offset, binding: self.binding }
    }
}

impl View for Relocation {
    type V = RelocationModel;

    open spec fn view(&self) -> RelocationModel {
        RelocationModel { site: self.site, kind: self.kind, name: self.name@ }
    }
}

impl View for BobjectFile {
    type V = ObjectModel;

    open spec fn view(&self) -> ObjectModel {
        ObjectModel {
            symbols: self.symbols@.map_values(|s: Symbol| s@),
            relocations: self.relocations@.map_values(|r: Relocation| r@),
            words: self.words@,
        }
    }
}

/// The index of the first symbol of `syms` named `name`, if any.
pub open spec fn first_named(syms: Seq<Symbol>, name: Seq<char>) -> Option<int>
    decreases syms.len(),
{
    if syms.len() == 0 {
        None
    } else if syms[0].name@ == name {
        Some(0)
    } else {
        match first_named(syms.drop_first(), name) {
            Some(i) => Some(i + 1),
            None => None,
        }
    }
}

impl BobjectFile {
    /// The number of words, as the 16-bit count the file format stores.
    pub fn word_count(&self) -> (n: u16)
        ensures
            n == self.words@.len() as u16,
    {
        self.words.len() as u16
    }

    /// The number of symbols, as a 16-bit count.
    pub fn sym_count(&self) -> (n: u16)
        ensures
            n == self.symbols@.len() as u16,
    {
        self.symbols.len() as u16
    }

    /// The number of relocations, as a 16-bit count.
    pub fn reloc_count(&self) -> (n: u16)
        ensures
            n == self.relocations@.len() as u16,
    {
        self.relocations.len() as u16
    }

    /// The first symbol called `name`.
    pub fn find_symbol(&self, name: &str) -> (r: Option<&Symbol>)
        ensures
            match first_named(self.symbols@, name@) {
                Some(i) => r == Some(&self.symbols@[i]),
                None => r is None,
            },
    {
        let mut i: usize = 0;
        assert(self.symbols@.skip(0) =~= self.symbols@);
        while i < self.symbols.len()
            invariant
                i <= self.symbols@.len(),
                first_named(self.symbols@, name@) == (match first_named(self.symbols@.skip(i as int), name@) {
                    Some(j) => Some(j + i),
                    None => None::<int>,
                }),
            decreases self.symbols@.len() - i,
        {
            assert(self.symbols@.skip(i as int).drop_first() =~= self.symbols@.skip(i + 1));
            if str_eq(self.symbols[i].name.as_str(), name) {
                return Some(&self.symbols[i]);
            }
            i += 1;
        }
        None
    }
}

} // verus!
