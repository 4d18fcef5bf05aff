//! The symbols of Mach-O files.
use crate::symbol_resolution::Visibility;
use vstd::prelude::*;

verus! {

/// The bits of debugging symbols.
pub const N_STAB: u8 = 0xe0;

/// The symbol is hidden from other files.
pub const N_PEXT: u8 = 0x10;

/// The bits that say where a symbol is defined.
pub const N_TYPE: u8 = 0x0e;

/// The symbol is visible to other object files.
pub const N_EXT: u8 = 0x01;

/// The symbol is not defined.
pub const N_UNDF: u8 = 0x0;

/// The symbol has an absolute value.
pub const N_ABS: u8 = 0x2;

/// Another definition takes precedence.
pub const N_WEAK_DEF: u16 = 0x80;

/// An entry of a symbol table.
#[derive(Clone, Copy, Debug, PartialEq, Eq, Structural)]
pub struct SymtabEntry {
    /// Where in the string table the name is.
    pub n_strx: u32,
    pub n_type: u8,
    pub n_sect: u8,
    pub n_desc: u16,
    pub n_value: u64,
}

/// The name of a symbol. It has no version.
#[derive(Clone, Copy, Debug)]
pub struct RawSymbolName<'data> {
    pub name: &'data [u8],
}

impl SymtabEntry {
    /// An entry that holds nothing.
    pub fn default_symtab_entry() -> (entry: SymtabEntry)
        ensures
            entry == (SymtabEntry { n_strx: 0, n_type: 0, n_sect: 0, n_desc: 0, n_value: 0 }),
    {
        SymtabEntry { n_strx: 0, n_type: 0, n_sect: 0, n_desc: 0, n_value: 0 }
    }

    /// Whether the symbol is defined elsewhere. Those with a value are not, because the value is
    /// the size of something that any file may define.
    pub fn is_undefined(&self) -> (undefined: bool)
        ensures
            undefined == (self.n_type & N_STAB == 0 && self.n_type & N_TYPE == N_UNDF
                && self.n_value == 0),
    {
        self.n_type & N_STAB == 0 && self.n_type & N_TYPE == N_UNDF && self.n_value == 0
    }

    /// Whether other object files cannot refer to the symbol.
    pub fn is_local(&self) -> (local: bool)
        ensures
            local == (self.n_type & N_EXT != N_EXT),
    {
        self.n_type & N_EXT != N_EXT
    }

    pub fn is_absolute(&self) -> (absolute: bool)
        ensures
            absolute == (self.n_type & N_TYPE == N_ABS),
    {
        self.n_type & N_TYPE == N_ABS
    }

    pub fn is_weak(&self) -> (weak: bool)
        ensures
            weak == (self.n_desc & N_WEAK_DEF == N_WEAK_DEF),
    {
        self.n_desc & N_WEAK_DEF == N_WEAK_DEF
    }

    pub open spec fn spec_visibility(self) -> Visibility {
        if self.n_type & N_PEXT == N_PEXT {
            Visibility::Hidden
        } else {
            Visibility::Default
        }
    }

    /// Who can see the symbol.
    pub fn visibility(&self) -> (visibility: Visibility)
        ensures
            visibility == self.spec_visibility(),
    {
        if self.n_type & N_PEXT == N_PEXT {
            Visibility::Hidden
        } else {
            Visibility::Default
        }
    }

    pub fn value(&self) -> (value: u64)
        ensures
            value == self.n_value,
    {
        self.n_value
    }

    pub fn has_name(&self) -> (has: bool)
        ensures
            has == (self.n_strx != 0),
    {
        self.n_strx != 0
    }

    /// Whether other files may replace the symbol at run time.
    pub fn is_interposable(&self) -> (interposable: bool)
        ensures
            interposable == (self.spec_visibility() is Default),
    {
        match self.visibility() {
            Visibility::Default => true,
            _ => false,
        }
    }

    pub fn is_hidden(&self) -> (hidden: bool)
        ensures
            hidden == (self.spec_visibility() is Hidden),
    {
        match self.visibility() {
            Visibility::Hidden => true,
            _ => false,
        }
    }

    /// The symbol, hidden from other files or not.
    pub fn with_hidden(self, hidden: bool) -> (entry: SymtabEntry)
        ensures
            entry == (SymtabEntry { n_type: entry.n_type, ..self }),
            entry.spec_visibility() is Hidden == hidden,
            entry.n_type & !N_PEXT == self.n_type & !N_PEXT,
    {
        let n_type: u8 = self.n_type;
        assert((n_type | 0x10u8) & 0x10u8 == 0x10u8 && (n_type | 0x10u8) & !0x10u8 == n_type
            & !0x10u8 && (n_type & !0x10u8) & 0x10u8 == 0u8 && (n_type & !0x10u8) & !0x10u8 == n_type
            & !0x10u8) by (bit_vector);
        if hidden {
            SymtabEntry { n_type: n_type | N_PEXT, ..self }
        } else {
            SymtabEntry { n_type: n_type & !N_PEXT, ..self }
        }
    }
}

impl<'data> RawSymbolName<'data> {
    /// The name that the bytes of a file give.
    pub fn parse(bytes: &'data [u8]) -> (name: RawSymbolName<'data>)
        ensures
            name.name == bytes,
    {
        RawSymbolName { name: bytes }
    }

    pub fn name(&self) -> (name: &'data [u8])
        ensures
            name == self.name,
    {
        self.name
    }

    pub fn version_name(&self) -> (version: Option<&'data [u8]>)
        ensures
            version is None,
    {
        None
    }

    /// Whether references without a version mean this symbol.
    pub fn is_default(&self) -> (default: bool)
        ensures
            default,
    {
        true
    }
}

/// An index into the exception frames of an object. It is stored plus one, so that it is never 0.
#[derive(Clone, Copy, Debug, PartialEq, Eq, Structural)]
pub struct FrameIndex(pub u32);

impl FrameIndex {
    pub fn from_usize(raw: usize) -> (index: FrameIndex)
        requires
            raw < u32::MAX,
        ensures
            index.0 == raw + 1,
    {
        FrameIndex(raw as u32 + 1)
    }

    pub fn as_usize(self) -> (raw: usize)
        requires
            self.0 > 0,
        ensures
            raw == self.0 - 1,
    {
        self.0 as usize - 1
    }
}

} // verus!
