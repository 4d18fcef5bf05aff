//! What is known of symbols, and what relocations need of them.
use vstd::prelude::*;

verus! {

/// What is known of a symbol and what is needed of it.
#[derive(Clone, Copy, Debug, PartialEq, Eq, Structural)]
pub struct ValueFlags {
    pub absolute: bool,
    pub dynamic: bool,
    pub dynamic_function: bool,
    pub non_interposable: bool,
    pub downgrade_to_local: bool,
    pub has_non_ir_ref: bool,
    pub direct: bool,
    pub got: bool,
    pub plt: bool,
    pub got_tls_offset: bool,
    pub got_tls_module: bool,
    pub got_tls_descriptor: bool,
    pub export_dynamic: bool,
}

/// What a relocation computes.
#[derive(Clone, Copy, Debug, PartialEq, Eq, Structural)]
pub enum RelocationKind {
    Absolute,
    AbsoluteSet,
    AbsoluteSetWord6,
    AbsoluteAddition,
    AbsoluteAdditionWord6,
    AbsoluteSubtraction,
    AbsoluteSubtractionWord6,
    AbsoluteLowPart,
    PairSubtractionULEB128(u32),
    Relative,
    RelativeRiscVLow12,
    RelativeLoongArchHigh,
    SymRelGotBase,
    Got,
    GotRelGotBase,
    GotRelative,
    GotRelativeLoongArch64,
    PltRelative,
    PltRelGotBase,
    TlsGd,
    TlsGdGot,
    TlsGdGotBase,
    TlsLd,
    TlsLdGot,
    TlsLdGotBase,
    DtpOff,
    TpOff,
    GotTpOff,
    GotTpOffLoongArch64,
    GotTpOffGot,
    GotTpOffGotBase,
    TlsDesc,
    TlsDescLoongArch64,
    TlsDescGot,
    TlsDescGotBase,
    TlsDescCall,
    Alignment,
    NoRelocation,
}

impl ValueFlags {
    /// No flags.
    pub open spec fn none() -> ValueFlags {
        ValueFlags {
            absolute: false,
            dynamic: false,
            dynamic_function: false,
            non_interposable: false,
            downgrade_to_local: false,
            has_non_ir_ref: false,
            direct: false,
            got: false,
            plt: false,
            got_tls_offset: false,
            got_tls_module: false,
            got_tls_descriptor: false,
            export_dynamic: false,
        }
    }

    /// The flags that are in either of two sets.
    pub open spec fn union(self, other: ValueFlags) -> ValueFlags {
        ValueFlags {
            absolute: self.absolute || other.absolute,
            dynamic: self.dynamic || other.dynamic,
            dynamic_function: self.dynamic_function || other.dynamic_function,
            non_interposable: self.non_interposable || other.non_interposable,
            downgrade_to_local: self.downgrade_to_local || other.downgrade_to_local,
            has_non_ir_ref: self.has_non_ir_ref || other.has_non_ir_ref,
            direct: self.direct || other.direct,
            got: self.got || other.got,
            plt: self.plt || other.plt,
            got_tls_offset: self.got_tls_offset || other.got_tls_offset,
            got_tls_module: self.got_tls_module || other.got_tls_module,
            got_tls_descriptor: self.got_tls_descriptor || other.got_tls_descriptor,
            export_dynamic: self.export_dynamic || other.export_dynamic,
        }
    }

    /// Whether something needs the value of the symbol.
    pub open spec fn spec_has_resolution(self) -> bool {
        self.direct || self.got || self.plt || self.got_tls_offset || self.got_tls_module
            || self.got_tls_descriptor || self.export_dynamic
    }

    pub fn empty() -> (flags: ValueFlags)
        ensures
            flags == ValueFlags::none(),
    {
        ValueFlags {
            absolute: false,
            dynamic: false,
            dynamic_function: false,
            non_interposable: false,
            downgrade_to_local: false,
            has_non_ir_ref: false,
            direct: false,
            got: false,
            plt: false,
            got_tls_offset: false,
            got_tls_module: false,
            got_tls_descriptor: false,
            export_dynamic: false,
        }
    }

    /// Adds flags and returns what was there before.
    pub fn fetch_or(&mut self, other: ValueFlags) -> (before: ValueFlags)
        ensures
            before == *old(self),
            *final(self) == old(self).union(other),
    {
        let before: ValueFlags = *self;
        self.merge(other);
        before
    }

    /// Adds flags.
    pub fn merge(&mut self, other: ValueFlags)
        ensures
            *final(self) == old(self).union(other),
    {
        *self = ValueFlags {
            absolute: self.absolute || other.absolute,
            dynamic: self.dynamic || other.dynamic,
            dynamic_function: self.dynamic_function || other.dynamic_function,
            non_interposable: self.non_interposable || other.non_interposable,
            downgrade_to_local: self.downgrade_to_local || other.downgrade_to_local,
            has_non_ir_ref: self.has_non_ir_ref || other.has_non_ir_ref,
            direct: self.direct || other.direct,
            got: self.got || other.got,
            plt: self.plt || other.plt,
            got_tls_offset: self.got_tls_offset || other.got_tls_offset,
            got_tls_module: self.got_tls_module || other.got_tls_module,
            got_tls_descriptor: self.got_tls_descriptor || other.got_tls_descriptor,
            export_dynamic: self.export_dynamic || other.export_dynamic,
        };
    }

    /// Whether something needs the value of the symbol.
    pub fn has_resolution(self) -> (has: bool)
        ensures
            has == self.spec_has_resolution(),
    {
        self.direct || self.got || self.plt || self.got_tls_offset || self.got_tls_module
            || self.got_tls_descriptor || self.export_dynamic
    }

    /// Whether the address of the symbol is known when linking.
    pub fn has_link_time_address(self) -> (has: bool)
        ensures
            has == (!self.dynamic && !self.absolute),
    {
        !self.dynamic && !self.absolute
    }

    /// Whether another definition may take the place of the symbol at run time.
    pub fn is_interposable(self) -> (interposable: bool)
        ensures
            interposable == !self.non_interposable,
    {
        !self.non_interposable
    }
}

/// What a relocation needs of the symbol that it refers to.
pub open spec fn needed_for(kind: RelocationKind) -> ValueFlags {
    match kind {
        RelocationKind::PltRelative | RelocationKind::PltRelGotBase => (ValueFlags {
            plt: true,
            got: true,
            ..ValueFlags::none()
        }),
        RelocationKind::Got
        | RelocationKind::GotRelGotBase
        | RelocationKind::GotRelative
        | RelocationKind::GotRelativeLoongArch64 => (ValueFlags { got: true, ..ValueFlags::none() }),
        RelocationKind::GotTpOff
        | RelocationKind::GotTpOffLoongArch64
        | RelocationKind::GotTpOffGot
        | RelocationKind::GotTpOffGotBase => (ValueFlags {
            got_tls_offset: true,
            ..ValueFlags::none()
        }),
        RelocationKind::TlsGd | RelocationKind::TlsGdGot | RelocationKind::TlsGdGotBase => (
        ValueFlags { got_tls_module: true, ..ValueFlags::none() }),
        RelocationKind::TlsDesc
        | RelocationKind::TlsDescLoongArch64
        | RelocationKind::TlsDescGot
        | RelocationKind::TlsDescGotBase
        | RelocationKind::TlsDescCall => (ValueFlags {
            got_tls_descriptor: true,
            ..ValueFlags::none()
        }),
        RelocationKind::TlsLd
        | RelocationKind::TlsLdGot
        | RelocationKind::TlsLdGotBase
        | RelocationKind::NoRelocation
        | RelocationKind::AbsoluteLowPart
        | RelocationKind::Alignment => ValueFlags::none(),
        RelocationKind::Absolute
        | RelocationKind::AbsoluteSet
        | RelocationKind::AbsoluteSetWord6
        | RelocationKind::AbsoluteAddition
        | RelocationKind::AbsoluteAdditionWord6
        | RelocationKind::AbsoluteSubtraction
        | RelocationKind::AbsoluteSubtractionWord6
        | RelocationKind::Relative
        | RelocationKind::RelativeRiscVLow12
        | RelocationKind::RelativeLoongArchHigh
        | RelocationKind::DtpOff
        | RelocationKind::TpOff
        | RelocationKind::SymRelGotBase
        | RelocationKind::PairSubtractionULEB128(_) => (ValueFlags {
            direct: true,
            ..ValueFlags::none()
        }),
    }
}

/// What a relocation needs of the symbol that it refers to.
pub fn resolution_flags(rel_kind: RelocationKind) -> (flags: ValueFlags)
    ensures
        flags == needed_for(rel_kind),
{
    let mut flags: ValueFlags = ValueFlags::empty();
    match rel_kind {
        RelocationKind::PltRelative | RelocationKind::PltRelGotBase => {
            flags.plt = true;
            flags.got = true;
        },
        RelocationKind::Got
        | RelocationKind::GotRelGotBase
        | RelocationKind::GotRelative
        | RelocationKind::GotRelativeLoongArch64 => {
            flags.got = true;
        },
        RelocationKind::GotTpOff
        | RelocationKind::GotTpOffLoongArch64
        | RelocationKind::GotTpOffGot
        | RelocationKind::GotTpOffGotBase => {
            flags.got_tls_offset = true;
        },
        RelocationKind::TlsGd | RelocationKind::TlsGdGot | RelocationKind::TlsGdGotBase => {
            flags.got_tls_module = true;
        },
        RelocationKind::TlsDesc
        | RelocationKind::TlsDescLoongArch64
        | RelocationKind::TlsDescGot
        | RelocationKind::TlsDescGotBase
        | RelocationKind::TlsDescCall => {
            flags.got_tls_descriptor = true;
        },
        RelocationKind::TlsLd
        | RelocationKind::TlsLdGot
        | RelocationKind::TlsLdGotBase
        | RelocationKind::NoRelocation
        | RelocationKind::AbsoluteLowPart
        | RelocationKind::Alignment => {},
        RelocationKind::Absolute
        | RelocationKind::AbsoluteSet
        | RelocationKind::AbsoluteSetWord6
        | RelocationKind::AbsoluteAddition
        | RelocationKind::AbsoluteAdditionWord6
        | RelocationKind::AbsoluteSubtraction
        | RelocationKind::AbsoluteSubtractionWord6
        | RelocationKind::Relative
        | RelocationKind::RelativeRiscVLow12
        | RelocationKind::RelativeLoongArchHigh
        | RelocationKind::DtpOff
        | RelocationKind::TpOff
        | RelocationKind::SymRelGotBase
        | RelocationKind::PairSubtractionULEB128(_) => {
            flags.direct = true;
        },
    }
    flags
}

/// Adding flags takes none away, and adding them again changes nothing.
pub proof fn lemma_flags_accumulate(a: ValueFlags, b: ValueFlags)
    ensures
        a.union(b) == b.union(a),
        a.union(b).union(b) == a.union(b),
        a.spec_has_resolution() ==> a.union(b).spec_has_resolution(),
{
}

} // verus!
