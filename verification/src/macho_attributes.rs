//! The types and attributes of Mach-O sections and the names of Mach-O segments.
use vstd::prelude::*;

verus! {

pub const S_ZEROFILL: u8 = 0x1;

pub const S_NON_LAZY_SYMBOL_POINTERS: u8 = 0x6;

pub const S_LAZY_SYMBOL_POINTERS: u8 = 0x7;

pub const S_SYMBOL_STUBS: u8 = 0x8;

pub const S_GB_ZEROFILL: u8 = 0xc;

pub const S_LAZY_DYLIB_SYMBOL_POINTERS: u8 = 0x10;

pub const S_THREAD_LOCAL_REGULAR: u8 = 0x11;

pub const S_THREAD_LOCAL_ZEROFILL: u8 = 0x12;

pub const S_THREAD_LOCAL_VARIABLES: u8 = 0x13;

pub const S_THREAD_LOCAL_VARIABLE_POINTERS: u8 = 0x14;

/// The bits of section flags that hold the type.
pub const SECTION_TYPE: u32 = 0x0000_00ff;

/// The bits of section flags that hold attributes.
pub const SECTION_ATTRIBUTES: u32 = 0xffff_ff00;

pub const S_ATTR_PURE_INSTRUCTIONS: u32 = 0x8000_0000;

pub const S_ATTR_DEBUG: u32 = 0x0200_0000;

pub const S_ATTR_SOME_INSTRUCTIONS: u32 = 0x0000_0400;

pub const S_ATTR_EXT_RELOC: u32 = 0x0000_0200;

pub const S_ATTR_LOC_RELOC: u32 = 0x0000_0100;

/// Attributes of input sections that do not carry over to the output.
pub const SECTION_FLAGS_PROPAGATION_MASK: u32 = S_ATTR_EXT_RELOC | S_ATTR_LOC_RELOC;

/// The attributes of a section that holds instructions.
pub const INSTRUCTION_ATTRIBUTES: u32 = 0x8000_0400;

/// The name of a segment, padded with zeros.
#[derive(Clone, Copy, Debug, PartialEq, Eq, Hash)]
pub struct SegmentName {
    pub bytes: [u8; 16],
}

/// The attributes of a Mach-O section.
#[derive(Clone, Copy, Debug, PartialEq, Eq, Structural)]
pub struct MachOAttributes {
    pub ty: u8,
    pub attr: u32,
    pub writable: bool,
}

/// A name padded with zeros to the length of a segment name.
pub open spec fn padded(name: Seq<u8>) -> Seq<u8> {
    Seq::new(
        16,
        |i: int|
            if i < name.len() {
                name[i]
            } else {
                0u8
            },
    )
}

pub open spec fn pagezero_name() -> Seq<u8> {
    // __PAGEZERO
    padded(seq![0x5fu8, 0x5f, 0x50, 0x41, 0x47, 0x45, 0x5a, 0x45, 0x52, 0x4f])
}

pub open spec fn text_name() -> Seq<u8> {
    // __TEXT
    padded(seq![0x5fu8, 0x5f, 0x54, 0x45, 0x58, 0x54])
}

pub open spec fn data_name() -> Seq<u8> {
    // __DATA
    padded(seq![0x5fu8, 0x5f, 0x44, 0x41, 0x54, 0x41])
}

pub open spec fn data_const_name() -> Seq<u8> {
    // __DATA_CONST
    padded(seq![0x5fu8, 0x5f, 0x44, 0x41, 0x54, 0x41, 0x5f, 0x43, 0x4f, 0x4e, 0x53, 0x54])
}

pub open spec fn linkedit_name() -> Seq<u8> {
    // __LINKEDIT
    padded(seq![0x5fu8, 0x5f, 0x4c, 0x49, 0x4e, 0x4b, 0x45, 0x44, 0x49, 0x54])
}

pub open spec fn llvm_name() -> Seq<u8> {
    // __LLVM
    padded(seq![0x5fu8, 0x5f, 0x4c, 0x4c, 0x56, 0x4d])
}

impl SegmentName {
    /// The segment with the given name.
    pub fn from_bytes(name: &[u8]) -> (segment: SegmentName)
        requires
            name@.len() <= 16,
        ensures
            segment.bytes@ == padded(name@),
    {
        let mut bytes: [u8; 16] = [0u8;16];
        let mut i: usize = 0;
        while i < name.len()
            invariant
                i <= name@.len() <= 16,
                forall|k: int| 0 <= k < i ==> bytes@[k] == name@[k],
                forall|k: int| i <= k < 16 ==> bytes@[k] == 0,
            decreases name@.len() - i,
        {
            bytes[i] = name[i];
            i = i + 1;
        }
        assert(bytes@ =~= padded(name@));
        SegmentName { bytes }
    }

    pub fn into_bytes(self) -> (bytes: [u8; 16])
        ensures
            bytes == self.bytes,
    {
        self.bytes
    }

    /// The inaccessible segment at address 0.
    pub fn pagezero() -> (segment: SegmentName)
        ensures
            segment.bytes@ == pagezero_name(),
    {
        let name: [u8; 10] = [0x5f, 0x5f, 0x50, 0x41, 0x47, 0x45, 0x5a, 0x45, 0x52, 0x4f];
        assert(name@ =~= seq![0x5fu8, 0x5f, 0x50, 0x41, 0x47, 0x45, 0x5a, 0x45, 0x52, 0x4f]);
        SegmentName::from_bytes(name.as_slice())
    }

    /// The segment of instructions.
    pub fn text() -> (segment: SegmentName)
        ensures
            segment.bytes@ == text_name(),
    {
        let name: [u8; 6] = [0x5f, 0x5f, 0x54, 0x45, 0x58, 0x54];
        assert(name@ =~= seq![0x5fu8, 0x5f, 0x54, 0x45, 0x58, 0x54]);
        SegmentName::from_bytes(name.as_slice())
    }

    /// The segment of data.
    pub fn data() -> (segment: SegmentName)
        ensures
            segment.bytes@ == data_name(),
    {
        let name: [u8; 6] = [0x5f, 0x5f, 0x44, 0x41, 0x54, 0x41];
        assert(name@ =~= seq![0x5fu8, 0x5f, 0x44, 0x41, 0x54, 0x41]);
        SegmentName::from_bytes(name.as_slice())
    }

    /// The segment of data that does not change after loading.
    pub fn data_const() -> (segment: SegmentName)
        ensures
            segment.bytes@ == data_const_name(),
    {
        let name: [u8; 12] = [
            0x5f, 0x5f, 0x44, 0x41, 0x54, 0x41, 0x5f, 0x43, 0x4f, 0x4e, 0x53, 0x54,
        ];
        assert(name@ =~= seq![
            0x5fu8, 0x5f, 0x44, 0x41, 0x54, 0x41, 0x5f, 0x43, 0x4f, 0x4e, 0x53, 0x54,
        ]);
        SegmentName::from_bytes(name.as_slice())
    }

    /// The segment of tables for the dynamic linker.
    pub fn linkedit() -> (segment: SegmentName)
        ensures
            segment.bytes@ == linkedit_name(),
    {
        let name: [u8; 10] = [0x5f, 0x5f, 0x4c, 0x49, 0x4e, 0x4b, 0x45, 0x44, 0x49, 0x54];
        assert(name@ =~= seq![0x5fu8, 0x5f, 0x4c, 0x49, 0x4e, 0x4b, 0x45, 0x44, 0x49, 0x54]);
        SegmentName::from_bytes(name.as_slice())
    }

    /// The segment of intermediate code.
    pub fn llvm() -> (segment: SegmentName)
        ensures
            segment.bytes@ == llvm_name(),
    {
        let name: [u8; 6] = [0x5f, 0x5f, 0x4c, 0x4c, 0x56, 0x4d];
        assert(name@ =~= seq![0x5fu8, 0x5f, 0x4c, 0x4c, 0x56, 0x4d]);
        SegmentName::from_bytes(name.as_slice())
    }

    /// Whether two names are the same.
    pub fn is(self, other: SegmentName) -> (same: bool)
        ensures
            same == (self.bytes@ == other.bytes@),
    {
        crate::bytes::bytes_equal(self.bytes.as_slice(), other.bytes.as_slice())
    }

    /// Whether the segment may be written to.
    pub open spec fn spec_is_writable(self) -> bool {
        self.bytes@ != pagezero_name() && self.bytes@ != text_name() && self.bytes@
            != linkedit_name()
    }

    /// Whether the segment may be written to.
    pub fn is_writable(self) -> (writable: bool)
        ensures
            writable == self.spec_is_writable(),
    {
        !(self.is(SegmentName::pagezero()) || self.is(SegmentName::text()) || self.is(
            SegmentName::linkedit(),
        ))
    }
}

/// The segments that the linker knows of have different names.
pub proof fn lemma_known_names()
    ensures
        pagezero_name() != text_name(),
        pagezero_name() != data_name(),
        pagezero_name() != data_const_name(),
        pagezero_name() != linkedit_name(),
        text_name() != data_name(),
        text_name() != data_const_name(),
        text_name() != linkedit_name(),
        data_name() != data_const_name(),
        data_name() != linkedit_name(),
        data_const_name() != linkedit_name(),
{
    assert(pagezero_name()[2] == 0x50);
    assert(text_name()[2] == 0x54);
    assert(data_name()[2] == 0x44);
    assert(data_const_name()[2] == 0x44);
    assert(linkedit_name()[2] == 0x4c);
    assert(data_name()[6] == 0);
    assert(data_const_name()[6] == 0x5f);
}

/// Names of segments that do not end in zeros are the same only if their padded forms are.
pub proof fn lemma_segment_name_round_trip(a: Seq<u8>, b: Seq<u8>)
    requires
        a.len() <= 16,
        b.len() <= 16,
        a.len() > 0 ==> a.last() != 0,
        b.len() > 0 ==> b.last() != 0,
        padded(a) == padded(b),
    ensures
        a == b,
{
    if a.len() < b.len() {
        assert(padded(a)[b.len() - 1] == 0);
        assert(padded(b)[b.len() - 1] == b.last());
    }
    if b.len() < a.len() {
        assert(padded(b)[a.len() - 1] == 0);
        assert(padded(a)[a.len() - 1] == a.last());
    }
    assert forall|i: int| 0 <= i < a.len() implies a[i] == b[i] by {
        assert(padded(a)[i] == a[i]);
        assert(padded(b)[i] == b[i]);
    }
    assert(a =~= b);
}

/// Whether a type of section has no contents in the file.
pub open spec fn type_has_no_bits(ty: u8) -> bool {
    ty == S_ZEROFILL || ty == S_GB_ZEROFILL || ty == S_THREAD_LOCAL_ZEROFILL
}

/// Whether a type of section holds the initial values of thread-local variables.
pub open spec fn type_is_tls(ty: u8) -> bool {
    ty == S_THREAD_LOCAL_REGULAR || ty == S_THREAD_LOCAL_ZEROFILL
}

/// The larger of two section types.
pub open spec fn larger_type(a: u8, b: u8) -> u8 {
    if a >= b {
        a
    } else {
        b
    }
}

/// The type in section flags.
pub fn section_type(flags: u32) -> (ty: u8)
    ensures
        ty == flags & SECTION_TYPE,
{
    assert(flags & 0xff <= 0xff) by (bit_vector);
    (flags & SECTION_TYPE) as u8
}

impl MachOAttributes {
    /// The attributes that section flags and the segment of the section give.
    pub open spec fn of(flags: u32, segment: Option<SegmentName>) -> MachOAttributes {
        MachOAttributes {
            ty: (flags & SECTION_TYPE) as u8,
            attr: flags & SECTION_ATTRIBUTES,
            writable: segment matches Some(segment) && segment.spec_is_writable(),
        }
    }

    pub fn new(flags: u32, segment: Option<SegmentName>) -> (attributes: MachOAttributes)
        ensures
            attributes == MachOAttributes::of(flags, segment),
    {
        MachOAttributes {
            ty: section_type(flags),
            attr: flags & SECTION_ATTRIBUTES,
            writable: match segment {
                Some(segment) => segment.is_writable(),
                None => false,
            },
        }
    }

    /// The attributes of a section that nothing has been put into.
    pub open spec fn none() -> MachOAttributes {
        MachOAttributes { ty: 0, attr: 0, writable: false }
    }

    /// The attributes of a section that nothing has been put into.
    pub fn empty() -> (attributes: MachOAttributes)
        ensures
            attributes == MachOAttributes::none(),
    {
        MachOAttributes { ty: 0, attr: 0, writable: false }
    }

    /// The attributes of a section that two sections are put into.
    pub open spec fn merged(self, other: MachOAttributes) -> MachOAttributes {
        MachOAttributes {
            ty: larger_type(self.ty, other.ty),
            attr: self.attr | other.attr,
            writable: self.writable || other.writable,
        }
    }

    /// The attributes of an output section after those of its inputs have been applied. Attributes
    /// about relocations do not carry over.
    pub open spec fn applied(self, inputs: MachOAttributes) -> MachOAttributes {
        MachOAttributes {
            ty: larger_type(self.ty, inputs.ty),
            attr: self.attr | (inputs.attr & !SECTION_FLAGS_PROPAGATION_MASK),
            writable: self.writable || inputs.writable,
        }
    }

    /// Adds the attributes of another section that goes to the same place.
    pub fn merge(&mut self, other: MachOAttributes)
        ensures
            *final(self) == old(self).merged(other),
    {
        if other.ty > self.ty {
            self.ty = other.ty;
        }
        self.attr = self.attr | other.attr;
        self.writable = self.writable || other.writable;
    }

    /// Attributes and type together.
    pub fn flags(&self) -> (flags: u32)
        ensures
            flags == self.attr & SECTION_ATTRIBUTES | self.ty as u32,
    {
        self.attr & SECTION_ATTRIBUTES | self.ty as u32
    }

    pub fn ty(&self) -> (ty: u8)
        ensures
            ty == self.ty,
    {
        self.ty
    }

    /// Whether the section holds instructions.
    pub open spec fn spec_is_executable(self) -> bool {
        self.attr & INSTRUCTION_ATTRIBUTES != 0
    }

    pub fn is_executable(&self) -> (executable: bool)
        ensures
            executable == self.spec_is_executable(),
    {
        self.attr & INSTRUCTION_ATTRIBUTES != 0
    }

    pub fn is_tls(&self) -> (tls: bool)
        ensures
            tls == type_is_tls(self.ty),
    {
        self.ty == S_THREAD_LOCAL_REGULAR || self.ty == S_THREAD_LOCAL_ZEROFILL
    }

    pub fn is_writable(&self) -> (writable: bool)
        ensures
            writable == self.writable,
    {
        self.writable
    }

    pub fn is_no_bits(&self) -> (no_bits: bool)
        ensures
            no_bits == type_has_no_bits(self.ty),
    {
        self.ty == S_ZEROFILL || self.ty == S_GB_ZEROFILL || self.ty == S_THREAD_LOCAL_ZEROFILL
    }
}

/// Merging attributes takes none away, does not depend on the order, and merging the same ones
/// again changes nothing.
pub proof fn lemma_attributes_merge(a: MachOAttributes, b: MachOAttributes)
    ensures
        a.merged(b) == b.merged(a),
        a.merged(b).merged(b) == a.merged(b),
        a.ty <= a.merged(b).ty,
        a.attr & a.merged(b).attr == a.attr,
        a.writable ==> a.merged(b).writable,
        a.spec_is_executable() ==> a.merged(b).spec_is_executable(),
{
    let x = a.attr;
    let y = b.attr;
    assert(x | y == y | x) by (bit_vector);
    assert((x | y) | y == x | y) by (bit_vector);
    assert(x & (x | y) == x) by (bit_vector);
    assert(x & 0x8000_0400 != 0 ==> (x | y) & 0x8000_0400 != 0) by (bit_vector);
}

/// Whether an input section is left out: debug information, segments that are made by the linker,
/// and sections that are backed by the indirect symbol table.
pub open spec fn is_excluded(flags: u32, segment: SegmentName) -> bool {
    let ty = (flags & SECTION_TYPE) as u8;
    ||| flags & S_ATTR_DEBUG != 0
    ||| segment.bytes@ == pagezero_name()
    ||| segment.bytes@ == linkedit_name()
    ||| segment.bytes@ == llvm_name()
    ||| ty == S_NON_LAZY_SYMBOL_POINTERS
    ||| ty == S_LAZY_SYMBOL_POINTERS
    ||| ty == S_SYMBOL_STUBS
    ||| ty == S_LAZY_DYLIB_SYMBOL_POINTERS
    ||| ty == S_THREAD_LOCAL_VARIABLE_POINTERS
}

/// Whether an input section is left out.
pub fn should_exclude(flags: u32, segment: SegmentName) -> (exclude: bool)
    ensures
        exclude == is_excluded(flags, segment),
{
    let ty: u8 = section_type(flags);
    flags & S_ATTR_DEBUG != 0 || segment.is(SegmentName::pagezero()) || segment.is(
        SegmentName::linkedit(),
    ) || segment.is(SegmentName::llvm()) || ty == S_NON_LAZY_SYMBOL_POINTERS || ty
        == S_LAZY_SYMBOL_POINTERS || ty == S_SYMBOL_STUBS || ty == S_LAZY_DYLIB_SYMBOL_POINTERS
        || ty == S_THREAD_LOCAL_VARIABLE_POINTERS
}

} // verus!
