//! The sections that the linker adds to Mach-O files, and the alignment of thread-local data.
use crate::alignment::Alignment;
use crate::bytes::append_bytes;
use crate::macho_attributes;
use crate::macho_attributes::{
    MachOAttributes, SegmentName, SECTION_FLAGS_PROPAGATION_MASK, S_ATTR_PURE_INSTRUCTIONS,
    S_ATTR_SOME_INSTRUCTIONS, S_NON_LAZY_SYMBOL_POINTERS, S_SYMBOL_STUBS, S_THREAD_LOCAL_VARIABLES,
};
use crate::output_section_id::OutputSectionId;
use crate::output_section_part_map::OutputSectionPartMap;
use crate::output_sections::{
    OutputSections, SectionAttributes, SectionIdentity, SectionKind, SectionOutputInfo,
};
use vstd::prelude::*;

verus! {

/// The flags of the section of stubs.
pub const STUBS_FLAGS: u32 = 0x8000_0408;

/// The flags of the section of addresses that the dynamic linker fills in.
pub const GOT_FLAGS: u32 = 6;

/// The name of a section that the linker adds.
pub open spec fn built_in_name(index: int) -> Seq<u8> {
    if index == 1 {
        // FILE_HEADER
        seq![0x46u8, 0x49, 0x4c, 0x45, 0x5f, 0x48, 0x45, 0x41, 0x44, 0x45, 0x52]
    } else if index == 2 {
        // STRTAB
        seq![0x53u8, 0x54, 0x52, 0x54, 0x41, 0x42]
    } else if index == 3 {
        // __got
        seq![0x5fu8, 0x5f, 0x67, 0x6f, 0x74]
    } else if index == 4 {
        // __stubs
        seq![0x5fu8, 0x5f, 0x73, 0x74, 0x75, 0x62, 0x73]
    } else if index == 5 {
        // SYMTAB
        seq![0x53u8, 0x59, 0x4d, 0x54, 0x41, 0x42]
    } else if index == 6 {
        // __LINKEDIT
        seq![0x5fu8, 0x5f, 0x4c, 0x49, 0x4e, 0x4b, 0x45, 0x44, 0x49, 0x54]
    } else if index == 7 {
        // LOAD_COMMANDS
        seq![0x4cu8, 0x4f, 0x41, 0x44, 0x5f, 0x43, 0x4f, 0x4d, 0x4d, 0x41, 0x4e, 0x44, 0x53]
    } else if index == 8 {
        // CODE_SIGNATURE
        seq![0x43u8, 0x4f, 0x44, 0x45, 0x5f, 0x53, 0x49, 0x47, 0x4e, 0x41, 0x54, 0x55, 0x52, 0x45]
    } else if index == 9 {
        // DYLD_CHAINED_FIXUPS_TABLE
        seq![
            0x44u8, 0x59, 0x4c, 0x44, 0x5f, 0x43, 0x48, 0x41, 0x49, 0x4e, 0x45, 0x44, 0x5f,
            0x46, 0x49, 0x58, 0x55, 0x50, 0x53, 0x5f, 0x54, 0x41, 0x42, 0x4c, 0x45,
        ]
    } else if index == 10 {
        // EXPORTS_TRIE
        seq![0x45u8, 0x58, 0x50, 0x4f, 0x52, 0x54, 0x53, 0x5f, 0x54, 0x52, 0x49, 0x45]
    } else {
        Seq::empty()
    }
}

/// The segment of a section that the linker adds.
pub open spec fn built_in_segment(index: int) -> Option<Seq<u8>> {
    if index == 3 {
        Some(macho_attributes::data_const_name())
    } else if index == 4 {
        Some(macho_attributes::text_name())
    } else {
        None
    }
}

/// The flags of a section that the linker adds.
pub open spec fn built_in_flags(index: int) -> u32 {
    if index == 3 {
        GOT_FLAGS
    } else if index == 4 {
        STUBS_FLAGS
    } else {
        0
    }
}

/// The exponent of the least alignment of a section that the linker adds.
pub open spec fn built_in_exponent(index: int) -> nat {
    if index == 5 || index == 9 {
        3
    } else if index == 8 {
        4
    } else if index == 4 {
        2
    } else {
        0
    }
}

/// What layout knows of the attributes of a Mach-O section. All sections are loaded.
pub open spec fn spec_properties(attributes: MachOAttributes) -> SectionAttributes {
    SectionAttributes {
        alloc: true,
        writable: attributes.writable,
        executable: attributes.spec_is_executable(),
        tls: macho_attributes::type_is_tls(attributes.ty),
        no_bits: macho_attributes::type_has_no_bits(attributes.ty),
        tls_address_space_only: false,
        ty: attributes.ty as u32,
        flags: attributes.attr as u64,
    }
}

/// What layout knows of the attributes of a Mach-O section.
pub fn properties(attributes: &MachOAttributes) -> (known: SectionAttributes)
    ensures
        known == spec_properties(*attributes),
{
    SectionAttributes {
        alloc: true,
        writable: attributes.is_writable(),
        executable: attributes.is_executable(),
        tls: attributes.is_tls(),
        no_bits: attributes.is_no_bits(),
        tls_address_space_only: false,
        ty: attributes.ty as u32,
        flags: attributes.attr as u64,
    }
}

/// The attributes that a Mach-O section has, given what layout knows of them.
pub open spec fn spec_attributes_of(known: SectionAttributes) -> MachOAttributes {
    MachOAttributes { ty: known.ty as u8, attr: known.flags as u32, writable: known.writable }
}

/// The attributes that a Mach-O section has, given what layout knows of them.
pub fn attributes_of(known: &SectionAttributes) -> (attributes: MachOAttributes)
    ensures
        attributes == spec_attributes_of(*known),
{
    MachOAttributes { ty: known.ty as u8, attr: known.flags as u32, writable: known.writable }
}

/// Layout knows all of the attributes of a Mach-O section.
pub proof fn lemma_attributes_round_trip(attributes: MachOAttributes)
    ensures
        spec_attributes_of(spec_properties(attributes)) == attributes,
{
}

/// What is known of an output section after the attributes of its inputs have been applied.
pub open spec fn with_attributes<'data>(
    info: SectionOutputInfo<'data>,
    inputs: MachOAttributes,
) -> SectionOutputInfo<'data> {
    SectionOutputInfo {
        section_attributes: spec_properties(
            spec_attributes_of(info.section_attributes).applied(inputs),
        ),
        ..info
    }
}

impl MachOAttributes {
    /// Applies the attributes of inputs to an output section.
    pub fn apply<'data>(&self, sections: &mut OutputSections<'data>, section_id: OutputSectionId)
        requires
            old(sections).wf(),
            old(sections).has(section_id),
        ensures
            final(sections).wf(),
            final(sections).same_besides_infos(old(sections)),
            final(sections).custom_by_identity@ == old(sections).custom_by_identity@,
            final(sections).infos() == old(sections).infos().update(
                section_id.0 as int,
                with_attributes(old(sections).info(section_id), *self),
            ),
    {
        let mut info: SectionOutputInfo<'data> = sections.output_info(section_id);
        let mut output: MachOAttributes = attributes_of(&info.section_attributes);
        if self.ty > output.ty {
            output.ty = self.ty;
        }
        output.attr = output.attr | (self.attr & !SECTION_FLAGS_PROPAGATION_MASK);
        output.writable = output.writable || self.writable;
        info.section_attributes = properties(&output);
        sections.section_infos.set(section_id, info);
        proof {
            sections.lemma_wf_after_update(old(sections), section_id);
        }
    }
}

/// The attributes that the header of a section gives.
pub fn section_attributes(flags: u32, segment_name: &[u8]) -> (attributes: MachOAttributes)
    requires
        segment_name@.len() <= 16,
    ensures
        exists|segment: SegmentName|
            segment.bytes@ == macho_attributes::padded(segment_name@) && attributes
                == #[trigger] MachOAttributes::of(flags, Some(segment)),
{
    let segment: SegmentName = SegmentName::from_bytes(segment_name);
    MachOAttributes::new(flags, Some(segment))
}

/// The identity that the header of a section gives it.
pub fn section_identity<'data>(name: &'data [u8], segment_name: &[u8]) -> (identity: SectionIdentity<
    'data,
>)
    requires
        segment_name@.len() <= 16,
    ensures
        identity.name == name,
        identity.format_specific matches Some(bytes) && bytes@ == macho_attributes::padded(
            segment_name@,
        ),
{
    SectionIdentity::new(name, Some(SegmentName::from_bytes(segment_name).into_bytes()))
}

fn built_in_name_bytes(index: usize) -> (name: &'static [u8])
    requires
        index < 11,
    ensures
        name@ == built_in_name(index as int),
{
    let name: &'static [u8] = if index == 1 {
        &[0x46, 0x49, 0x4c, 0x45, 0x5f, 0x48, 0x45, 0x41, 0x44, 0x45, 0x52]
    } else if index == 2 {
        &[0x53, 0x54, 0x52, 0x54, 0x41, 0x42]
    } else if index == 3 {
        &[0x5f, 0x5f, 0x67, 0x6f, 0x74]
    } else if index == 4 {
        &[0x5f, 0x5f, 0x73, 0x74, 0x75, 0x62, 0x73]
    } else if index == 5 {
        &[0x53, 0x59, 0x4d, 0x54, 0x41, 0x42]
    } else if index == 6 {
        &[0x5f, 0x5f, 0x4c, 0x49, 0x4e, 0x4b, 0x45, 0x44, 0x49, 0x54]
    } else if index == 7 {
        &[0x4c, 0x4f, 0x41, 0x44, 0x5f, 0x43, 0x4f, 0x4d, 0x4d, 0x41, 0x4e, 0x44, 0x53]
    } else if index == 8 {
        &[0x43, 0x4f, 0x44, 0x45, 0x5f, 0x53, 0x49, 0x47, 0x4e, 0x41, 0x54, 0x55, 0x52, 0x45]
    } else if index == 9 {
        &[
            0x44, 0x59, 0x4c, 0x44, 0x5f, 0x43, 0x48, 0x41, 0x49, 0x4e, 0x45, 0x44, 0x5f,
            0x46, 0x49, 0x58, 0x55, 0x50, 0x53, 0x5f, 0x54, 0x41, 0x42, 0x4c, 0x45,
        ]
    } else if index == 10 {
        &[0x45, 0x58, 0x50, 0x4f, 0x52, 0x54, 0x53, 0x5f, 0x54, 0x52, 0x49, 0x45]
    } else {
        &[]
    };
    assert(name@ =~= built_in_name(index as int));
    name
}

fn built_in_segment_name(index: usize) -> (segment: Option<SegmentName>)
    ensures
        match (segment, built_in_segment(index as int)) {
            (Some(segment), Some(expected)) => segment.bytes@ == expected,
            (None, None) => true,
            _ => false,
        },
{
    if index == 3 {
        Some(SegmentName::data_const())
    } else if index == 4 {
        Some(SegmentName::text())
    } else {
        None
    }
}

fn built_in_alignment(index: usize) -> (alignment: Alignment)
    ensures
        alignment.exp() == built_in_exponent(index as int),
{
    if index == 5 || index == 9 {
        Alignment::address()
    } else if index == 8 {
        Alignment::from_exponent(4)
    } else if index == 4 {
        Alignment::from_exponent(2)
    } else {
        Alignment::from_exponent(0)
    }
}

/// Whether something describes a section that the linker adds.
pub open spec fn describes_built_in(info: SectionOutputInfo, index: int) -> bool {
    &&& info.kind matches SectionKind::Primary(identity) && identity.name@ == built_in_name(index)
        && match (identity.format_specific, built_in_segment(index)) {
        (Some(bytes), Some(expected)) => bytes@ == expected,
        (None, None) => true,
        _ => false,
    }
    &&& info.section_attributes == spec_properties(
        MachOAttributes {
            ty: (built_in_flags(index) & 0xff) as u8,
            attr: built_in_flags(index) & 0xffff_ff00,
            writable: index == 3,
        },
    )
    &&& info.min_alignment.exp() == built_in_exponent(index)
    &&& info.location_info is None
    &&& info.secondary_order is None
    &&& info.region_name is None
    &&& info.fill is None
    &&& info.phdrs@.len() == 0
    &&& !info.input_order
}

fn built_in_info(index: usize) -> (info: SectionOutputInfo<'static>)
    requires
        index < 11,
    ensures
        describes_built_in(info, index as int),
{
    let segment: Option<SegmentName> = built_in_segment_name(index);
    let flags: u32 = if index == 3 {
        S_NON_LAZY_SYMBOL_POINTERS as u32
    } else if index == 4 {
        (S_SYMBOL_STUBS as u32) | S_ATTR_PURE_INSTRUCTIONS | S_ATTR_SOME_INSTRUCTIONS
    } else {
        0
    };
    assert(8u32 | 0x8000_0000u32 | 0x400u32 == 0x8000_0408u32) by (bit_vector);
    proof {
        macho_attributes::lemma_known_names();
    }
    let attributes: MachOAttributes = MachOAttributes::new(flags, segment);
    let format_specific: Option<[u8; 16]> = match segment {
        Some(segment) => Some(segment.into_bytes()),
        None => None,
    };
    let phdrs: &'static [&'static [u8]] = &[];
    SectionOutputInfo {
        kind: SectionKind::Primary(
            SectionIdentity::new(built_in_name_bytes(index), format_specific),
        ),
        section_attributes: properties(&attributes),
        min_alignment: built_in_alignment(index),
        location_info: None,
        secondary_order: None,
        region_name: None,
        fill: None,
        phdrs,
        input_order: false,
    }
}

/// The sections that the linker adds to Mach-O files.
pub fn built_in_section_infos() -> (infos: Vec<SectionOutputInfo<'static>>)
    ensures
        infos@.len() == 11,
        forall|i: int| 0 <= i < 11 ==> describes_built_in(#[trigger] infos@[i], i),
{
    let mut infos: Vec<SectionOutputInfo<'static>> = Vec::new();
    let mut i: usize = 0;
    while i < 11
        invariant
            i <= 11,
            infos@.len() == i,
            forall|k: int| 0 <= k < i ==> describes_built_in(#[trigger] infos@[k], k),
        decreases 11 - i,
    {
        infos.push(built_in_info(i));
        i = i + 1;
    }
    infos
}

/// The larger of two exponents.
pub open spec fn larger(a: nat, b: nat) -> nat {
    if b > a {
        b
    } else {
        a
    }
}

/// The exponent of the largest alignment of the thread-local data among the first `count` sections.
pub open spec fn tls_exponent<'data>(
    sections: &OutputSections<'data>,
    sizes: &OutputSectionPartMap<u64>,
    count: int,
) -> nat
    decreases count,
{
    if count <= 0 {
        0
    } else {
        let before = tls_exponent(sections, sizes, count - 1);
        if sections.infos()[count - 1].section_attributes.tls {
            larger(before, sizes.max_exponent(OutputSectionId((count - 1) as u32), sections))
        } else {
            before
        }
    }
}

/// The exponent of the alignment that a section needs at least: the initial contents of
/// thread-local variables are aligned alike, and their descriptors are aligned like addresses.
pub open spec fn needed_exponent<'data>(
    sections: &OutputSections<'data>,
    sizes: &OutputSectionPartMap<u64>,
    index: int,
) -> nat {
    let own = sections.infos()[index].min_alignment.exp();
    let shared = if sections.infos()[index].section_attributes.tls {
        larger(own, tls_exponent(sections, sizes, sections.count()))
    } else {
        own
    };
    if sections.infos()[index].section_attributes.ty == S_THREAD_LOCAL_VARIABLES {
        larger(shared, 3)
    } else {
        shared
    }
}

/// Whether sections differ at most in the least alignment of those before the given one, which is
/// as needed.
pub open spec fn aligned_up_to<'data>(
    sections: &OutputSections<'data>,
    before: &OutputSections<'data>,
    sizes: &OutputSectionPartMap<u64>,
    count: int,
) -> bool {
    &&& sections.infos().len() == before.infos().len()
    &&& forall|i: int|
        0 <= i < before.infos().len() ==> #[trigger] sections.infos()[i] == (SectionOutputInfo {
            min_alignment: sections.infos()[i].min_alignment,
            ..before.infos()[i]
        })
    &&& forall|i: int|
        0 <= i < before.infos().len() ==> (#[trigger] sections.infos()[i]).min_alignment.exp() == (
        if i < count {
            needed_exponent(before, sizes, i)
        } else {
            before.infos()[i].min_alignment.exp()
        })
}

proof fn lemma_tls_exponent<'data>(
    sections: &OutputSections<'data>,
    sizes: &OutputSectionPartMap<u64>,
    count: int,
    index: int,
)
    requires
        sections.infos()[index].section_attributes.tls,
        0 <= index < count,
        index <= u32::MAX,
    ensures
        sections.infos()[index].min_alignment.exp() <= tls_exponent(sections, sizes, count),
    decreases count,
{
    if index < count - 1 {
        lemma_tls_exponent(sections, sizes, count - 1, index);
    }
}

fn find_tls_alignment<'data>(
    sections: &OutputSections<'data>,
    sizes: &OutputSectionPartMap<u64>,
) -> (alignment: Alignment)
    requires
        sections.wf(),
        sizes.wf(),
        sizes.dense() == sections.platform.built_in_part_count(),
    ensures
        alignment.exp() == tls_exponent(sections, sizes, sections.count()),
{
    let mut alignment: Alignment = Alignment::from_exponent(0);
    let count: usize = sections.num_sections();
    let mut i: usize = 0;
    while i < count
        invariant
            i <= count,
            count == sections.count(),
            sections.wf(),
            sizes.wf(),
            sizes.dense() == sections.platform.built_in_part_count(),
            alignment.exp() == tls_exponent(sections, sizes, i as int),
        decreases count - i,
    {
        assert(sections.platform.base_part(sections.count()) <= u32::MAX);
        let id: OutputSectionId = OutputSectionId(i as u32);
        if sections.section_flags(id).tls {
            alignment = alignment.max(sizes.max_alignment(id, sections));
        }
        i = i + 1;
    }
    alignment
}

/// Aligns thread-local data and the descriptors of thread-local variables. All sections of the
/// former end up with the same alignment.
pub fn finalise_output_section_alignments<'data>(
    sizes: &OutputSectionPartMap<u64>,
    sections: &mut OutputSections<'data>,
)
    requires
        old(sections).wf(),
        sizes.wf(),
        sizes.dense() == old(sections).platform.built_in_part_count(),
    ensures
        final(sections).wf(),
        final(sections).same_besides_infos(old(sections)),
        final(sections).custom_by_identity@ == old(sections).custom_by_identity@,
        aligned_up_to(final(sections), old(sections), sizes, old(sections).count()),
        forall|i: int|
            0 <= i < old(sections).count() && (#[trigger] old(
                sections,
            ).infos()[i]).section_attributes.tls && old(
                sections,
            ).infos()[i].section_attributes.ty != S_THREAD_LOCAL_VARIABLES
                ==> final(sections).infos()[i].min_alignment.exp() == tls_exponent(
                old(sections),
                sizes,
                old(sections).count(),
            ),
{
    let tls_alignment: Alignment = find_tls_alignment(sections, sizes);
    let count: usize = sections.num_sections();
    let mut i: usize = 0;
    while i < count
        invariant
            i <= count,
            count == old(sections).count(),
            count == sections.count(),
            sections.wf(),
            sections.same_besides_infos(old(sections)),
            sections.custom_by_identity@ == old(sections).custom_by_identity@,
            tls_alignment.exp() == tls_exponent(
                old(sections),
                sizes,
                old(sections).count(),
            ),
            aligned_up_to(sections, old(sections), sizes, i as int),
        decreases count - i,
    {
        assert(sections.platform.base_part(sections.count()) <= u32::MAX);
        let id: OutputSectionId = OutputSectionId(i as u32);
        let ghost before = sections.infos();
        assert(before[i as int].section_attributes == old(sections).infos()[i as int].section_attributes);
        if sections.section_flags(id).tls {
            sections.bump_min_alignment(id, tls_alignment);
        }
        if sections.section_flags(id).ty == S_THREAD_LOCAL_VARIABLES as u32 {
            sections.bump_min_alignment(id, Alignment::address());
        }
        assert forall|k: int| 0 <= k < count implies (#[trigger] sections.infos()[k]).min_alignment.exp() == (
        if k < i + 1 {
            needed_exponent(old(sections), sizes, k)
        } else {
            old(sections).infos()[k].min_alignment.exp()
        }) by {
            assert(k != i ==> sections.infos()[k] == before[k]);
        }
        assert forall|k: int| 0 <= k < count implies #[trigger] sections.infos()[k] == (
        SectionOutputInfo {
            min_alignment: sections.infos()[k].min_alignment,
            ..old(sections).infos()[k]
        }) by {
            assert(before[k] == (SectionOutputInfo {
                min_alignment: before[k].min_alignment,
                ..old(sections).infos()[k]
            }));
        }
        i = i + 1;
    }
    proof {
        assert forall|i: int|
            0 <= i < old(sections).count() && (#[trigger] old(
                sections,
            ).infos()[i]).section_attributes.tls && old(sections).infos()[i].section_attributes.ty
                != S_THREAD_LOCAL_VARIABLES implies sections.infos()[i].min_alignment.exp()
            == tls_exponent(old(sections), sizes, old(sections).count()) by {
            assert(old(sections).platform.base_part(old(sections).count()) <= u32::MAX);
            lemma_tls_exponent(old(sections), sizes, old(sections).count(), i);
        }
    }
}

/// The name of a section in messages: the segment and the section, with a comma between them, or
/// only the section if it belongs to no segment.
pub fn section_identity_text(section_name: &[u8], segment_name: Option<&[u8]>) -> (text: Vec<u8>)
    ensures
        text@ == (match segment_name {
            Some(segment_name) => segment_name@ + seq![0x2cu8] + section_name@,
            None => section_name@,
        }),
{
    let mut text: Vec<u8> = Vec::new();
    if let Some(segment_name) = segment_name {
        append_bytes(&mut text, segment_name);
        text.push(0x2c);
    }
    append_bytes(&mut text, section_name);
    assert(text@ =~= match segment_name {
        Some(segment_name) => segment_name@ + seq![0x2cu8] + section_name@,
        None => section_name@,
    });
    text
}

} // verus!
