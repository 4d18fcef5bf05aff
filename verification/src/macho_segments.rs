//! The segments of a Mach-O file, and which sections they hold.
use crate::macho_attributes;
use crate::macho_attributes::{MachOAttributes, SegmentName};
use crate::macho_sections;
use crate::output_section_id::{OutputSectionId, PartId, PlatformSections};
use crate::output_sections::{OutputSections, SectionKind, SectionOutputInfo};
use crate::program_segments::ProgramSegmentDef;
use vstd::prelude::*;

verus! {

/// Pages can be read.
pub const VM_PROT_READ: u32 = 1;

/// Pages can be written.
pub const VM_PROT_WRITE: u32 = 2;

/// Pages can be executed.
pub const VM_PROT_EXECUTE: u32 = 4;

/// The segment is made read-only after fixups have been applied.
pub const SG_READ_ONLY: u32 = 0x10;

/// The sections of a Mach-O file that have one part each.
#[derive(Clone, Copy, Debug, PartialEq, Eq, Structural)]
pub enum SinglePartSectionId {
    Strtab,
    Got,
    PltGot,
    SymtabGlobal,
    LinkEditSegment,
    LoadCommands,
    CodeSignature,
    ChainedFixupTable,
    ExportsTrie,
}

impl SinglePartSectionId {
    pub open spec fn index(self) -> u32 {
        match self {
            SinglePartSectionId::Strtab => 2,
            SinglePartSectionId::Got => 3,
            SinglePartSectionId::PltGot => 4,
            SinglePartSectionId::SymtabGlobal => 5,
            SinglePartSectionId::LinkEditSegment => 6,
            SinglePartSectionId::LoadCommands => 7,
            SinglePartSectionId::CodeSignature => 8,
            SinglePartSectionId::ChainedFixupTable => 9,
            SinglePartSectionId::ExportsTrie => 10,
        }
    }

    pub open spec fn id(self) -> OutputSectionId {
        OutputSectionId(self.index())
    }

    pub open spec fn part(self) -> PartId {
        PartId(self.index())
    }

    /// The only part of the section.
    pub fn part_id(self) -> (id: PartId)
        ensures
            id == self.part(),
    {
        PartId(self.output_section_id().0)
    }

    pub fn output_section_id(self) -> (id: OutputSectionId)
        ensures
            id == self.id(),
    {
        match self {
            SinglePartSectionId::Strtab => OutputSectionId(2),
            SinglePartSectionId::Got => OutputSectionId(3),
            SinglePartSectionId::PltGot => OutputSectionId(4),
            SinglePartSectionId::SymtabGlobal => OutputSectionId(5),
            SinglePartSectionId::LinkEditSegment => OutputSectionId(6),
            SinglePartSectionId::LoadCommands => OutputSectionId(7),
            SinglePartSectionId::CodeSignature => OutputSectionId(8),
            SinglePartSectionId::ChainedFixupTable => OutputSectionId(9),
            SinglePartSectionId::ExportsTrie => OutputSectionId(10),
        }
    }
}

/// The number of sections that have one part each.
pub const NUM_SINGLE_PART_SECTIONS: u32 = 11;

/// The sections that Mach-O files have. All others come from inputs.
pub open spec fn spec_platform_sections() -> PlatformSections {
    PlatformSections {
        num_single_part_sections: NUM_SINGLE_PART_SECTIONS,
        num_built_in_regular_sections: 0,
        text_section_id: None,
        data_section_id: None,
        bss_section_id: None,
        comment_section_id: None,
        note_gnu_build_id_section_id: None,
        relro_padding_section_id: None,
        identity_from_name: false,
        default_attributes: macho_sections::spec_properties(MachOAttributes::none()),
    }
}

pub fn platform_sections() -> (platform: PlatformSections)
    ensures
        platform == spec_platform_sections(),
        platform.wf(),
{
    PlatformSections {
        num_single_part_sections: NUM_SINGLE_PART_SECTIONS,
        num_built_in_regular_sections: 0,
        text_section_id: None,
        data_section_id: None,
        bss_section_id: None,
        comment_section_id: None,
        note_gnu_build_id_section_id: None,
        relro_padding_section_id: None,
        identity_from_name: false,
        default_attributes: macho_sections::properties(&MachOAttributes::empty()),
    }
}

/// A segment of a Mach-O file.
#[derive(Clone, Copy, Debug)]
pub struct MachOSegmentDef {
    pub name: SegmentName,
    /// What is allowed of the segment's pages.
    pub prot: u32,
    pub flags: u32,
}

impl MachOSegmentDef {
    /// What is allowed of the pages of a segment: the text is executed, what the linker adds is
    /// read, and all else is written.
    pub open spec fn prot_of(name: Seq<u8>) -> u32 {
        if name == macho_attributes::text_name() {
            5
        } else if name == macho_attributes::linkedit_name() {
            1
        } else {
            3
        }
    }

    pub open spec fn flags_of(name: Seq<u8>) -> u32 {
        if name == macho_attributes::data_const_name() {
            SG_READ_ONLY
        } else {
            0
        }
    }

    /// The segment with the given name.
    pub fn new(name: SegmentName) -> (def: MachOSegmentDef)
        ensures
            def.name == name,
            def.prot == MachOSegmentDef::prot_of(name.bytes@),
            def.flags == MachOSegmentDef::flags_of(name.bytes@),
    {
        proof {
            macho_attributes::lemma_known_names();
        }
        assert(1u32 | 4u32 == 5u32) by (bit_vector);
        assert(1u32 | 2u32 == 3u32) by (bit_vector);
        if name.is(SegmentName::text()) {
            MachOSegmentDef { name, prot: VM_PROT_READ | VM_PROT_EXECUTE, flags: 0 }
        } else if name.is(SegmentName::data_const()) {
            MachOSegmentDef { name, prot: VM_PROT_READ | VM_PROT_WRITE, flags: SG_READ_ONLY }
        } else if name.is(SegmentName::linkedit()) {
            MachOSegmentDef { name, prot: VM_PROT_READ, flags: 0 }
        } else {
            MachOSegmentDef { name, prot: VM_PROT_READ | VM_PROT_WRITE, flags: 0 }
        }
    }

    pub fn is_writable(self) -> (writable: bool)
        ensures
            writable == (self.prot & VM_PROT_WRITE == VM_PROT_WRITE),
    {
        self.prot & VM_PROT_WRITE == VM_PROT_WRITE
    }

    pub fn is_executable(self) -> (executable: bool)
        ensures
            executable == (self.prot & VM_PROT_EXECUTE == VM_PROT_EXECUTE),
    {
        self.prot & VM_PROT_EXECUTE == VM_PROT_EXECUTE
    }

    /// Whether the segment is emitted even if it holds nothing.
    pub fn always_keep(self) -> (keep: bool)
        ensures
            keep == (self.name.bytes@ == macho_attributes::text_name() || self.name.bytes@
                == macho_attributes::linkedit_name()),
    {
        self.name.is(SegmentName::text()) || self.name.is(SegmentName::linkedit())
    }

    pub fn is_loadable(self) -> (loadable: bool)
        ensures
            loadable,
    {
        true
    }

    pub fn is_stack(self) -> (stack: bool)
        ensures
            !stack,
    {
        false
    }

    pub fn is_tls(self) -> (tls: bool)
        ensures
            !tls,
    {
        false
    }

    /// The position of a segment among the segments.
    pub open spec fn position_of(name: Seq<u8>) -> usize {
        if name == macho_attributes::text_name() {
            0
        } else if name == macho_attributes::data_const_name() {
            1
        } else if name == macho_attributes::data_name() {
            2
        } else if name == macho_attributes::linkedit_name() {
            4
        } else {
            3
        }
    }

    /// Segments with lower values come first.
    pub fn order_key(self) -> (key: usize)
        ensures
            key == MachOSegmentDef::position_of(self.name.bytes@),
    {
        if self.name.is(SegmentName::text()) {
            0
        } else if self.name.is(SegmentName::data_const()) {
            1
        } else if self.name.is(SegmentName::data()) {
            2
        } else if self.name.is(SegmentName::linkedit()) {
            4
        } else {
            3
        }
    }

    /// What layout knows of a segment.
    pub open spec fn spec_properties(self) -> ProgramSegmentDef {
        ProgramSegmentDef {
            writable: self.prot & VM_PROT_WRITE == VM_PROT_WRITE,
            executable: self.prot & VM_PROT_EXECUTE == VM_PROT_EXECUTE,
            always_keep: self.name.bytes@ == macho_attributes::text_name() || self.name.bytes@
                == macho_attributes::linkedit_name(),
            loadable: true,
            stack: false,
            tls: false,
            order_key: MachOSegmentDef::position_of(self.name.bytes@),
        }
    }

    /// What layout knows of a segment.
    pub fn properties(self) -> (def: ProgramSegmentDef)
        ensures
            def == self.spec_properties(),
    {
        ProgramSegmentDef {
            writable: self.is_writable(),
            executable: self.is_executable(),
            always_keep: self.always_keep(),
            loadable: self.is_loadable(),
            stack: self.is_stack(),
            tls: self.is_tls(),
            order_key: self.order_key(),
        }
    }
}

/// The name of the segment that a primary section asks for.
pub open spec fn segment_of(kind: SectionKind) -> Option<Seq<u8>> {
    match kind {
        SectionKind::Primary(identity) => match identity.format_specific {
            Some(bytes) => Some(bytes@),
            None => None,
        },
        SectionKind::Secondary(_) => None,
    }
}

/// Whether a segment holds a section. The headers are in the text segment, the tables that the
/// linker writes are in the segment for them, and other sections are where they ask to be.
pub open spec fn included(segment: Seq<u8>, kind: SectionKind, id: OutputSectionId) -> bool {
    if id.0 == 1 || id == SinglePartSectionId::LoadCommands.id() {
        segment == macho_attributes::text_name()
    } else if id == SinglePartSectionId::Strtab.id() || id
        == SinglePartSectionId::ChainedFixupTable.id() || id
        == SinglePartSectionId::SymtabGlobal.id() || id == SinglePartSectionId::ExportsTrie.id()
        || id == SinglePartSectionId::CodeSignature.id() {
        segment == macho_attributes::linkedit_name()
    } else {
        segment_of(kind) == Some(segment)
    }
}

/// The segment that a primary section asks for.
pub fn requested_segment(kind: SectionKind) -> (segment: Option<SegmentName>)
    ensures
        match (segment, segment_of(kind)) {
            (Some(name), Some(expected)) => name.bytes@ == expected,
            (None, None) => true,
            _ => false,
        },
{
    match kind {
        SectionKind::Primary(identity) => match identity.format_specific {
            Some(bytes) => Some(SegmentName { bytes }),
            None => None,
        },
        SectionKind::Secondary(_) => None,
    }
}

/// Whether a segment holds a section.
pub fn program_segment_should_include_section(
    segment_def: MachOSegmentDef,
    section_info: &SectionOutputInfo,
    section_id: OutputSectionId,
) -> (holds: bool)
    ensures
        holds == included(segment_def.name.bytes@, section_info.kind, section_id),
{
    if section_id.0 == 1 || section_id.0 == SinglePartSectionId::LoadCommands.output_section_id().0 {
        segment_def.name.is(SegmentName::text())
    } else if section_id.0 == SinglePartSectionId::Strtab.output_section_id().0 || section_id.0
        == SinglePartSectionId::ChainedFixupTable.output_section_id().0 || section_id.0
        == SinglePartSectionId::SymtabGlobal.output_section_id().0 || section_id.0
        == SinglePartSectionId::ExportsTrie.output_section_id().0 || section_id.0
        == SinglePartSectionId::CodeSignature.output_section_id().0 {
        segment_def.name.is(SegmentName::linkedit())
    } else {
        match requested_segment(section_info.kind) {
            Some(name) => name.is(segment_def.name),
            None => false,
        }
    }
}

/// Whether a segment holds a section.
pub fn should_include_in_segment<'data>(
    sections: &OutputSections<'data>,
    section_id: OutputSectionId,
    segment_def: MachOSegmentDef,
) -> (holds: bool)
    requires
        sections.has(section_id),
    ensures
        holds == included(
            segment_def.name.bytes@,
            sections.info(section_id).kind,
            section_id,
        ),
{
    let info: SectionOutputInfo<'data> = sections.output_info(section_id);
    program_segment_should_include_section(segment_def, &info, section_id)
}

/// The name under which a section has a header in a segment; `None` if it has no header there.
/// Sections that are not emitted and those that the linker adds without a segment have none.
pub open spec fn header_name<'data>(
    sections: &OutputSections<'data>,
    id: OutputSectionId,
    segment: Seq<u8>,
) -> Option<&'data [u8]> {
    match sections.info(id).kind {
        SectionKind::Primary(identity) => if sections.index_in_output(id.0 as int) is Some
            && identity.format_specific is Some && included(segment, sections.info(id).kind, id) {
            Some(identity.name)
        } else {
            None
        },
        SectionKind::Secondary(_) => None,
    }
}

/// The name under which a section has a header in a segment.
pub fn section_header_name_for_segment<'data>(
    sections: &OutputSections<'data>,
    section_id: OutputSectionId,
    segment_def: MachOSegmentDef,
) -> (name: Option<&'data [u8]>)
    requires
        sections.has(section_id),
    ensures
        name == header_name(sections, section_id, segment_def.name.bytes@),
{
    if !sections.will_emit_section(section_id) {
        return None;
    }
    match sections.identity(section_id) {
        Some(identity) => {
            if identity.format_specific.is_some() && should_include_in_segment(
                sections,
                section_id,
                segment_def,
            ) {
                Some(identity.name)
            } else {
                None
            }
        },
        None => None,
    }
}

/// How many of the first `count` sections have headers in a segment.
pub open spec fn headers_in_segment<'data>(
    sections: &OutputSections<'data>,
    segment: Seq<u8>,
    count: int,
) -> int
    decreases count,
{
    if count <= 0 {
        0
    } else {
        headers_in_segment(sections, segment, count - 1) + if header_name(
            sections,
            OutputSectionId((count - 1) as u32),
            segment,
        ) is Some {
            1int
        } else {
            0int
        }
    }
}

/// How many sections have headers in a segment.
pub fn count_sections_for_segment<'data>(
    sections: &OutputSections<'data>,
    segment_def: MachOSegmentDef,
) -> (count: usize)
    requires
        sections.wf(),
    ensures
        count == headers_in_segment(sections, segment_def.name.bytes@, sections.count()),
        count <= sections.count(),
{
    let total: usize = sections.num_sections();
    let mut count: usize = 0;
    let mut i: usize = 0;
    while i < total
        invariant
            i <= total,
            total == sections.count(),
            sections.wf(),
            count <= i,
            count == headers_in_segment(sections, segment_def.name.bytes@, i as int),
        decreases total - i,
    {
        assert(sections.platform.base_part(sections.count()) <= u32::MAX);
        if section_header_name_for_segment(
            sections,
            OutputSectionId(i as u32),
            segment_def,
        ).is_some() {
            count = count + 1;
        }
        i = i + 1;
    }
    count
}

} // verus!
