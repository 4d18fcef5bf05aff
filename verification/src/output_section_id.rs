//! Output sections, and the parts that they are made of, are known by small integers.
//!
//! A platform has a number of sections that consist of one part, then sections that have one part
//! for each alignment, largest alignment first. Sections that an input file or a linker script
//! adds come after those.
use crate::alignment::{Alignment, NUM_ALIGNMENTS};
use crate::output_sections::SectionAttributes;
use vstd::arithmetic::div_mod::*;
use vstd::prelude::*;

verus! {

/// An ID for an output section. It is independent of the order in which sections are emitted.
#[derive(Clone, Copy, Debug, PartialEq, Eq, PartialOrd, Ord, Hash, Structural)]
pub struct OutputSectionId(pub u32);

/// An ID for a part of an output section.
#[derive(Clone, Copy, Debug, PartialEq, Eq, PartialOrd, Ord, Hash, Structural)]
pub struct PartId(pub u32);

/// The parts of one section: those from `start` up to and without `end`.
#[derive(Clone, Copy, Debug, PartialEq, Eq, Structural)]
pub struct PartRange {
    pub start: PartId,
    pub end: PartId,
}

/// The single-part sections that every platform has.
#[derive(Clone, Copy, Debug, PartialEq, Eq, Structural)]
pub enum CommonSinglePartSectionId {
    Unmapped,
    FileHeader,
}

pub const NUM_COMMON_SINGLE_PART_SECTIONS: u32 = 2;

/// How many sections of each kind a platform has, and where some of them stand.
#[derive(Clone, Copy, Debug, PartialEq, Eq, Structural)]
pub struct PlatformSections {
    pub num_single_part_sections: u32,
    pub num_built_in_regular_sections: u32,
    pub text_section_id: Option<OutputSectionId>,
    pub data_section_id: Option<OutputSectionId>,
    pub bss_section_id: Option<OutputSectionId>,
    pub comment_section_id: Option<OutputSectionId>,
    pub note_gnu_build_id_section_id: Option<OutputSectionId>,
    pub relro_padding_section_id: Option<OutputSectionId>,
    /// Whether the name of a section is all there is to its identity.
    pub identity_from_name: bool,
    /// The attributes of a section that nothing has been put into.
    pub default_attributes: SectionAttributes,
}

/// The number of parts of a regular section.
#[verifier::inline]
pub open spec fn parts_per_section() -> int {
    17
}

impl CommonSinglePartSectionId {
    pub open spec fn index(self) -> u32 {
        match self {
            CommonSinglePartSectionId::Unmapped => 0,
            CommonSinglePartSectionId::FileHeader => 1,
        }
    }

    /// The only part of the section.
    pub fn part_id(self) -> (id: PartId)
        ensures
            id.0 == self.index(),
    {
        PartId(self.output_section_id().0)
    }

    pub fn output_section_id(self) -> (id: OutputSectionId)
        ensures
            id.0 == self.index(),
    {
        match self {
            CommonSinglePartSectionId::Unmapped => OutputSectionId(0),
            CommonSinglePartSectionId::FileHeader => OutputSectionId(1),
        }
    }
}

/// The section that stands for the file header.
pub fn file_header() -> (id: OutputSectionId)
    ensures
        id.0 == 1,
{
    CommonSinglePartSectionId::FileHeader.output_section_id()
}

impl PlatformSections {
    /// Whether the platform's own sections and parts can be numbered with 32 bits.
    pub open spec fn wf(self) -> bool {
        &&& NUM_COMMON_SINGLE_PART_SECTIONS <= self.num_single_part_sections
        &&& self.num_single_part_sections + self.num_built_in_regular_sections
            * parts_per_section() <= u32::MAX
    }

    /// The first section that has one part for each alignment.
    pub open spec fn regular_base(self) -> int {
        self.num_single_part_sections as int
    }

    pub open spec fn built_in_count(self) -> int {
        self.num_single_part_sections + self.num_built_in_regular_sections
    }

    /// The number of parts that belong to the platform's own sections.
    pub open spec fn built_in_part_count(self) -> int {
        self.num_single_part_sections + self.num_built_in_regular_sections * parts_per_section()
    }

    /// The first part of a section, as a number.
    pub open spec fn base_part(self, section: int) -> int {
        if section < self.regular_base() {
            section
        } else {
            self.regular_base() + (section - self.regular_base()) * parts_per_section()
        }
    }

    pub open spec fn part_count(self, section: int) -> int {
        if section < self.regular_base() {
            1
        } else {
            parts_per_section()
        }
    }

    /// Whether every part of a section has a 32-bit number.
    pub open spec fn numbers_parts_of(self, section: OutputSectionId) -> bool {
        self.base_part(section.0 as int) + self.part_count(section.0 as int) <= u32::MAX
    }

    /// The section that a part belongs to, as a number.
    pub open spec fn section_of(self, part: int) -> int {
        if part < self.regular_base() {
            part
        } else {
            self.regular_base() + (part - self.regular_base()) / parts_per_section()
        }
    }

    /// The exponent of the alignment that a part of a regular section stands for.
    pub open spec fn exponent_of(self, part: int) -> int {
        parts_per_section() - 1 - (part - self.regular_base()) % parts_per_section()
    }

    /// The first section that has one part for each alignment.
    pub fn regular_section_base(&self) -> (id: OutputSectionId)
        ensures
            id.0 == self.regular_base(),
    {
        OutputSectionId(self.num_single_part_sections)
    }

    /// The first part of the first regular section.
    pub fn regular_part_base(&self) -> (id: PartId)
        ensures
            id.0 == self.regular_base(),
    {
        PartId(self.num_single_part_sections)
    }

    /// The number of sections that every output of the platform has.
    pub fn num_built_in_sections(&self) -> (count: u32)
        requires
            self.wf(),
        ensures
            count == self.built_in_count(),
    {
        self.num_single_part_sections + self.num_built_in_regular_sections
    }

    /// The number of parts of the platform's own sections.
    pub fn num_built_in_parts(&self) -> (count: u32)
        requires
            self.wf(),
        ensures
            count == self.built_in_part_count(),
    {
        self.num_single_part_sections + self.num_built_in_regular_sections * 17
    }

    /// The part of a section that consists of one part; `None` for a regular section.
    pub fn single_part_id(&self, section_id: OutputSectionId) -> (id: Option<PartId>)
        ensures
            id == (if section_id.0 < self.regular_base() {
                Some(PartId(section_id.0))
            } else {
                None::<PartId>
            }),
    {
        if section_id.0 < self.num_single_part_sections {
            Some(PartId(section_id.0))
        } else {
            None
        }
    }

    /// The section of a part that is the only one of its section; `None` for other parts.
    pub fn single_part_output_section_id(&self, part_id: PartId) -> (id: Option<OutputSectionId>)
        ensures
            id == (if part_id.0 < self.regular_base() {
                Some(OutputSectionId(part_id.0))
            } else {
                None::<OutputSectionId>
            }),
    {
        if part_id.0 < self.num_single_part_sections {
            Some(OutputSectionId(part_id.0))
        } else {
            None
        }
    }
}

impl OutputSectionId {
    pub fn as_u32(self) -> (raw: u32)
        ensures
            raw == self.0,
    {
        self.0
    }

    pub fn as_usize(self) -> (raw: usize)
        ensures
            raw == self.0,
    {
        self.0 as usize
    }

    pub fn from_u32(raw: u32) -> (id: OutputSectionId)
        ensures
            id.0 == raw,
    {
        OutputSectionId(raw)
    }

    pub fn from_usize(value: usize) -> (id: OutputSectionId)
        requires
            value <= u32::MAX,
        ensures
            id.0 == value,
    {
        OutputSectionId(value as u32)
    }

    /// The section `offset` places after this one.
    pub fn offset(self, offset: usize) -> (id: OutputSectionId)
        requires
            self.0 + offset <= u32::MAX,
        ensures
            id.0 == self.0 + offset,
    {
        OutputSectionId(self.0 + offset as u32)
    }

    /// Whether the section has one part for each alignment.
    pub fn is_regular(self, platform: &PlatformSections) -> (regular: bool)
        ensures
            regular == (self.0 >= platform.regular_base()),
    {
        self.0 >= platform.num_single_part_sections
    }

    /// Whether the section is not one of the platform's own.
    pub fn is_custom(self, platform: &PlatformSections) -> (custom: bool)
        requires
            platform.wf(),
        ensures
            custom == (self.0 >= platform.built_in_count()),
    {
        self.0 >= platform.num_built_in_sections()
    }

    /// The first part of this section.
    pub fn base_part_id(self, platform: &PlatformSections) -> (id: PartId)
        requires
            platform.numbers_parts_of(self),
        ensures
            id.0 == platform.base_part(self.0 as int),
    {
        match platform.single_part_id(self) {
            Some(part_id) => part_id,
            None => PartId(
                platform.num_single_part_sections + (self.0 - platform.num_single_part_sections)
                    * 17,
            ),
        }
    }

    /// The number of parts of this section.
    pub fn num_parts(self, platform: &PlatformSections) -> (count: usize)
        ensures
            count == platform.part_count(self.0 as int),
    {
        if self.is_regular(platform) {
            NUM_ALIGNMENTS
        } else {
            1
        }
    }

    /// All parts of this section.
    pub fn part_id_range(self, platform: &PlatformSections) -> (range: PartRange)
        requires
            platform.numbers_parts_of(self),
        ensures
            range.start.0 == platform.base_part(self.0 as int),
            range.end.0 == platform.base_part(self.0 as int) + platform.part_count(self.0 as int),
    {
        let start: PartId = self.base_part_id(platform);
        PartRange { start, end: start.offset(self.num_parts(platform)) }
    }

    /// The parts of this section, first to last.
    pub fn parts(self, platform: &PlatformSections) -> (parts: Vec<PartId>)
        requires
            platform.numbers_parts_of(self),
        ensures
            parts@ == Seq::new(
                platform.part_count(self.0 as int) as nat,
                |i: int| PartId((platform.base_part(self.0 as int) + i) as u32),
            ),
    {
        let range: PartRange = self.part_id_range(platform);
        let mut parts: Vec<PartId> = Vec::new();
        let mut next: u32 = range.start.0;
        while next < range.end.0
            invariant
                range.start.0 <= next <= range.end.0,
                parts@ == Seq::new(
                    (next - range.start.0) as nat,
                    |i: int| PartId((range.start.0 + i) as u32),
                ),
            decreases range.end.0 - next,
        {
            parts.push(PartId(next));
            next = next + 1;
        }
        parts
    }

    /// The part of this section that has the given alignment. Only regular sections have one.
    pub fn part_id_with_alignment(
        self,
        platform: &PlatformSections,
        alignment: Alignment,
    ) -> (id: PartId)
        requires
            self.0 >= platform.regular_base(),
            platform.numbers_parts_of(self),
        ensures
            id.0 == platform.base_part(self.0 as int) + parts_per_section() - 1 - alignment.exp(),
            alignment.exp() < parts_per_section(),
    {
        PartId(self.base_part_id(platform).0 + 16 - alignment.exponent() as u32)
    }
}

impl PartId {
    pub fn as_u32(self) -> (raw: u32)
        ensures
            raw == self.0,
    {
        self.0
    }

    pub fn as_usize(self) -> (raw: usize)
        ensures
            raw == self.0,
    {
        self.0 as usize
    }

    pub fn from_u32(raw: u32) -> (id: PartId)
        ensures
            id.0 == raw,
    {
        PartId(raw)
    }

    pub fn from_usize(value: usize) -> (id: PartId)
        requires
            value <= u32::MAX,
        ensures
            id.0 == value,
    {
        PartId(value as u32)
    }

    /// The part `offset` places after this one.
    pub fn offset(self, offset: usize) -> (id: PartId)
        requires
            self.0 + offset <= u32::MAX,
        ensures
            id.0 == self.0 + offset,
    {
        PartId(self.0 + offset as u32)
    }

    /// The section that this part belongs to.
    pub fn output_section_id(self, platform: &PlatformSections) -> (id: OutputSectionId)
        ensures
            id.0 == platform.section_of(self.0 as int),
    {
        match platform.single_part_output_section_id(self) {
            Some(section_id) => section_id,
            None => {
                proof {
                    lemma_part_division((self.0 - platform.regular_base()) as int);
                }
                OutputSectionId(
                    platform.num_single_part_sections + (self.0 - platform.num_single_part_sections)
                        / 17,
                )
            },
        }
    }

    /// The alignment that this part of a regular section stands for.
    pub fn regular_alignment(self, platform: &PlatformSections) -> (alignment: Alignment)
        requires
            self.0 >= platform.regular_base(),
        ensures
            alignment.exp() == platform.exponent_of(self.0 as int),
    {
        Alignment::from_exponent(
            16 - ((self.0 - platform.num_single_part_sections) % 17) as u8,
        )
    }
}

/// The parts of the platform's own sections, first to last.
pub fn built_in_part_ids(platform: &PlatformSections) -> (parts: Vec<PartId>)
    requires
        platform.wf(),
    ensures
        parts@ == Seq::new(platform.built_in_part_count() as nat, |i: int| PartId(i as u32)),
{
    let count: u32 = platform.num_built_in_parts();
    let mut parts: Vec<PartId> = Vec::new();
    let mut next: u32 = 0;
    while next < count
        invariant
            next <= count,
            parts@ == Seq::new(next as nat, |i: int| PartId(i as u32)),
        decreases count - next,
    {
        parts.push(PartId(next));
        next = next + 1;
    }
    parts
}

proof fn lemma_part_division(offset: int)
    requires
        offset >= 0,
    ensures
        0 <= offset / 17 <= offset,
        0 <= offset % 17 < 17,
        offset == 17 * (offset / 17) + offset % 17,
{
}

/// Every part of a section belongs to that section, and to no other.
pub proof fn lemma_part_round_trip(platform: PlatformSections, section: int, part: int)
    requires
        0 <= section,
    ensures
        platform.base_part(section) <= part < platform.base_part(section) + platform.part_count(
            section,
        ) <==> (0 <= part && platform.section_of(part) == section),
{
    let base = platform.regular_base();
    if part >= base {
        lemma_part_division(part - base);
    }
}

/// The part that a regular section has for an alignment stands for that alignment, and the
/// alignments of its parts lead back to those parts.
pub proof fn lemma_alignment_round_trip(platform: PlatformSections, section: int, part: int)
    requires
        platform.regular_base() <= section,
        platform.base_part(section) <= part < platform.base_part(section) + parts_per_section(),
    ensures
        0 <= platform.exponent_of(part) < parts_per_section(),
        part == platform.base_part(section) + parts_per_section() - 1 - platform.exponent_of(part),
{
    let offset = part - platform.base_part(section);
    lemma_fundamental_div_mod_converse_mod(
        part - platform.regular_base(),
        17,
        section - platform.regular_base(),
        offset,
    );
}

/// The parts of different sections are disjoint and in the order of the sections.
pub proof fn lemma_parts_in_section_order(platform: PlatformSections, first: int, second: int)
    requires
        0 <= first < second,
    ensures
        platform.base_part(first) + platform.part_count(first) <= platform.base_part(second),
{
}

} // verus!
