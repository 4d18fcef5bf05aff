//! The sections of input files and where they go.
use crate::alignment::Alignment;
use crate::layout_state;
use crate::output_section_id::{OutputSectionId, PartId};
use crate::output_section_part_map::OutputSectionPartMap;
use crate::output_sections::OutputSections;
use vstd::arithmetic::power2::*;
use vstd::prelude::*;

verus! {

/// A section of an input file that is loaded.
#[derive(Clone, Copy, Debug, PartialEq, Eq, Structural)]
pub struct Section {
    /// The size in the output. Relaxation may make it smaller than in the input.
    pub size: u64,
    pub alignment: Alignment,
}

/// A loaded section that is sorted among others.
#[derive(Clone, Copy, Debug, PartialEq, Eq, Structural)]
pub struct SortedSection {
    pub address: u64,
    pub section: Section,
}

/// What is to be done with a section when it is loaded.
#[derive(Clone, Copy, Debug, PartialEq, Eq, Structural)]
pub struct UnloadedSection {
    pub needs_sorting: bool,
    pub sort_by_init_priority: bool,
    pub sort_by_alignment: bool,
}

/// What becomes of a section of an input file.
#[derive(Clone, Copy, Debug, PartialEq, Eq, Structural)]
pub enum SectionSlot {
    /// The section is left out.
    Discard,
    /// The section is loaded if something refers to it.
    Unloaded(UnloadedSection),
    /// The section is loaded in any case.
    MustLoad(UnloadedSection),
    Loaded(Section),
    Sorted(SortedSection),
    /// Exception frames, with the index of the section.
    FrameData(usize),
    /// Strings that are merged with those of other sections.
    MergeStrings,
    UnloadedDebugInfo,
    LoadedDebugInfo(Section),
    NoteGnuProperty(usize),
    RiscvVAttributes(usize),
}

/// A section of an input file and the part of the output that it goes into.
#[derive(Clone, Copy, Debug, PartialEq, Eq, Structural)]
pub struct InputSection {
    pub slot: SectionSlot,
    pub part_id: PartId,
    /// Sections of this part follow each other without padding.
    pub packed: bool,
    pub executable: bool,
}

/// Where an input section is.
#[derive(Clone, Copy, Debug, PartialEq, Eq, Structural)]
pub struct InputSectionPosition {
    pub part_id: PartId,
    pub address: u64,
}

/// The size of a section in its part: its size rounded up to the alignment of the part, or just
/// its size if the part is packed. `None` if it is not a 64-bit number.
pub open spec fn capacity_of<'data>(
    section: Section,
    part_id: PartId,
    packed: bool,
    sections: &OutputSections<'data>,
) -> Option<u64> {
    if packed {
        Some(section.size)
    } else {
        layout_state::up(Alignment::of_exp(sections.alignment_of(part_id)), section.size)
    }
}

/// Where a section goes if the next free offset of its part is given, and the offset after it.
/// Inputs that are placed in the order of the command line get their own alignment.
pub open spec fn advanced<'data>(
    offset: u64,
    section: Section,
    part_id: PartId,
    packed: bool,
    sections: &OutputSections<'data>,
) -> Option<(u64, u64)> {
    let id = OutputSectionId(sections.platform.section_of(part_id.0 as int) as u32);
    if sections.info(id).input_order {
        match layout_state::up(section.alignment, offset) {
            None => None,
            Some(address) => match layout_state::plus(address, section.size) {
                None => None,
                Some(end) => Some((address, end)),
            },
        }
    } else {
        match capacity_of(section, part_id, packed, sections) {
            None => None,
            Some(capacity) => match layout_state::plus(offset, capacity) {
                None => None,
                Some(end) => Some((offset, end)),
            },
        }
    }
}

/// The offset of a part; parts that nothing is known of start at 0.
pub open spec fn offset_of(offsets: Map<u32, u64>, part_id: PartId) -> u64 {
    if offsets.contains_key(part_id.0) {
        offsets[part_id.0]
    } else {
        0
    }
}

/// The section that a slot places in its part.
pub open spec fn placed_section(slot: SectionSlot) -> Option<Section> {
    match slot {
        SectionSlot::Loaded(section) => Some(section),
        SectionSlot::LoadedDebugInfo(section) => Some(section),
        _ => None,
    }
}

/// Places one section of an object. Returns where it is and the new offsets.
pub open spec fn position_step<'data>(
    input: InputSection,
    offsets: Map<u32, u64>,
    sections: &OutputSections<'data>,
) -> Option<(Option<InputSectionPosition>, Map<u32, u64>)> {
    match placed_section(input.slot) {
        None => Some((None, offsets)),
        Some(section) => match advanced(
            offset_of(offsets, input.part_id),
            section,
            input.part_id,
            input.packed,
            sections,
        ) {
            None => None,
            Some((address, end)) => Some(
                (
                    if input.slot is Loaded {
                        Some(InputSectionPosition { part_id: input.part_id, address })
                    } else {
                        None
                    },
                    offsets.insert(input.part_id.0, end),
                ),
            ),
        },
    }
}

/// The positions of the first `count` sections of an object, and the offsets after them. Debug
/// information takes up space too, but its position is not of interest. `None` if an address is
/// not a 64-bit number.
pub open spec fn positions_after<'data>(
    inputs: Seq<InputSection>,
    offsets: Map<u32, u64>,
    sections: &OutputSections<'data>,
    count: int,
) -> Option<(Seq<Option<InputSectionPosition>>, Map<u32, u64>)>
    decreases count,
{
    if count <= 0 {
        Some((Seq::empty(), offsets))
    } else {
        match positions_after(inputs, offsets, sections, count - 1) {
            None => None,
            Some((positions, before)) => match position_step(inputs[count - 1], before, sections) {
                None => None,
                Some((position, after)) => Some((positions.push(position), after)),
            },
        }
    }
}

/// Whether all sections go into parts that exist.
pub open spec fn inputs_wf<'data>(
    inputs: Seq<InputSection>,
    sections: &OutputSections<'data>,
) -> bool {
    forall|i: int|
        0 <= i < inputs.len() ==> sections.platform.section_of(
            (#[trigger] inputs[i]).part_id.0 as int,
        ) < sections.count()
}

impl Section {
    /// Makes a section of the size and alignment that an input file gives. An alignment of 0 means
    /// that the section need not be aligned. `None` if the alignment is not supported.
    pub fn create(size: u64, raw_alignment: u64) -> (section: Option<Section>)
        ensures
            match section {
                Some(section) => section.size == size && section.alignment.exp() <= 16
                    && section.alignment.bytes() == (if raw_alignment
                    == 0 {
                    1
                } else {
                    raw_alignment as int
                }),
                None => forall|exponent: nat|
                    exponent <= 16 ==> #[trigger] pow2(exponent) != raw_alignment && raw_alignment
                        != 0,
            },
    {
        let raw: u64 = if raw_alignment == 0 {
            1
        } else {
            raw_alignment
        };
        match Alignment::new(raw) {
            Some(alignment) => Some(Section { size, alignment }),
            None => {
                proof {
                    lemma2_to64();
                }
                None
            },
        }
    }

    /// How much space the section takes up in its part.
    pub fn capacity<'data>(
        self,
        part_id: PartId,
        packed: bool,
        sections: &OutputSections<'data>,
    ) -> (capacity: Option<u64>)
        requires
            sections.wf(),
        ensures
            capacity == capacity_of(self, part_id, packed, sections),
    {
        if packed {
            Some(self.size)
        } else {
            let alignment: Alignment = sections.part_alignment(part_id);
            proof {
                alignment.lemma_of_exp();
            }
            alignment.checked_align_up(self.size)
        }
    }

    /// The address of a section that goes to the given offset, and where it ends.
    pub fn place(self, offset: u64) -> (placed: (u64, u64))
        requires
            crate::alignment::round_up(offset as int, self.alignment.bytes()) + self.size
                <= u64::MAX,
        ensures
            placed.0 == crate::alignment::round_up(offset as int, self.alignment.bytes()),
            placed.1 == placed.0 + self.size,
    {
        let address: u64 = self.alignment.align_up(offset);
        (address, address + self.size)
    }
}

impl SectionSlot {
    /// Whether the contents of the section are in the output.
    pub open spec fn spec_is_loaded(self) -> bool {
        !(self is Discard || self is Unloaded)
    }

    /// Whether the contents of the section are in the output.
    pub fn is_loaded(self) -> (loaded: bool)
        ensures
            loaded == self.spec_is_loaded(),
    {
        match self {
            SectionSlot::Discard | SectionSlot::Unloaded(_) => false,
            _ => true,
        }
    }
}

/// Where a section goes if the next free offset of its part is given, and the offset after it.
pub fn advance_section_offset<'data>(
    offset: u64,
    section: Section,
    part_id: PartId,
    packed: bool,
    sections: &OutputSections<'data>,
) -> (result: Option<(u64, u64)>)
    requires
        sections.wf(),
        sections.platform.section_of(part_id.0 as int) < sections.count(),
    ensures
        result == advanced(offset, section, part_id, packed, sections),
{
    let id: OutputSectionId = part_id.output_section_id(&sections.platform);
    if sections.uses_input_order(id) {
        let aligned: Option<u64> = section.alignment.checked_align_up(offset);
        match aligned {
            None => None,
            Some(address) => match address.checked_add(section.size) {
                None => None,
                Some(_) => Some(section.place(offset)),
            },
        }
    } else {
        match section.capacity(part_id, packed, sections) {
            None => None,
            Some(capacity) => match offset.checked_add(capacity) {
                None => None,
                Some(end) => Some((offset, end)),
            },
        }
    }
}

proof fn lemma_positions_none<'data>(
    inputs: Seq<InputSection>,
    offsets: Map<u32, u64>,
    sections: &OutputSections<'data>,
    count: int,
    total: int,
)
    requires
        0 <= count <= total,
        positions_after(inputs, offsets, sections, count) is None,
    ensures
        positions_after(inputs, offsets, sections, total) is None,
    decreases total - count,
{
    if count < total {
        lemma_positions_none(inputs, offsets, sections, count + 1, total);
    }
}

/// Places the sections of an object, each after those that came before it in its part. `None` if
/// an address is not a 64-bit number.
pub fn compute_object_section_positions<'data>(
    inputs: &Vec<InputSection>,
    offsets: &mut OutputSectionPartMap<u64>,
    sections: &OutputSections<'data>,
) -> (positions: Option<Vec<Option<InputSectionPosition>>>)
    requires
        sections.wf(),
        inputs_wf(inputs@, sections),
        old(offsets).wf(),
    ensures
        final(offsets).wf(),
        final(offsets).dense() == old(offsets).dense(),
        match positions {
            Some(positions) => positions_after(
                inputs@,
                old(offsets)@,
                sections,
                inputs@.len() as int,
            ) == Some((positions@, final(offsets)@)),
            None => positions_after(inputs@, old(offsets)@, sections, inputs@.len() as int) is None,
        },
{
    let ghost before = offsets@;
    let mut positions: Vec<Option<InputSectionPosition>> = Vec::new();
    let mut i: usize = 0;
    while i < inputs.len()
        invariant
            i <= inputs@.len(),
            sections.wf(),
            inputs_wf(inputs@, sections),
            before == old(offsets)@,
            offsets.wf(),
            offsets.dense() == old(offsets).dense(),
            positions_after(inputs@, before, sections, i as int) == Some((positions@, offsets@)),
        decreases inputs@.len() - i,
    {
        let input: InputSection = inputs[i];
        let mut position: Option<InputSectionPosition> = None;
        let placed: Option<Section> = match input.slot {
            SectionSlot::Loaded(section) => Some(section),
            SectionSlot::LoadedDebugInfo(section) => Some(section),
            _ => None,
        };
        if let Some(section) = placed {
            match advance_section_offset(
                offsets.get(input.part_id),
                section,
                input.part_id,
                input.packed,
                sections,
            ) {
                Some((address, end)) => {
                    offsets.set(input.part_id, end);
                    if let SectionSlot::Loaded(_) = input.slot {
                        position = Some(InputSectionPosition { part_id: input.part_id, address });
                    }
                },
                None => {
                    proof {
                        lemma_positions_none(
                            inputs@,
                            before,
                            sections,
                            i + 1,
                            inputs@.len() as int,
                        );
                    }
                    return None;
                },
            }
        }
        positions.push(position);
        i = i + 1;
    }
    Some(positions)
}

proof fn lemma_advanced<'data>(
    offset: u64,
    section: Section,
    part_id: PartId,
    packed: bool,
    sections: &OutputSections<'data>,
)
    ensures
        advanced(offset, section, part_id, packed, sections) matches Some((address, end)) ==> offset
            <= address && address + section.size <= end,
{
    lemma_pow2_pos(section.alignment.exp());
    crate::alignment::lemma_round_up(offset as int, section.alignment.bytes());
    let part_alignment = Alignment::of_exp(sections.alignment_of(part_id));
    lemma_pow2_pos(part_alignment.exp());
    crate::alignment::lemma_round_up(section.size as int, part_alignment.bytes());
}

proof fn lemma_offsets_grow<'data>(
    inputs: Seq<InputSection>,
    offsets: Map<u32, u64>,
    sections: &OutputSections<'data>,
    count: int,
    total: int,
    part_id: PartId,
)
    requires
        0 <= count <= total,
    ensures
        positions_after(inputs, offsets, sections, total) matches Some((late, after)) ==> {
            &&& positions_after(inputs, offsets, sections, count) matches Some((early, before))
            &&& early.len() == count
            &&& late.len() == total
            &&& offset_of(before, part_id) <= offset_of(after, part_id)
            &&& forall|i: int| 0 <= i < count ==> late[i] == #[trigger] early[i]
        },
    decreases total,
{
    if count < total {
        lemma_offsets_grow(inputs, offsets, sections, count, total - 1, part_id);
        if let Some((_, before)) = positions_after(inputs, offsets, sections, total - 1) {
            let input = inputs[total - 1];
            if let Some(section) = placed_section(input.slot) {
                lemma_advanced(
                    offset_of(before, input.part_id),
                    section,
                    input.part_id,
                    input.packed,
                    sections,
                );
            }
        }
    } else if total > 0 {
        lemma_offsets_grow(inputs, offsets, sections, total - 1, total - 1, part_id);
    }
}

/// The sections of an object that go into the same part do not overlap: each one starts after
/// those before it have ended.
pub proof fn lemma_input_sections_follow<'data>(
    inputs: Seq<InputSection>,
    offsets: Map<u32, u64>,
    sections: &OutputSections<'data>,
    i: int,
    j: int,
)
    requires
        0 <= i < j < inputs.len(),
        inputs[i].part_id == inputs[j].part_id,
        inputs[i].slot is Loaded,
        inputs[j].slot is Loaded,
    ensures
        positions_after(inputs, offsets, sections, inputs.len() as int) matches Some(
            (positions, _),
        ) ==> positions[i]->0.address + inputs[i].slot->Loaded_0.size <= positions[j]->0.address,
{
    let total = inputs.len() as int;
    let part_id = inputs[i].part_id;
    if let Some((positions, _)) = positions_after(inputs, offsets, sections, total) {
        lemma_offsets_grow(inputs, offsets, sections, i, total, part_id);
        lemma_offsets_grow(inputs, offsets, sections, i + 1, total, part_id);
        lemma_offsets_grow(inputs, offsets, sections, j, total, part_id);
        lemma_offsets_grow(inputs, offsets, sections, j + 1, total, part_id);
        lemma_offsets_grow(inputs, offsets, sections, i + 1, j, part_id);
        let (_, at_i) = positions_after(inputs, offsets, sections, i)->0;
        let (early, _) = positions_after(inputs, offsets, sections, i + 1)->0;
        let (_, at_j) = positions_after(inputs, offsets, sections, j)->0;
        let (late, _) = positions_after(inputs, offsets, sections, j + 1)->0;
        lemma_advanced(
            offset_of(at_i, part_id),
            inputs[i].slot->Loaded_0,
            part_id,
            inputs[i].packed,
            sections,
        );
        lemma_advanced(
            offset_of(at_j, part_id),
            inputs[j].slot->Loaded_0,
            part_id,
            inputs[j].packed,
            sections,
        );
        assert(positions[i] == early[i]);
        assert(positions[j] == late[j]);
    }
}

} // verus!
