//! Loading sections of object files: what is loaded, and what that adds to the output.
use crate::alignment::Alignment;
use crate::groups::{ObjectState, ScriptSortedSectionDetail};
use crate::hash_maps::IdMap;
use crate::input_sections;
use crate::input_sections::{InputSection, Section, SectionSlot, SortedSection, UnloadedSection};
use crate::layout_state;
use crate::macho_attributes::MachOAttributes;
use crate::macho_sections;
use crate::output_section_id::{OutputSectionId, PartId};
use crate::output_section_part_map::OutputSectionPartMap;
use crate::output_sections::{OutputSections, SectionOutputInfo};
use crate::small_lists::IndexList;
use vstd::prelude::*;

verus! {

/// What is collected by garbage collection: a section of an object file.
#[derive(Clone, Copy, Debug, PartialEq, Eq, Structural)]
pub struct SectionGcUnit(pub u32);

impl SectionGcUnit {
    pub fn new(section_index: usize) -> (unit: SectionGcUnit)
        requires
            section_index <= u32::MAX,
        ensures
            unit.0 == section_index,
    {
        SectionGcUnit(section_index as u32)
    }

    pub fn section_index(self) -> (index: usize)
        ensures
            index == self.0,
    {
        self.0 as usize
    }
}

/// The attributes of the sections that have been put into each output section.
pub struct AttributeMap {
    positions: IdMap,
    values: Vec<MachOAttributes>,
}

impl View for AttributeMap {
    type V = Map<u64, MachOAttributes>;

    closed spec fn view(&self) -> Map<u64, MachOAttributes> {
        Map::new(
            |id: u64| self.positions@.contains_key(id),
            |id: u64| self.values@[self.positions@[id] as int],
        )
    }
}

impl AttributeMap {
    pub closed spec fn wf(&self) -> bool {
        &&& forall|id: u64| #[trigger]
            self.positions@.contains_key(id) ==> self.positions@[id] < self.values@.len()
        &&& forall|a: u64, b: u64|
            #![trigger self.positions@[a], self.positions@[b]]
            self.positions@.contains_key(a) && self.positions@.contains_key(b)
                && self.positions@[a] == self.positions@[b] ==> a == b
    }

    pub fn new() -> (map: AttributeMap)
        ensures
            map.wf(),
            map@ == Map::<u64, MachOAttributes>::empty(),
    {
        let map = AttributeMap { positions: IdMap::new(), values: Vec::new() };
        assert(map@ =~= Map::<u64, MachOAttributes>::empty());
        map
    }

    pub fn get(&self, id: OutputSectionId) -> (attributes: Option<MachOAttributes>)
        requires
            self.wf(),
        ensures
            attributes == (if self@.contains_key(id.0 as u64) {
                Some(self@[id.0 as u64])
            } else {
                None::<MachOAttributes>
            }),
    {
        match self.positions.get(id.0 as u64) {
            Some(position) => {
                let count: usize = self.values.len();
                assert(position < count);
                Some(self.values[position as usize])
            },
            None => None,
        }
    }

    /// Applies the attributes of the sections that have been put into each output section.
    pub fn apply<'data>(&self, sections: &mut OutputSections<'data>)
        requires
            self.wf(),
            old(sections).wf(),
            forall|id: u64| #[trigger] self@.contains_key(id) ==> id < old(sections).count(),
        ensures
            final(sections).wf(),
            final(sections).same_besides_infos(old(sections)),
            final(sections).custom_by_identity@ == old(sections).custom_by_identity@,
            final(sections).infos() == applied_up_to(
                self@,
                old(sections).infos(),
                old(sections).count(),
            ),
    {
        let count: usize = sections.num_sections();
        let mut i: usize = 0;
        assert(sections.infos() =~= applied_up_to(self@, sections.infos(), 0));
        while i < count
            invariant
                i <= count,
                count == old(sections).count(),
                count == sections.count(),
                self.wf(),
                sections.wf(),
                sections.same_besides_infos(old(sections)),
                sections.custom_by_identity@ == old(sections).custom_by_identity@,
                sections.infos() == applied_up_to(self@, old(sections).infos(), i as int),
            decreases count - i,
        {
            assert(sections.platform.base_part(sections.count()) <= u32::MAX);
            let id: OutputSectionId = OutputSectionId(i as u32);
            if let Some(attributes) = self.get(id) {
                attributes.apply(sections, id);
            }
            assert(sections.infos() =~= applied_up_to(self@, old(sections).infos(), i + 1));
            i = i + 1;
        }
    }

    /// Adds the attributes of a section that goes into an output section.
    pub fn merge(&mut self, id: OutputSectionId, attributes: MachOAttributes)
        requires
            old(self).wf(),
        ensures
            final(self).wf(),
            final(self)@ == attributes_with(old(self)@, id, attributes),
    {
        let key: u64 = id.0 as u64;
        let ghost before = self@;
        match self.positions.get(key) {
            Some(position) => {
                assert(self.positions@[key] < self.values@.len());
                let mut merged: MachOAttributes = self.values[position as usize];
                merged.merge(attributes);
                self.values.set(position as usize, merged);
                assert(self@ =~= attributes_with(before, id, attributes));
            },
            None => {
                let position: u64 = self.values.len() as u64;
                self.positions.insert(key, position);
                self.values.push(attributes);
                assert(self@ =~= attributes_with(before, id, attributes));
            },
        }
    }
}

/// What is known of output sections after the attributes of the sections that have been put into
/// them have been applied to the first `count` of them.
pub open spec fn applied_up_to<'data>(
    map: Map<u64, MachOAttributes>,
    infos: Seq<SectionOutputInfo<'data>>,
    count: int,
) -> Seq<SectionOutputInfo<'data>> {
    Seq::new(
        infos.len(),
        |i: int|
            if i < count && map.contains_key(i as u64) {
                macho_sections::with_attributes(infos[i], map[i as u64])
            } else {
                infos[i]
            },
    )
}

/// The attributes of output sections after those of one more section have been added.
pub open spec fn attributes_with(
    map: Map<u64, MachOAttributes>,
    id: OutputSectionId,
    attributes: MachOAttributes,
) -> Map<u64, MachOAttributes> {
    map.insert(
        id.0 as u64,
        if map.contains_key(id.0 as u64) {
            map[id.0 as u64].merged(attributes)
        } else {
            attributes
        },
    )
}

/// What the files of a group add to the output.
pub struct CommonGroupState {
    pub mem_sizes: OutputSectionPartMap<u64>,
    pub section_attributes: AttributeMap,
}

/// The same as mathematical objects.
pub struct CommonView {
    pub mem_sizes: Map<u32, u64>,
    pub section_attributes: Map<u64, MachOAttributes>,
}

impl CommonGroupState {
    pub open spec fn view(&self) -> CommonView {
        CommonView {
            mem_sizes: self.mem_sizes@,
            section_attributes: self.section_attributes@,
        }
    }

    pub open spec fn wf(&self) -> bool {
        self.mem_sizes.wf() && self.section_attributes.wf()
    }

    /// Nothing added.
    pub fn new<'data>(sections: &OutputSections<'data>) -> (common: CommonGroupState)
        requires
            sections.wf(),
        ensures
            common.wf(),
            common.mem_sizes.dense() == sections.platform.built_in_part_count(),
            common.mem_sizes@ == Map::new(
                |id: u32| id < sections.platform.built_in_part_count(),
                |id: u32| 0u64,
            ),
            common.section_attributes@ == Map::<u64, MachOAttributes>::empty(),
    {
        let mem_sizes: OutputSectionPartMap<u64> = sections.new_part_map();
        assert(mem_sizes@ =~= Map::new(
            |id: u32| id < sections.platform.built_in_part_count(),
            |id: u32| 0u64,
        ));
        CommonGroupState { mem_sizes, section_attributes: AttributeMap::new() }
    }

    /// Adds to the size of a part.
    pub fn allocate(&mut self, part_id: PartId, size: u64)
        requires
            old(self).wf(),
            old(self).mem_sizes.value(part_id.0) + size <= u64::MAX,
        ensures
            final(self).wf(),
            final(self).mem_sizes.dense() == old(self).mem_sizes.dense(),
            final(self).mem_sizes@ == old(self).mem_sizes@.insert(
                part_id.0,
                (old(self).mem_sizes.value(part_id.0) + size) as u64,
            ),
            final(self).section_attributes == old(self).section_attributes,
    {
        self.mem_sizes.increment(part_id, size);
    }

    /// Adds the attributes of a section to those of the output section that it goes into.
    pub fn store_section_attributes<'data>(
        &mut self,
        part_id: PartId,
        attributes: MachOAttributes,
        sections: &OutputSections<'data>,
    )
        requires
            old(self).wf(),
        ensures
            final(self).wf(),
            final(self).mem_sizes == old(self).mem_sizes,
            final(self).section_attributes@ == attributes_with(
                old(self).section_attributes@,
                OutputSectionId(sections.platform.section_of(part_id.0 as int) as u32),
                attributes,
            ),
    {
        self.section_attributes.merge(
            part_id.output_section_id(&sections.platform),
            attributes,
        );
    }
}

/// What an object file says about a section that is loaded.
#[derive(Clone, Copy, Debug, PartialEq, Eq, Structural)]
pub struct SectionHeaderInfo {
    pub size: u64,
    pub raw_alignment: u64,
    pub attributes: MachOAttributes,
    pub alloc: bool,
    pub writable: bool,
    pub executable: bool,
}

/// Why a section cannot be loaded.
#[derive(Clone, Copy, Debug, PartialEq, Eq, Structural)]
pub enum LoadError {
    UnsupportedAlignment(u64),
    /// Something refers to a section that has no place in the output.
    Discarded(usize),
    Overflow,
}

/// What loading a section asks for.
#[derive(Clone, Copy, Debug, PartialEq, Eq, Structural)]
pub struct LoadedSection {
    pub section: Section,
    /// The section can be written to and executed, which is worth a warning.
    pub warn_writable_code: bool,
    /// The section is to be sorted among others.
    pub sorted: bool,
    /// The section is empty, but its output section is to be kept.
    pub keep_section: Option<OutputSectionId>,
}

/// The alignment of a section that need not be aligned is one byte.
pub open spec fn effective_alignment(raw: u64) -> int {
    if raw == 0 {
        1
    } else {
        raw as int
    }
}

/// The slot of a section after it has been loaded.
pub open spec fn loaded_slot(unloaded: UnloadedSection, section: Section) -> SectionSlot {
    if unloaded.needs_sorting {
        SectionSlot::Sorted(SortedSection { address: 0, section })
    } else {
        SectionSlot::Loaded(section)
    }
}

/// What a group adds to the output after one of its sections has been loaded. Sections that are
/// sorted are allocated later. `None` if a size is not a 64-bit number.
pub open spec fn common_with_section<'data>(
    common: CommonView,
    input: InputSection,
    size: u64,
    attributes: MachOAttributes,
    allocated: bool,
    sections: &OutputSections<'data>,
) -> Option<CommonView> {
    let section = Section { size, alignment: Alignment::spec_one() };
    let section_attributes = attributes_with(
        common.section_attributes,
        OutputSectionId(sections.platform.section_of(input.part_id.0 as int) as u32),
        attributes,
    );
    if !allocated {
        Some(CommonView { section_attributes, ..common })
    } else {
        match input_sections::capacity_of(section, input.part_id, input.packed, sections) {
            None => None,
            Some(capacity) => match layout_state::plus(
                input_sections::offset_of(common.mem_sizes, input.part_id),
                capacity,
            ) {
                None => None,
                Some(total) => Some(
                    CommonView {
                        mem_sizes: common.mem_sizes.insert(input.part_id.0, total),
                        section_attributes,
                    },
                ),
            },
        }
    }
}

fn add_section<'data>(
    common: &mut CommonGroupState,
    input: InputSection,
    section: Section,
    attributes: MachOAttributes,
    allocated: bool,
    sections: &OutputSections<'data>,
) -> (done: bool)
    requires
        sections.wf(),
        old(common).wf(),
    ensures
        match common_with_section(
            old(common).view(),
            input,
            section.size,
            attributes,
            allocated,
            sections,
        ) {
            Some(expected) => done && final(common).wf() && final(common).view() == expected
                && final(common).mem_sizes.dense() == old(common).mem_sizes.dense(),
            None => !done && *final(common) == *old(common),
        },
{
    if allocated {
        match section.capacity(input.part_id, input.packed, sections) {
            None => {
                return false;
            },
            Some(capacity) => {
                let size: u64 = common.mem_sizes.get(input.part_id);
                if size.checked_add(capacity).is_none() {
                    return false;
                }
                common.allocate(input.part_id, capacity);
            },
        }
    }
    common.store_section_attributes(input.part_id, attributes, sections);
    true
}

/// Whether an object is the same but for one of its sections.
pub open spec fn with_slot(
    before: ObjectState,
    after: ObjectState,
    index: int,
    slot: SectionSlot,
) -> bool {
    &&& after.inputs@ == before.inputs@.update(
        index,
        InputSection { slot, ..before.inputs@[index] },
    )
    &&& after.file_id == before.file_id
    &&& after.symbol_id_range == before.symbol_id_range
    &&& after.link_order == before.link_order
    &&& after.symbols == before.symbols
    &&& after.relax_deltas == before.relax_deltas
    &&& after.script_sorted_sections == before.script_sorted_sections
    &&& after.post_gc_primary_bytes == before.post_gc_primary_bytes
}

/// What a section adds to the size of what is loaded into the part in which thunks are placed.
pub open spec fn primary_bytes(thunk_part: Option<PartId>, part_id: PartId, size: u64) -> int {
    if thunk_part == Some(part_id) {
        size as int
    } else {
        0
    }
}

/// Whether an object is the same but for one of its sections, which has been loaded.
pub open spec fn with_loaded(
    before: ObjectState,
    after: ObjectState,
    index: int,
    unloaded: UnloadedSection,
    section: Section,
    thunk_part: Option<PartId>,
) -> bool {
    &&& after.inputs@ == before.inputs@.update(
        index,
        InputSection { slot: loaded_slot(unloaded, section), ..before.inputs@[index] },
    )
    &&& after.file_id == before.file_id
    &&& after.symbol_id_range == before.symbol_id_range
    &&& after.link_order == before.link_order
    &&& after.symbols == before.symbols
    &&& after.relax_deltas == before.relax_deltas
    &&& after.script_sorted_sections@ == (if unloaded.needs_sorting {
        before.script_sorted_sections@.push(
            ScriptSortedSectionDetail {
                index: index as usize,
                sort_by_init_priority: unloaded.sort_by_init_priority,
                sort_by_alignment: unloaded.sort_by_alignment,
            },
        )
    } else {
        before.script_sorted_sections@
    })
    &&& after.post_gc_primary_bytes == before.post_gc_primary_bytes + primary_bytes(
        thunk_part,
        before.inputs@[index].part_id,
        section.size,
    )
}

fn set_slot(object: &mut ObjectState, index: usize, slot: SectionSlot)
    requires
        index < old(object).inputs@.len(),
    ensures
        with_slot(*old(object), *final(object), index as int, slot),
{
    let input: InputSection = object.inputs[index];
    object.inputs.set(
        index,
        InputSection {
            slot,
            part_id: input.part_id,
            packed: input.packed,
            executable: input.executable,
        },
    );
}

/// What loading a section leads to: it takes up space in its part, or will be sorted among others,
/// its attributes are added to those of its output section, and its size counts if it goes where
/// thunks are placed. If that cannot be done, nothing changes.
pub open spec fn section_loaded<'data>(
    before: ObjectState,
    after: ObjectState,
    common_before: CommonGroupState,
    common_after: CommonGroupState,
    unloaded: UnloadedSection,
    section_index: int,
    header: SectionHeaderInfo,
    zero_sized_content: bool,
    thunk_part: Option<PartId>,
    sections: &OutputSections<'data>,
    result: Result<LoadedSection, LoadError>,
) -> bool {
    let input = before.inputs@[section_index];
    let expected = common_with_section(
        common_before.view(),
        input,
        header.size,
        header.attributes,
        !unloaded.needs_sorting,
        sections,
    );
    match result {
        Ok(loaded) => {
            &&& input_alignment_supported(header.raw_alignment)
            &&& expected == Some(common_after.view())
            &&& loaded.section.size == header.size
            &&& loaded.section.alignment.bytes() == effective_alignment(header.raw_alignment)
            &&& loaded.warn_writable_code == (header.alloc && header.writable && header.executable)
            &&& loaded.sorted == unloaded.needs_sorting
            &&& loaded.keep_section == (if header.size == 0 && zero_sized_content {
                Some(OutputSectionId(sections.platform.section_of(input.part_id.0 as int) as u32))
            } else {
                None::<OutputSectionId>
            })
            &&& with_loaded(
                before,
                after,
                section_index,
                unloaded,
                loaded.section,
                thunk_part,
            )
            &&& common_after.wf()
            &&& common_after.mem_sizes.dense() == common_before.mem_sizes.dense()
        },
        Err(error) => {
            &&& after == before
            &&& common_after == common_before
            &&& if input_alignment_supported(header.raw_alignment) {
                error == LoadError::Overflow && (expected is None
                    || before.post_gc_primary_bytes + primary_bytes(
                    thunk_part,
                    input.part_id,
                    header.size,
                ) > u64::MAX)
            } else {
                error == LoadError::UnsupportedAlignment(header.raw_alignment)
            }
        },
    }
}

/// What loading a section of debug information leads to.
pub open spec fn debug_section_loaded<'data>(
    before: ObjectState,
    after: ObjectState,
    common_before: CommonGroupState,
    common_after: CommonGroupState,
    section_index: int,
    header: SectionHeaderInfo,
    sections: &OutputSections<'data>,
    result: Result<Section, LoadError>,
) -> bool {
    let expected = common_with_section(
        common_before.view(),
        before.inputs@[section_index],
        header.size,
        header.attributes,
        true,
        sections,
    );
    match result {
        Ok(section) => {
            &&& input_alignment_supported(header.raw_alignment)
            &&& expected == Some(common_after.view())
            &&& section.size == header.size
            &&& section.alignment.bytes() == effective_alignment(header.raw_alignment)
            &&& with_slot(before, after, section_index, SectionSlot::LoadedDebugInfo(section))
            &&& common_after.wf()
            &&& common_after.mem_sizes.dense() == common_before.mem_sizes.dense()
        },
        Err(error) => {
            &&& after == before
            &&& common_after == common_before
            &&& if input_alignment_supported(header.raw_alignment) {
                error == LoadError::Overflow && expected is None
            } else {
                error == LoadError::UnsupportedAlignment(header.raw_alignment)
            }
        },
    }
}

/// Loads a section: it takes up space in its part, or will be sorted among others, and its
/// attributes are added to those of its output section. `thunk_part` is where thunks are placed, if
/// there can be any.
pub fn load_section<'data>(
    object: &mut ObjectState,
    common: &mut CommonGroupState,
    unloaded: UnloadedSection,
    section_index: usize,
    header: SectionHeaderInfo,
    zero_sized_content: bool,
    thunk_part: Option<PartId>,
    sections: &OutputSections<'data>,
) -> (result: Result<LoadedSection, LoadError>)
    requires
        sections.wf(),
        old(common).wf(),
        section_index < old(object).inputs@.len(),
    ensures
        section_loaded(
            *old(object),
            *final(object),
            *old(common),
            *final(common),
            unloaded,
            section_index as int,
            header,
            zero_sized_content,
            thunk_part,
            sections,
            result,
        ),
{
    let input: InputSection = object.inputs[section_index];
    let section: Section = match Section::create(header.size, header.raw_alignment) {
        Some(section) => section,
        None => {
            return Err(LoadError::UnsupportedAlignment(header.raw_alignment));
        },
    };
    assert(vstd::arithmetic::power2::pow2(section.alignment.exp()) == effective_alignment(
        header.raw_alignment,
    ));
    let in_thunk_part: bool = match thunk_part {
        Some(part_id) => part_id.0 == input.part_id.0,
        None => false,
    };
    let added: u64 = if in_thunk_part {
        section.size
    } else {
        0
    };
    let counted: u64 = match object.post_gc_primary_bytes.checked_add(added) {
        Some(counted) => counted,
        None => {
            return Err(LoadError::Overflow);
        },
    };
    if !add_section(
        common,
        input,
        section,
        header.attributes,
        !unloaded.needs_sorting,
        sections,
    ) {
        return Err(LoadError::Overflow);
    }
    let slot: SectionSlot = if unloaded.needs_sorting {
        // The address is filled in when all sections have been sorted.
        SectionSlot::Sorted(SortedSection { address: 0, section })
    } else {
        SectionSlot::Loaded(section)
    };
    set_slot(object, section_index, slot);
    if unloaded.needs_sorting {
        object.script_sorted_sections.push(
            ScriptSortedSectionDetail {
                index: section_index,
                sort_by_init_priority: unloaded.sort_by_init_priority,
                sort_by_alignment: unloaded.sort_by_alignment,
            },
        );
    }
    object.post_gc_primary_bytes = counted;
    let keep_section: Option<OutputSectionId> = if section.size == 0 && zero_sized_content {
        Some(input.part_id.output_section_id(&sections.platform))
    } else {
        None
    };
    Ok(
        LoadedSection {
            section,
            warn_writable_code: header.alloc && header.writable && header.executable,
            sorted: unloaded.needs_sorting,
            keep_section,
        },
    )
}

/// Whether an alignment that an object file gives is supported.
pub open spec fn input_alignment_supported(raw: u64) -> bool {
    exists|exponent: nat| exponent <= 16 && #[trigger] vstd::arithmetic::power2::pow2(exponent)
        == effective_alignment(raw)
}

/// Loads a section of debug information. Relocations of debug information load nothing.
pub fn load_debug_section<'data>(
    object: &mut ObjectState,
    common: &mut CommonGroupState,
    section_index: usize,
    header: SectionHeaderInfo,
    sections: &OutputSections<'data>,
) -> (result: Result<Section, LoadError>)
    requires
        sections.wf(),
        old(common).wf(),
        section_index < old(object).inputs@.len(),
    ensures
        debug_section_loaded(
            *old(object),
            *final(object),
            *old(common),
            *final(common),
            section_index as int,
            header,
            sections,
            result,
        ),
{
    let input: InputSection = object.inputs[section_index];
    let section: Section = match Section::create(header.size, header.raw_alignment) {
        Some(section) => section,
        None => {
            return Err(LoadError::UnsupportedAlignment(header.raw_alignment));
        },
    };
    assert(vstd::arithmetic::power2::pow2(section.alignment.exp()) == effective_alignment(
        header.raw_alignment,
    ));
    if !add_section(common, input, section, header.attributes, true, sections) {
        return Err(LoadError::Overflow);
    }
    set_slot(object, section_index, SectionSlot::LoadedDebugInfo(section));
    Ok(section)
}

/// What a request to load a section leads to.
#[derive(Clone, Copy, Debug, PartialEq, Eq, Structural)]
pub enum LoadOutcome {
    Loaded(LoadedSection),
    LoadedDebugInfo(Section),
    /// All merged strings are loaded in any case; only the attributes have been noted.
    NotedAttributes,
    /// There was nothing to do.
    Nothing,
}

/// Handles a request to load a section. Sections that are loaded already stay as they are; those
/// that were discarded cannot be loaded.
pub fn handle_section_load_request<'data>(
    object: &mut ObjectState,
    common: &mut CommonGroupState,
    section_index: usize,
    header: SectionHeaderInfo,
    zero_sized_content: bool,
    thunk_part: Option<PartId>,
    sections: &OutputSections<'data>,
) -> (result: Result<LoadOutcome, LoadError>)
    requires
        sections.wf(),
        old(common).wf(),
        section_index < old(object).inputs@.len(),
    ensures
        match old(object).inputs@[section_index as int].slot {
            SectionSlot::Unloaded(unloaded) | SectionSlot::MustLoad(unloaded) => {
                &&& result matches Ok(outcome) ==> outcome is Loaded
                &&& section_loaded(
                    *old(object),
                    *final(object),
                    *old(common),
                    *final(common),
                    unloaded,
                    section_index as int,
                    header,
                    zero_sized_content,
                    thunk_part,
                    sections,
                    match result {
                        Ok(outcome) => Ok(outcome->Loaded_0),
                        Err(error) => Err(error),
                    },
                )
            },
            SectionSlot::UnloadedDebugInfo => {
                &&& result matches Ok(outcome) ==> outcome is LoadedDebugInfo
                &&& debug_section_loaded(
                    *old(object),
                    *final(object),
                    *old(common),
                    *final(common),
                    section_index as int,
                    header,
                    sections,
                    match result {
                        Ok(outcome) => Ok(outcome->LoadedDebugInfo_0),
                        Err(error) => Err(error),
                    },
                )
            },
            SectionSlot::Discard => result == Err::<LoadOutcome, _>(
                LoadError::Discarded(section_index),
            ) && *final(object) == *old(object) && *final(common) == *old(common),
            SectionSlot::MergeStrings => {
                &&& result == Ok::<_, LoadError>(LoadOutcome::NotedAttributes)
                &&& *final(object) == *old(object)
                &&& final(common).wf()
                &&& final(common).mem_sizes == old(common).mem_sizes
                &&& final(common).section_attributes@ == attributes_with(
                    old(common).section_attributes@,
                    OutputSectionId(
                        sections.platform.section_of(
                            old(object).inputs@[section_index as int].part_id.0 as int,
                        ) as u32,
                    ),
                    header.attributes,
                )
            },
            _ => result == Ok::<_, LoadError>(LoadOutcome::Nothing) && *final(object) == *old(
                object,
            ) && *final(common) == *old(common),
        },
{
    let input: InputSection = object.inputs[section_index];
    match input.slot {
        SectionSlot::Unloaded(unloaded) | SectionSlot::MustLoad(unloaded) => match load_section(
            object,
            common,
            unloaded,
            section_index,
            header,
            zero_sized_content,
            thunk_part,
            sections,
        ) {
            Ok(loaded) => Ok(LoadOutcome::Loaded(loaded)),
            Err(error) => Err(error),
        },
        SectionSlot::UnloadedDebugInfo => match load_debug_section(
            object,
            common,
            section_index,
            header,
            sections,
        ) {
            Ok(section) => Ok(LoadOutcome::LoadedDebugInfo(section)),
            Err(error) => Err(error),
        },
        SectionSlot::Discard => Err(LoadError::Discarded(section_index)),
        SectionSlot::MergeStrings => {
            common.store_section_attributes(input.part_id, header.attributes, sections);
            Ok(LoadOutcome::NotedAttributes)
        },
        _ => Ok(LoadOutcome::Nothing),
    }
}

/// A request to load a section that is loaded already has no effect: a section is counted once.
pub proof fn lemma_loaded_slots_stay(unloaded: UnloadedSection, section: Section)
    ensures
        !(loaded_slot(unloaded, section) is Unloaded),
        !(loaded_slot(unloaded, section) is MustLoad),
        !(loaded_slot(unloaded, section) is UnloadedDebugInfo),
        !(loaded_slot(unloaded, section) is MergeStrings),
        !(loaded_slot(unloaded, section) is Discard),
        loaded_slot(unloaded, section).spec_is_loaded(),
{
}

/// What the sections of an object ask for when it becomes part of the link.
pub struct SectionActivation {
    /// The sections to load, in order.
    pub requests: Vec<SectionGcUnit>,
    /// The sections of exception frames.
    pub frame_sections: IndexList,
    pub note_gnu_property: Option<usize>,
    pub riscv_attributes: Option<usize>,
}

/// Whether a section is loaded though nothing refers to it. Without garbage collection, all are.
pub open spec fn loads_at_once(slot: SectionSlot, gc_sections: bool) -> bool {
    match slot {
        SectionSlot::MustLoad(_) | SectionSlot::UnloadedDebugInfo | SectionSlot::MergeStrings => true,
        SectionSlot::Unloaded(_) => !gc_sections,
        _ => false,
    }
}

/// Those of the first `count` sections that are loaded though nothing refers to them.
pub open spec fn initial_requests(
    inputs: Seq<InputSection>,
    gc_sections: bool,
    count: int,
) -> Seq<SectionGcUnit>
    decreases count,
{
    if count <= 0 {
        Seq::empty()
    } else if loads_at_once(inputs[count - 1].slot, gc_sections) {
        initial_requests(inputs, gc_sections, count - 1).push(SectionGcUnit((count - 1) as u32))
    } else {
        initial_requests(inputs, gc_sections, count - 1)
    }
}

/// The sections of exception frames among the first `count` sections.
pub open spec fn frame_sections(inputs: Seq<InputSection>, count: int) -> Seq<usize>
    decreases count,
{
    if count <= 0 {
        Seq::empty()
    } else {
        match inputs[count - 1].slot {
            SectionSlot::FrameData(index) => frame_sections(inputs, count - 1).push(index),
            _ => frame_sections(inputs, count - 1),
        }
    }
}

/// The last property note among the first `count` sections.
pub open spec fn last_property_note(inputs: Seq<InputSection>, count: int) -> Option<usize>
    decreases count,
{
    if count <= 0 {
        None
    } else {
        match inputs[count - 1].slot {
            SectionSlot::NoteGnuProperty(index) => Some(index),
            _ => last_property_note(inputs, count - 1),
        }
    }
}

/// The last section of RISC-V attributes among the first `count` sections.
pub open spec fn last_riscv_attributes(inputs: Seq<InputSection>, count: int) -> Option<usize>
    decreases count,
{
    if count <= 0 {
        None
    } else {
        match inputs[count - 1].slot {
            SectionSlot::RiscvVAttributes(index) => Some(index),
            _ => last_riscv_attributes(inputs, count - 1),
        }
    }
}

/// Decides what is loaded of an object when it becomes part of the link.
pub fn activate_section_gc(object: &ObjectState, gc_sections: bool) -> (activation:
    SectionActivation)
    requires
        object.inputs@.len() <= u32::MAX,
    ensures
        activation.requests@ == initial_requests(
            object.inputs@,
            gc_sections,
            object.inputs@.len() as int,
        ),
        activation.frame_sections@ == frame_sections(object.inputs@, object.inputs@.len() as int),
        activation.note_gnu_property == last_property_note(
            object.inputs@,
            object.inputs@.len() as int,
        ),
        activation.riscv_attributes == last_riscv_attributes(
            object.inputs@,
            object.inputs@.len() as int,
        ),
{
    let mut requests: Vec<SectionGcUnit> = Vec::new();
    let mut frames: IndexList = IndexList::new();
    let mut note_gnu_property: Option<usize> = None;
    let mut riscv_attributes: Option<usize> = None;
    let mut i: usize = 0;
    while i < object.inputs.len()
        invariant
            i <= object.inputs@.len() <= u32::MAX,
            requests@ == initial_requests(object.inputs@, gc_sections, i as int),
            frames@ == frame_sections(object.inputs@, i as int),
            note_gnu_property == last_property_note(object.inputs@, i as int),
            riscv_attributes == last_riscv_attributes(object.inputs@, i as int),
        decreases object.inputs@.len() - i,
    {
        match object.inputs[i].slot {
            SectionSlot::MustLoad(_)
            | SectionSlot::UnloadedDebugInfo
            | SectionSlot::MergeStrings => {
                requests.push(SectionGcUnit::new(i));
            },
            SectionSlot::Unloaded(_) => {
                if !gc_sections {
                    requests.push(SectionGcUnit::new(i));
                }
            },
            SectionSlot::FrameData(index) => {
                frames.push(index);
            },
            SectionSlot::NoteGnuProperty(index) => {
                note_gnu_property = Some(index);
            },
            SectionSlot::RiscvVAttributes(index) => {
                riscv_attributes = Some(index);
            },
            _ => {},
        }
        i = i + 1;
    }
    SectionActivation { requests, frame_sections: frames, note_gnu_property, riscv_attributes }
}

} // verus!
