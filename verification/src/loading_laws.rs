//! What loading sections adds to the output, and which sections are loaded.
use crate::groups::ObjectState;
use crate::input_sections::{InputSection, Section, SectionSlot, UnloadedSection};
use crate::macho_attributes::MachOAttributes;
use crate::output_section_id::{OutputSectionId, PartId};
use crate::output_sections::OutputSections;
use crate::placement_laws;
use crate::relaxation_laws;
use crate::section_loading;
use crate::section_loading::{
    CommonGroupState, LoadError, LoadedSection, SectionGcUnit, SectionHeaderInfo,
};
use vstd::prelude::*;

verus! {

/// Loading a section makes its part larger by the space that the section takes up: its size rounded up
/// to the alignment of the part. Sections that are sorted take it up later. No other part changes, and
/// the section has the size and the alignment that its file gives.
pub proof fn lemma_loaded_sections_take_space<'data>(
    before: ObjectState,
    after: ObjectState,
    common_before: CommonGroupState,
    common_after: CommonGroupState,
    unloaded: UnloadedSection,
    index: int,
    header: SectionHeaderInfo,
    zero_sized_content: bool,
    thunk_part: Option<PartId>,
    sections: &OutputSections<'data>,
    loaded: LoadedSection,
)
    requires
        0 <= index < before.inputs@.len(),
        sections.alignment_of(before.inputs@[index].part_id) <= 16,
        section_loading::section_loaded(
            before,
            after,
            common_before,
            common_after,
            unloaded,
            index,
            header,
            zero_sized_content,
            thunk_part,
            sections,
            Ok::<LoadedSection, LoadError>(loaded),
        ),
    ensures
        ({
            let input = before.inputs@[index];
            let grown = relaxation_laws::part_size(common_after.mem_sizes@, input.part_id)
                - relaxation_laws::part_size(common_before.mem_sizes@, input.part_id);
            &&& unloaded.needs_sorting ==> grown == 0
            &&& !unloaded.needs_sorting && input.packed ==> grown == header.size
            &&& !unloaded.needs_sorting && !input.packed ==> placement_laws::is_next_multiple(
                grown,
                header.size as int,
                vstd::arithmetic::power2::pow2(sections.alignment_of(input.part_id)) as int,
            )
            &&& forall|part: PartId|
                part.0 != input.part_id.0 ==> #[trigger] relaxation_laws::part_size(
                    common_after.mem_sizes@,
                    part,
                ) == relaxation_laws::part_size(common_before.mem_sizes@, part)
            &&& unloaded.needs_sorting ==> (after.inputs@[index].slot matches SectionSlot::Sorted(
                sorted,
            ) && sorted.section.size == header.size)
            &&& !unloaded.needs_sorting ==> (after.inputs@[index].slot matches SectionSlot::Loaded(
                section,
            ) && section.size == header.size)
            &&& after.inputs@[index].part_id == input.part_id
            &&& forall|other: int|
                0 <= other < before.inputs@.len() && other != index ==> #[trigger] after.inputs@[other]
                    == before.inputs@[other]
            &&& header.raw_alignment != 0 ==> loaded.section.alignment.bytes()
                == header.raw_alignment
            &&& header.raw_alignment == 0 ==> loaded.section.alignment.bytes() == 1
            &&& loaded.warn_writable_code <==> header.alloc && header.writable && header.executable
            &&& loaded.sorted == unloaded.needs_sorting
            &&& loaded.keep_section is Some <==> header.size == 0 && zero_sized_content
            &&& loaded.keep_section matches Some(id) ==> id.0
                == sections.platform.section_of(input.part_id.0 as int) as u32
            &&& !unloaded.needs_sorting ==> after.script_sorted_sections@
                == before.script_sorted_sections@
            &&& unloaded.needs_sorting ==> after.script_sorted_sections@.len()
                == before.script_sorted_sections@.len() + 1 && after.script_sorted_sections@.last().index
                == index as usize && after.script_sorted_sections@.last().sort_by_init_priority
                == unloaded.sort_by_init_priority
                && after.script_sorted_sections@.last().sort_by_alignment
                == unloaded.sort_by_alignment
            &&& after.symbols == before.symbols
            &&& after.relax_deltas == before.relax_deltas
            &&& after.symbol_id_range == before.symbol_id_range
            &&& after.post_gc_primary_bytes - before.post_gc_primary_bytes == (if thunk_part
                == Some(input.part_id) {
                header.size as int
            } else {
                0
            })
        }),
{
    let input = before.inputs@[index];
    let exponent = sections.alignment_of(input.part_id);
    crate::alignment::Alignment::lemma_exp_of(exponent);
    placement_laws::lemma_up_goes_to_next_multiple(
        crate::alignment::Alignment::of_exp(exponent),
        header.size,
    );
}

/// The attributes of an output section are those of all the sections that have been put into it: each
/// one adds its own, and no other output section changes.
pub proof fn lemma_attributes_are_collected(
    map: Map<u64, MachOAttributes>,
    id: OutputSectionId,
    attributes: MachOAttributes,
    other: u64,
)
    ensures
        ({
            let after = section_loading::attributes_with(map, id, attributes);
            &&& after.contains_key(id.0 as u64)
            &&& !map.contains_key(id.0 as u64) ==> after[id.0 as u64] == attributes
            &&& map.contains_key(id.0 as u64) ==> after[id.0 as u64] == map[id.0 as u64].merged(
                attributes,
            )
            &&& other != id.0 ==> (after.contains_key(other) <==> map.contains_key(other))
            &&& other != id.0 && map.contains_key(other) ==> after[other] == map[other]
        }),
{
}

/// A section is loaded though nothing refers to it if it must be, if it holds debug information or
/// strings to merge, or if nothing is collected as garbage. What is discarded or loaded already is
/// never loaded.
pub proof fn lemma_sections_loaded_at_once(
    inputs: Seq<InputSection>,
    gc_sections: bool,
    count: int,
    i: int,
)
    requires
        0 <= count <= inputs.len() <= u32::MAX,
        0 <= i < inputs.len(),
    ensures
        section_loading::initial_requests(inputs, gc_sections, count).contains(
            SectionGcUnit(i as u32),
        ) <==> i < count && (inputs[i].slot is MustLoad || inputs[i].slot is UnloadedDebugInfo
            || inputs[i].slot is MergeStrings || (inputs[i].slot is Unloaded && !gc_sections)),
        forall|k: int|
            0 <= k < section_loading::initial_requests(inputs, gc_sections, count).len() ==> (
            #[trigger] section_loading::initial_requests(inputs, gc_sections, count)[k]).0 < count,
    decreases count,
{
    if count > 0 {
        lemma_sections_loaded_at_once(inputs, gc_sections, count - 1, i);
        let before = section_loading::initial_requests(inputs, gc_sections, count - 1);
        let all = section_loading::initial_requests(inputs, gc_sections, count);
        let unit = SectionGcUnit(i as u32);
        let last = SectionGcUnit((count - 1) as u32);
        if all.len() > before.len() {
            assert(all == before.push(last));
            assert(all[all.len() - 1] == last);
        }
        if before.contains(unit) {
            let k = choose|k: int| 0 <= k < before.len() && before[k] == unit;
            assert(all[k] == unit);
        }
        if all.contains(unit) && i != count - 1 {
            let k = choose|k: int| 0 <= k < all.len() && all[k] == unit;
            assert(before[k] == unit);
        }
        if i == count - 1 {
            if before.contains(unit) {
                let k = choose|k: int| 0 <= k < before.len() && before[k] == unit;
                assert(before[k].0 < count - 1);
            }
        }
    }
}

/// Garbage collection loads no section that would not be loaded without it.
pub proof fn lemma_garbage_collection_loads_less(slot: SectionSlot)
    ensures
        section_loading::loads_at_once(slot, true) ==> section_loading::loads_at_once(slot, false),
        section_loading::loads_at_once(slot, false) && !section_loading::loads_at_once(slot, true)
            <==> slot is Unloaded,
{
}

/// The sections of exception frames are all found.
pub proof fn lemma_frame_sections_are_found(inputs: Seq<InputSection>, count: int, i: int)
    requires
        0 <= i < count <= inputs.len(),
    ensures
        inputs[i].slot matches SectionSlot::FrameData(index) ==> section_loading::frame_sections(
            inputs,
            count,
        ).contains(index),
        section_loading::frame_sections(inputs, 0).len() == 0,
    decreases count,
{
    let all = section_loading::frame_sections(inputs, count);
    let before = section_loading::frame_sections(inputs, count - 1);
    if let SectionSlot::FrameData(index) = inputs[i].slot {
        if i == count - 1 {
            assert(all[all.len() - 1] == index);
        } else {
            lemma_frame_sections_are_found(inputs, count - 1, i);
            let k = choose|k: int| 0 <= k < before.len() && before[k] == index;
            assert(all[k] == index);
        }
    }
}

/// Of several property notes the last one counts, and so it does of sections of RISC-V attributes.
pub proof fn lemma_last_notes_count(inputs: Seq<InputSection>, count: int, i: int)
    requires
        0 <= i < count <= inputs.len(),
        forall|k: int| i < k < count ==> !((#[trigger] inputs[k]).slot is NoteGnuProperty),
        forall|k: int| i < k < count ==> !((#[trigger] inputs[k]).slot is RiscvVAttributes),
    ensures
        inputs[i].slot matches SectionSlot::NoteGnuProperty(index)
            ==> section_loading::last_property_note(inputs, count) == Some(index),
        inputs[i].slot matches SectionSlot::RiscvVAttributes(index)
            ==> section_loading::last_riscv_attributes(inputs, count) == Some(index),
    decreases count,
{
    if i < count - 1 {
        lemma_last_notes_count(inputs, count - 1, i);
        assert(!(inputs[count - 1].slot is NoteGnuProperty));
        assert(!(inputs[count - 1].slot is RiscvVAttributes));
    }
}

/// Debug information takes up space in its part as other sections do, and has the size and the
/// alignment that its file gives. Nothing else of the object changes.
pub proof fn lemma_debug_information_takes_space<'data>(
    before: ObjectState,
    after: ObjectState,
    common_before: CommonGroupState,
    common_after: CommonGroupState,
    index: int,
    header: SectionHeaderInfo,
    sections: &OutputSections<'data>,
    section: Section,
)
    requires
        0 <= index < before.inputs@.len(),
        sections.alignment_of(before.inputs@[index].part_id) <= 16,
        section_loading::debug_section_loaded(
            before,
            after,
            common_before,
            common_after,
            index,
            header,
            sections,
            Ok::<Section, LoadError>(section),
        ),
    ensures
        ({
            let input = before.inputs@[index];
            let grown = relaxation_laws::part_size(common_after.mem_sizes@, input.part_id)
                - relaxation_laws::part_size(common_before.mem_sizes@, input.part_id);
            &&& input.packed ==> grown == header.size
            &&& !input.packed ==> placement_laws::is_next_multiple(
                grown,
                header.size as int,
                vstd::arithmetic::power2::pow2(sections.alignment_of(input.part_id)) as int,
            )
            &&& forall|part: PartId|
                part.0 != input.part_id.0 ==> #[trigger] relaxation_laws::part_size(
                    common_after.mem_sizes@,
                    part,
                ) == relaxation_laws::part_size(common_before.mem_sizes@, part)
            &&& after.inputs@[index].slot == SectionSlot::LoadedDebugInfo(section)
            &&& section.size == header.size
            &&& header.raw_alignment != 0 ==> section.alignment.bytes() == header.raw_alignment
            &&& header.raw_alignment == 0 ==> section.alignment.bytes() == 1
            &&& forall|other: int|
                0 <= other < before.inputs@.len() && other != index ==> #[trigger] after.inputs@[other]
                    == before.inputs@[other]
            &&& after.symbols == before.symbols
            &&& after.script_sorted_sections == before.script_sorted_sections
            &&& after.post_gc_primary_bytes == before.post_gc_primary_bytes
        }),
{
    let input = before.inputs@[index];
    let exponent = sections.alignment_of(input.part_id);
    crate::alignment::Alignment::lemma_exp_of(exponent);
    placement_laws::lemma_up_goes_to_next_multiple(
        crate::alignment::Alignment::of_exp(exponent),
        header.size,
    );
}

/// A section is not loaded if its alignment is not a power of two up to 65536, and nothing changes
/// then. Other failures are sizes that are not 64-bit numbers.
pub proof fn lemma_unsupported_alignments_are_reported<'data>(
    before: ObjectState,
    after: ObjectState,
    common_before: CommonGroupState,
    common_after: CommonGroupState,
    index: int,
    header: SectionHeaderInfo,
    sections: &OutputSections<'data>,
    result: Result<Section, LoadError>,
    exponent: nat,
)
    requires
        section_loading::debug_section_loaded(
            before,
            after,
            common_before,
            common_after,
            index,
            header,
            sections,
            result,
        ),
    ensures
        result matches Err(error) ==> after == before && common_after == common_before,
        exponent <= 16 && header.raw_alignment == vstd::arithmetic::power2::pow2(exponent) ==> (
        result matches Err(error) ==> error is Overflow),
        header.raw_alignment == 0 ==> (result matches Err(error) ==> error is Overflow),
        (forall|other: nat|
            other <= 16 ==> #[trigger] vstd::arithmetic::power2::pow2(other) != header.raw_alignment)
            && header.raw_alignment != 0 ==> result == Err::<Section, LoadError>(
            LoadError::UnsupportedAlignment(header.raw_alignment),
        ),
{
    assert(vstd::arithmetic::power2::pow2(0) == 1) by {
        vstd::arithmetic::power2::lemma2_to64();
    }
    vstd::arithmetic::power2::lemma_pow2_pos(exponent);
}

} // verus!
