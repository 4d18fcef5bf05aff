//! What relaxation deletes, and what is scanned again.
use crate::alignment::Alignment;
use crate::groups::FileState;
use crate::input_sections;
use crate::input_sections::{InputSection, InputSectionPosition, Section, SectionSlot};
use crate::output_section_id::PartId;
use crate::output_sections::OutputSections;
use crate::placement_laws;
use crate::relax_deltas;
use crate::relaxation;
use crate::relaxation::{ScanOutcome, ScanView};
use crate::relaxation_loop;
use crate::relaxation_pass;
use crate::relaxation_pass::RelaxationLoop;
use crate::small_lists::IndexList;
use vstd::prelude::*;

verus! {

/// The first pass scans just the sections of an object that hold loaded code, each once.
pub proof fn lemma_loaded_code_is_scanned(inputs: Seq<InputSection>, count: int, i: int)
    requires
        0 <= count <= inputs.len() <= usize::MAX,
        0 <= i < inputs.len(),
    ensures
        relaxation::scannable(inputs, count).contains(i as usize) <==> i < count
            && inputs[i].slot is Loaded && inputs[i].executable,
        forall|k: int|
            0 <= k < relaxation::scannable(inputs, count).len() ==> (
            #[trigger] relaxation::scannable(inputs, count)[k]) < count,
        relaxation::scannable(inputs, count).no_duplicates(),
    decreases count,
{
    if count > 0 {
        lemma_loaded_code_is_scanned(inputs, count - 1, i);
        let before = relaxation::scannable(inputs, count - 1);
        let all = relaxation::scannable(inputs, count);
        if inputs[count - 1].slot is Loaded && inputs[count - 1].executable {
            assert(all == before.push((count - 1) as usize));
            assert(all[all.len() - 1] == count - 1);
            if before.contains(i as usize) {
                let k = choose|k: int| 0 <= k < before.len() && before[k] == i as usize;
                assert(all[k] == i as usize);
            }
            if all.contains(i as usize) && i != count - 1 {
                let k = choose|k: int| 0 <= k < all.len() && all[k] == i as usize;
                assert(before[k] == i as usize);
            }
        }
    }
}

/// The sum of the bytes that are deleted at each of a list of offsets.
pub open spec fn bytes_in(deltas: Seq<(u64, u32)>) -> int
    decreases deltas.len(),
{
    if deltas.len() == 0 {
        0
    } else {
        bytes_in(deltas.drop_last()) + deltas.last().1
    }
}

proof fn lemma_bytes_in(deltas: Seq<(u64, u32)>, count: int)
    requires
        0 <= count <= deltas.len(),
    ensures
        relax_deltas::total_deleted(deltas, count) == bytes_in(deltas.take(count)),
        bytes_in(deltas.take(count)) >= 0,
    decreases count,
{
    if count > 0 {
        lemma_bytes_in(deltas, count - 1);
        assert(deltas.take(count).drop_last() =~= deltas.take(count - 1));
    }
}

/// The space that a section takes up in its part.
pub open spec fn space_of<'data>(
    section: Section,
    input: InputSection,
    sections: &OutputSections<'data>,
    space: int,
) -> bool {
    if input.packed {
        space == section.size
    } else {
        placement_laws::is_next_multiple(
            space,
            section.size as int,
            vstd::arithmetic::power2::pow2(sections.alignment_of(input.part_id)) as int,
        )
    }
}

proof fn lemma_space_of<'data>(
    section: Section,
    input: InputSection,
    sections: &OutputSections<'data>,
)
    requires
        sections.alignment_of(input.part_id) <= 16,
    ensures
        input_sections::capacity_of(section, input.part_id, input.packed, sections) matches Some(
            space,
        ) ==> space_of(section, input, sections, space as int),
{
    let exponent = sections.alignment_of(input.part_id);
    Alignment::lemma_exp_of(exponent);
    placement_laws::lemma_up_goes_to_next_multiple(Alignment::of_exp(exponent), section.size);
}

/// The scan of a loaded section makes it smaller by just the bytes that it deletes. The part becomes
/// smaller by the difference of the space that the section takes up, which is what the reductions grow
/// by. What was deleted is remembered. All other sections stay as they are.
pub proof fn lemma_scanned_section_shrinks<'data>(
    s: ScanView,
    index: int,
    raw_deltas: Seq<(u64, u32)>,
    min_margin: Option<u64>,
    positions: Seq<Option<InputSectionPosition>>,
    sections: &OutputSections<'data>,
    section: Section,
    t: ScanView,
)
    requires
        0 <= index < s.inputs.len(),
        s.inputs.len() <= usize::MAX,
        s.deltas.len() == s.inputs.len(),
        index < positions.len(),
        positions[index] is Some,
        s.inputs[index].slot == SectionSlot::Loaded(section),
        sections.alignment_of(s.inputs[index].part_id) <= 16,
        relaxation::scan_step(s, index, Some((raw_deltas, min_margin)), positions, sections)
            == Some(t),
    ensures
        ({
            let input = s.inputs[index];
            &&& t.inputs.len() == s.inputs.len()
            &&& t.deltas.len() == s.deltas.len()
            &&& t.inputs[index].slot matches SectionSlot::Loaded(smaller) && {
                &&& smaller.size == section.size - bytes_in(raw_deltas)
                &&& smaller.alignment == section.alignment
                &&& t.inputs[index] == (InputSection {
                    slot: SectionSlot::Loaded(smaller),
                    ..input
                })
                &&& raw_deltas.len() > 0 ==> exists|before: int, after: int| #[trigger]
                    space_of(section, input, sections, before) && #[trigger] space_of(
                        smaller,
                        input,
                        sections,
                        after,
                    ) && part_size(s.mem_sizes, input.part_id) - part_size(
                        t.mem_sizes,
                        input.part_id,
                    ) == before - after && part_size(t.reductions, input.part_id) - part_size(
                        s.reductions,
                        input.part_id,
                    ) == before - after
                &&& raw_deltas.len() == 0 ==> t.mem_sizes == s.mem_sizes && t.reductions
                    == s.reductions
            }
            &&& t.deltas[index] == s.deltas[index] + raw_deltas
            &&& forall|other: int|
                0 <= other < s.inputs.len() && other != index ==> #[trigger] t.inputs[other]
                    == s.inputs[other] && t.deltas[other] == s.deltas[other]
            &&& forall|part: PartId|
                part.0 != input.part_id.0 ==> #[trigger] part_size(t.mem_sizes, part) == part_size(
                    s.mem_sizes,
                    part,
                ) && part_size(t.reductions, part) == part_size(s.reductions, part)
            &&& t.candidates == (match min_margin {
                Some(margin) => s.candidates.push((index as usize, margin)),
                None => s.candidates,
            })
        }),
{
    let input = s.inputs[index];
    lemma_bytes_in(raw_deltas, raw_deltas.len() as int);
    assert(raw_deltas.take(raw_deltas.len() as int) =~= raw_deltas);
    lemma_space_of(section, input, sections);
    if raw_deltas.len() == 0 {
        assert(s.deltas[index] + raw_deltas =~= s.deltas[index]);
        assert(bytes_in(raw_deltas) == 0);
        assert(t.inputs[index].slot == SectionSlot::Loaded(section));
    } else {
        let smaller = Section {
            size: (section.size - bytes_in(raw_deltas)) as u64,
            ..section
        };
        lemma_space_of(smaller, input, sections);
        let before = input_sections::capacity_of(
            section,
            input.part_id,
            input.packed,
            sections,
        )->0;
        let after = input_sections::capacity_of(
            smaller,
            input.part_id,
            input.packed,
            sections,
        )->0;
        assert(space_of(section, input, sections, before as int));
        assert(space_of(smaller, input, sections, after as int));
        relaxation::lemma_capacity_monotone(section, smaller, input, sections);
        assert(t.inputs[index].slot == SectionSlot::Loaded(smaller));
        assert(part_size(s.mem_sizes, input.part_id) - part_size(t.mem_sizes, input.part_id)
            == before - after);
        assert(part_size(t.reductions, input.part_id) - part_size(s.reductions, input.part_id)
            == before - after);
    }
}

/// The size of a part. Parts that nothing is known of are empty.
pub open spec fn part_size(sizes: Map<u32, u64>, part: PartId) -> int {
    if sizes.contains_key(part.0) {
        sizes[part.0] as int
    } else {
        0
    }
}

/// A section that was not scanned, or has no position, stays as it is.
pub proof fn lemma_unscanned_sections_stay<'data>(
    s: ScanView,
    index: int,
    outcome: Option<(Seq<(u64, u32)>, Option<u64>)>,
    positions: Seq<Option<InputSectionPosition>>,
    sections: &OutputSections<'data>,
)
    requires
        outcome is None || !(0 <= index < positions.len()) || positions[index] is None,
    ensures
        relaxation::scan_step(s, index, outcome, positions, sections) == Some(s),
        relaxation::deleted_by(outcome, index, positions) == 0,
{
}

/// The number of bytes that a scan deletes is the sum of what it deletes at each offset.
pub proof fn lemma_deleted_bytes_are_counted(
    raw_deltas: Seq<(u64, u32)>,
    min_margin: Option<u64>,
    index: int,
    positions: Seq<Option<InputSectionPosition>>,
)
    requires
        0 <= index < positions.len(),
        positions[index] is Some,
    ensures
        relaxation::deleted_by(Some((raw_deltas, min_margin)), index, positions) == bytes_in(
            raw_deltas,
        ),
{
    lemma_bytes_in(raw_deltas, raw_deltas.len() as int);
    assert(raw_deltas.take(raw_deltas.len() as int) =~= raw_deltas);
}

/// The bytes of the loaded sections of an object.
pub open spec fn loaded_bytes(inputs: Seq<InputSection>) -> int
    decreases inputs.len(),
{
    if inputs.len() == 0 {
        0
    } else {
        loaded_bytes(inputs.drop_last()) + (match inputs.last().slot {
            SectionSlot::Loaded(section) => section.size as int,
            _ => 0,
        })
    }
}

proof fn lemma_loaded_bytes_update(inputs: Seq<InputSection>, index: int, input: InputSection)
    requires
        0 <= index < inputs.len(),
        inputs[index].slot is Loaded,
        input.slot is Loaded,
    ensures
        loaded_bytes(inputs.update(index, input)) == loaded_bytes(inputs) - (
        inputs[index].slot->Loaded_0).size + (input.slot->Loaded_0).size,
    decreases inputs.len(),
{
    let updated = inputs.update(index, input);
    if index == inputs.len() - 1 {
        assert(updated.drop_last() =~= inputs.drop_last());
    } else {
        lemma_loaded_bytes_update(inputs.drop_last(), index, input);
        assert(updated.drop_last() =~= inputs.drop_last().update(index, input));
        assert(updated.last() == inputs.last());
    }
}

/// The sections of an object lose together just the bytes that its scans delete.
pub proof fn lemma_sections_lose_what_is_deleted<'data>(
    s: ScanView,
    list: Seq<usize>,
    outcomes: Seq<Option<ScanOutcome>>,
    positions: Seq<Option<InputSectionPosition>>,
    sections: &OutputSections<'data>,
    count: int,
    t: ScanView,
)
    requires
        0 <= count <= list.len(),
        outcomes.len() == list.len(),
        s.inputs.len() <= usize::MAX,
        forall|i: int|
            0 <= i < list.len() ==> (#[trigger] list[i]) < s.inputs.len()
                && s.inputs[list[i] as int].slot is Loaded,
        relaxation::scans_after(s, list, outcomes, positions, sections, count) == Some(t),
    ensures
        t.inputs.len() == s.inputs.len(),
        forall|i: int|
            0 <= i < s.inputs.len() ==> (#[trigger] t.inputs[i].slot is Loaded) == (
            s.inputs[i].slot is Loaded),
        loaded_bytes(t.inputs) == loaded_bytes(s.inputs) - relaxation::deleted_in_sections(
            list,
            outcomes,
            positions,
            count,
        ),
    decreases count,
{
    if count > 0 {
        let before = relaxation::scans_after(
            s,
            list,
            outcomes,
            positions,
            sections,
            count - 1,
        )->0;
        lemma_sections_lose_what_is_deleted(
            s,
            list,
            outcomes,
            positions,
            sections,
            count - 1,
            before,
        );
        let index = list[count - 1] as int;
        assert(s.inputs[list[count - 1] as int].slot is Loaded);
        assert(before.inputs[index].slot is Loaded);
        if let Some(outcome) = outcomes[count - 1] {
            let raw_deltas = outcome.raw_deltas@;
            if 0 <= index < positions.len() && positions[index] is Some {
                relax_deltas::lemma_total_deleted(raw_deltas, raw_deltas.len() as int);
                if raw_deltas.len() > 0 {
                    lemma_loaded_bytes_update(before.inputs, index, t.inputs[index]);
                    assert(t.inputs =~= before.inputs.update(index, t.inputs[index]));
                }
            }
        }
    }
}

/// A candidate is scanned again if and only if no more bytes are missing than the last pass has
/// deleted.
pub proof fn lemma_candidates_within_reach_are_scanned_again(
    candidates: Seq<(usize, u64)>,
    deleted: u64,
    count: int,
    index: usize,
)
    requires
        0 <= count <= candidates.len(),
    ensures
        relaxation_pass::within_reach(candidates, deleted, count).contains(index) <==> exists|k: int|
            0 <= k < count && (#[trigger] candidates[k]).0 == index && candidates[k].1 <= deleted,
    decreases count,
{
    if count > 0 {
        lemma_candidates_within_reach_are_scanned_again(candidates, deleted, count - 1, index);
        let before = relaxation_pass::within_reach(candidates, deleted, count - 1);
        let all = relaxation_pass::within_reach(candidates, deleted, count);
        let last = candidates[count - 1];
        if last.1 <= deleted {
            assert(all == before.push(last.0));
            assert(all[all.len() - 1] == last.0);
            if before.contains(index) {
                let k = choose|k: int| 0 <= k < before.len() && before[k] == index;
                assert(all[k] == index);
            }
            if all.contains(index) && last.0 != index {
                let k = choose|k: int| 0 <= k < all.len() && all[k] == index;
                assert(before[k] == index);
            }
        }
    }
}

/// Relaxation makes at most five passes, and none if nothing is left to scan.
pub proof fn lemma_relaxation_ends(state: RelaxationLoop)
    ensures
        state.goes_on() ==> state.passes < 5,
        state.passes < 5 && state.rescan is None ==> state.goes_on(),
        state.rescan matches Some(rescan) ==> ((forall|g: int, f: int|
            #![trigger rescan@[g]@[f]]
            0 <= g < rescan@.len() && 0 <= f < rescan@[g]@.len() ==> rescan@[g]@[f]@.len() == 0)
            ==> !state.goes_on()),
{
}

/// Taking reductions off the sizes of the parts makes every part smaller by its reduction.
pub proof fn lemma_parts_become_smaller(
    sizes: Map<u32, u64>,
    reductions: Seq<(PartId, u64)>,
    count: int,
    after: Map<u32, u64>,
    part: PartId,
)
    requires
        0 <= count <= reductions.len(),
        forall|i: int, j: int|
            0 <= i < j < reductions.len() ==> (#[trigger] reductions[i]).0.0 != (
            #[trigger] reductions[j]).0.0,
        relaxation_pass::reduced_by(sizes, reductions, count) == Some(after),
    ensures
        forall|i: int|
            0 <= i < count && (#[trigger] reductions[i]).0.0 == part.0 ==> part_size(after, part)
                == part_size(sizes, part) - reductions[i].1,
        (forall|i: int| 0 <= i < count ==> (#[trigger] reductions[i]).0.0 != part.0) ==> part_size(
            after,
            part,
        ) == part_size(sizes, part),
    decreases count,
{
    if count > 0 {
        let before = relaxation_pass::reduced_by(sizes, reductions, count - 1)->0;
        lemma_parts_become_smaller(sizes, reductions, count - 1, before, part);
        if reductions[count - 1].0.0 == part.0 {
            assert forall|i: int| 0 <= i < count - 1 implies (#[trigger] reductions[i]).0.0
                != part.0 by {
                assert(reductions[i].0.0 != reductions[count - 1].0.0);
            }
            assert(part_size(before, part) == part_size(sizes, part));
        } else {
            assert(part_size(after, part) == part_size(before, part));
        }
    }
}

/// The first time, all code that is loaded is scanned. After that only sections are scanned that were
/// close to being made smaller. Only objects are scanned.
pub proof fn lemma_first_scan_covers_all_code(file: FileState, g: int, f: int, i: int)
    requires
        file matches FileState::Object(object) ==> 0 <= i < object.inputs@.len() <= usize::MAX,
    ensures
        file matches FileState::Object(object) ==> (relaxation_loop::chosen(
            file,
            None,
            g,
            f,
        ).contains(i as usize) <==> object.inputs@[i].slot is Loaded
            && object.inputs@[i].executable),
        !(file is Object) ==> relaxation_loop::chosen(file, None, g, f).len() == 0,
{
    if let FileState::Object(object) = file {
        lemma_loaded_code_is_scanned(object.inputs@, object.inputs@.len() as int, i);
    }
}

/// Later scans are of the sections that the scan before has chosen.
pub proof fn lemma_later_scans_cover_chosen_sections(
    file: FileState,
    rescan: Vec<Vec<IndexList>>,
    g: int,
    f: int,
)
    ensures
        file is Object ==> relaxation_loop::chosen(file, Some(rescan), g, f) == rescan@[g]@[f]@,
        !(file is Object) ==> relaxation_loop::chosen(file, Some(rescan), g, f).len() == 0,
{
}

/// There is something left to scan at the start, and later as long as a section was chosen.
pub proof fn lemma_scans_go_on_while_sections_are_left(
    rescan: Vec<Vec<IndexList>>,
    g: int,
    f: int,
)
    requires
        0 <= g < rescan@.len(),
        0 <= f < rescan@[g]@.len(),
    ensures
        relaxation_loop::something_left(None),
        rescan@[g]@[f]@.len() > 0 ==> relaxation_loop::something_left(Some(rescan)),
        (forall|a: int, b: int|
            #![trigger rescan@[a]@[b]]
            0 <= a < rescan@.len() && 0 <= b < rescan@[a]@.len() ==> rescan@[a]@[b]@.len() == 0)
            ==> !relaxation_loop::something_left(Some(rescan)),
{
    if rescan@[g]@[f]@.len() > 0 {
        assert(!relaxation_pass::nothing_left(rescan@));
    }
}

/// As many bytes can be deleted from a section as it has, and no more. What is not loaded stays.
pub proof fn lemma_whole_sections_can_be_deleted<'data>(
    s: ScanView,
    index: int,
    deleted: int,
    sections: &OutputSections<'data>,
    section: Section,
)
    requires
        0 <= index < s.inputs.len(),
        s.inputs[index].slot == SectionSlot::Loaded(section),
        s.inputs[index].packed,
        part_size(s.reductions, s.inputs[index].part_id) + deleted <= u64::MAX,
        0 <= deleted,
        section.size <= part_size(s.mem_sizes, s.inputs[index].part_id),
    ensures
        relaxation::shrink_step(s, index, deleted, sections) is Some <==> deleted <= section.size,
{
}

} // verus!
