//! Making sections smaller: which sections are scanned, and what the scans change.
use crate::groups::ObjectState;
use crate::input_sections;
use crate::input_sections::{InputSection, InputSectionPosition, Section, SectionSlot};
use crate::output_section_part_map::OutputSectionPartMap;
use crate::output_sections::OutputSections;
use crate::relax_deltas;
use crate::relax_deltas::{sum_deleted, RelaxDeltas};
use crate::small_lists::{IndexList, MarginList};
use crate::symbol_addresses;
use vstd::arithmetic::power2::*;
use vstd::prelude::*;

verus! {

/// Relaxation stops after this many passes.
pub const MAX_RELAXATION_ITERATIONS: usize = 5;

/// What the scan of a section has found.
#[derive(Debug)]
pub struct ScanOutcome {
    /// Offsets and the numbers of bytes that can be deleted there.
    pub raw_deltas: Vec<(u64, u32)>,
    /// How far the closest candidate that was not relaxed is from being relaxed.
    pub min_margin: Option<u64>,
}

/// Whether a section is scanned in the first pass.
pub open spec fn is_scannable(input: InputSection) -> bool {
    input.slot is Loaded && input.executable
}

/// Those of the first `count` sections that are scanned in the first pass.
pub open spec fn scannable(inputs: Seq<InputSection>, count: int) -> Seq<usize>
    decreases count,
{
    if count <= 0 {
        Seq::empty()
    } else if is_scannable(inputs[count - 1]) {
        scannable(inputs, count - 1).push((count - 1) as usize)
    } else {
        scannable(inputs, count - 1)
    }
}

/// The sections of an object to scan: in the first pass those with loaded code, later those that
/// the last pass left over.
pub fn sections_to_scan(object: &ObjectState, prev_rescan: Option<&IndexList>) -> (list: IndexList)
    ensures
        list@ == (match prev_rescan {
            Some(rescan) => rescan@,
            None => scannable(object.inputs@, object.inputs@.len() as int),
        }),
{
    if let Some(rescan) = prev_rescan {
        return rescan.duplicate();
    }
    let mut list: IndexList = IndexList::new();
    let mut i: usize = 0;
    while i < object.inputs.len()
        invariant
            i <= object.inputs@.len(),
            list@ == scannable(object.inputs@, i as int),
        decreases object.inputs@.len() - i,
    {
        let input: InputSection = object.inputs[i];
        if let SectionSlot::Loaded(_) = input.slot {
            if input.executable {
                list.push(i);
            }
        }
        i = i + 1;
    }
    list
}

/// What the scans of the sections of an object change.
pub struct ScanView {
    pub inputs: Seq<InputSection>,
    pub deltas: Seq<Seq<(u64, u32)>>,
    /// The sizes of the parts of the group.
    pub mem_sizes: Map<u32, u64>,
    /// By how much the parts of the group have become smaller.
    pub reductions: Map<u32, u64>,
    /// The sections to scan again, with their margins.
    pub candidates: Seq<(usize, u64)>,
}

/// What relaxation has deleted from the sections of an object.
pub open spec fn deltas_of(object: ObjectState) -> Seq<Seq<(u64, u32)>> {
    Seq::new(object.relax_deltas@.len(), |i: int| object.relax_deltas@[i].deltas@)
}

/// Makes a loaded section smaller. The part that it is in becomes smaller by the difference of
/// the space that the section takes up. `None` if there is less than is deleted.
pub open spec fn shrink_step<'data>(
    s: ScanView,
    index: int,
    deleted: int,
    sections: &OutputSections<'data>,
) -> Option<ScanView> {
    let input = s.inputs[index];
    match input.slot {
        SectionSlot::Loaded(section) => if deleted > section.size {
            None
        } else {
            let smaller = Section { size: (section.size - deleted) as u64, ..section };
            match (
                input_sections::capacity_of(section, input.part_id, input.packed, sections),
                input_sections::capacity_of(smaller, input.part_id, input.packed, sections),
            ) {
                (Some(before), Some(after)) => {
                    let reduction = before - after;
                    let size = input_sections::offset_of(s.mem_sizes, input.part_id);
                    let reduced = input_sections::offset_of(s.reductions, input.part_id);
                    let inputs = s.inputs.update(
                        index,
                        InputSection { slot: SectionSlot::Loaded(smaller), ..input },
                    );
                    if reduction == 0 {
                        Some(ScanView { inputs, ..s })
                    } else if reduction > size || reduced + reduction > u64::MAX {
                        None
                    } else {
                        Some(
                            ScanView {
                                inputs,
                                mem_sizes: s.mem_sizes.insert(
                                    input.part_id.0,
                                    (size - reduction) as u64,
                                ),
                                reductions: s.reductions.insert(
                                    input.part_id.0,
                                    (reduced + reduction) as u64,
                                ),
                                ..s
                            },
                        )
                    }
                },
                _ => None,
            }
        },
        _ => Some(s),
    }
}

/// Applies what the scan of a section has found.
pub open spec fn outcome_step<'data>(
    s: ScanView,
    index: int,
    raw_deltas: Seq<(u64, u32)>,
    min_margin: Option<u64>,
    sections: &OutputSections<'data>,
) -> Option<ScanView> {
    let noted = ScanView {
        candidates: match min_margin {
            Some(margin) => s.candidates.push((index as usize, margin)),
            None => s.candidates,
        },
        ..s
    };
    let deleted = relax_deltas::total_deleted(raw_deltas, raw_deltas.len() as int);
    if raw_deltas.len() == 0 {
        Some(noted)
    } else if deleted > u64::MAX {
        None
    } else {
        match shrink_step(noted, index, deleted, sections) {
            None => None,
            Some(shrunk) => Some(
                ScanView {
                    deltas: shrunk.deltas.update(index, shrunk.deltas[index] + raw_deltas),
                    ..shrunk
                },
            ),
        }
    }
}

/// Applies what the scan of a section has found. Sections that could not be scanned, or have no
/// position, stay as they are.
pub open spec fn scan_step<'data>(
    s: ScanView,
    index: int,
    outcome: Option<(Seq<(u64, u32)>, Option<u64>)>,
    positions: Seq<Option<InputSectionPosition>>,
    sections: &OutputSections<'data>,
) -> Option<ScanView> {
    match (outcome, symbol_addresses::position_of(positions, index)) {
        (Some((raw_deltas, min_margin)), Some(_)) => outcome_step(
            s,
            index,
            raw_deltas,
            min_margin,
            sections,
        ),
        _ => Some(s),
    }
}

/// What a scan has found, as mathematical objects.
pub open spec fn outcome_view(outcome: Option<ScanOutcome>) -> Option<
    (Seq<(u64, u32)>, Option<u64>),
> {
    match outcome {
        Some(outcome) => Some((outcome.raw_deltas@, outcome.min_margin)),
        None => None,
    }
}

/// How many bytes the scan of a section deletes. Sections that could not be scanned, or have no
/// position, lose nothing.
pub open spec fn deleted_by(
    outcome: Option<(Seq<(u64, u32)>, Option<u64>)>,
    index: int,
    positions: Seq<Option<InputSectionPosition>>,
) -> int {
    match (outcome, symbol_addresses::position_of(positions, index)) {
        (Some((raw_deltas, _)), Some(_)) => relax_deltas::total_deleted(
            raw_deltas,
            raw_deltas.len() as int,
        ),
        _ => 0,
    }
}

/// How many bytes the scans of the first `count` sections of a list delete.
pub open spec fn deleted_in_sections(
    list: Seq<usize>,
    outcomes: Seq<Option<ScanOutcome>>,
    positions: Seq<Option<InputSectionPosition>>,
    count: int,
) -> int
    decreases count,
{
    if count <= 0 {
        0
    } else {
        deleted_in_sections(list, outcomes, positions, count - 1) + deleted_by(
            outcome_view(outcomes[count - 1]),
            list[count - 1] as int,
            positions,
        )
    }
}

/// More scans delete no less.
pub proof fn lemma_deleted_in_sections(
    list: Seq<usize>,
    outcomes: Seq<Option<ScanOutcome>>,
    positions: Seq<Option<InputSectionPosition>>,
    count: int,
    total: int,
)
    requires
        count <= total,
    ensures
        0 <= deleted_in_sections(list, outcomes, positions, count) <= deleted_in_sections(
            list,
            outcomes,
            positions,
            total,
        ),
    decreases total,
{
    if total > 0 {
        if let Some(outcome) = outcomes[total - 1] {
            relax_deltas::lemma_total_deleted(
                outcome.raw_deltas@,
                outcome.raw_deltas@.len() as int,
            );
        }
        if count < total {
            lemma_deleted_in_sections(list, outcomes, positions, count, total - 1);
        } else {
            lemma_deleted_in_sections(list, outcomes, positions, count - 1, total - 1);
        }
    }
}

/// Counts the bytes that the scans of the sections of an object delete, in addition to `total`.
/// `None` if there are too many to be represented.
pub fn count_deleted_in_object(
    total: u64,
    list: &IndexList,
    outcomes: &Vec<Option<ScanOutcome>>,
    positions: &Vec<Option<InputSectionPosition>>,
) -> (deleted: Option<u64>)
    requires
        outcomes@.len() == list@.len(),
    ensures
        ({
            let sum = total + deleted_in_sections(
                list@,
                outcomes@,
                positions@,
                list@.len() as int,
            );
            match deleted {
                Some(deleted) => deleted == sum,
                None => sum > u64::MAX,
            }
        }),
{
    let mut sum: u64 = total;
    let mut i: usize = 0;
    while i < list.len()
        invariant
            i <= list@.len(),
            outcomes@.len() == list@.len(),
            sum == total + deleted_in_sections(list@, outcomes@, positions@, i as int),
        decreases list@.len() - i,
    {
        let index: usize = list.get(i);
        if let Some(outcome) = &outcomes[i] {
            if index < positions.len() && positions[index].is_some() {
                assert(symbol_addresses::position_of(positions@, index as int) is Some);
                let next: Option<u64> = match sum_deleted(&outcome.raw_deltas) {
                    Some(deleted) => sum.checked_add(deleted),
                    None => None,
                };
                match next {
                    Some(next) => {
                        sum = next;
                    },
                    None => {
                        proof {
                            lemma_deleted_in_sections(
                                list@,
                                outcomes@,
                                positions@,
                                i as int,
                                i + 1,
                            );
                            lemma_deleted_in_sections(
                                list@,
                                outcomes@,
                                positions@,
                                i + 1,
                                list@.len() as int,
                            );
                        }
                        return None;
                    },
                }
            }
        }
        i = i + 1;
    }
    Some(sum)
}

/// Applies what the scans of the first `count` sections of a list have found.
pub open spec fn scans_after<'data>(
    s: ScanView,
    list: Seq<usize>,
    outcomes: Seq<Option<ScanOutcome>>,
    positions: Seq<Option<InputSectionPosition>>,
    sections: &OutputSections<'data>,
    count: int,
) -> Option<ScanView>
    decreases count,
{
    if count <= 0 {
        Some(s)
    } else {
        match scans_after(s, list, outcomes, positions, sections, count - 1) {
            None => None,
            Some(before) => scan_step(
                before,
                list[count - 1] as int,
                outcome_view(outcomes[count - 1]),
                positions,
                sections,
            ),
        }
    }
}

/// An object, the sizes of its group and the reductions so far, as mathematical objects.
pub open spec fn scan_view(
    object: ObjectState,
    mem_sizes: OutputSectionPartMap<u64>,
    reductions: OutputSectionPartMap<u64>,
    candidates: Seq<(usize, u64)>,
) -> ScanView {
    ScanView {
        inputs: object.inputs@,
        deltas: deltas_of(object),
        mem_sizes: mem_sizes@,
        reductions: reductions@,
        candidates,
    }
}

/// Whether what scans do not change is the same.
pub open spec fn same_object(a: ObjectState, b: ObjectState) -> bool {
    &&& a.file_id == b.file_id
    &&& a.symbol_id_range == b.symbol_id_range
    &&& a.link_order == b.link_order
    &&& a.symbols == b.symbols
    &&& a.script_sorted_sections == b.script_sorted_sections
    &&& a.post_gc_primary_bytes == b.post_gc_primary_bytes
}

proof fn lemma_scans_none<'data>(
    s: ScanView,
    list: Seq<usize>,
    outcomes: Seq<Option<ScanOutcome>>,
    positions: Seq<Option<InputSectionPosition>>,
    sections: &OutputSections<'data>,
    count: int,
    total: int,
)
    requires
        0 <= count <= total,
        scans_after(s, list, outcomes, positions, sections, count) is None,
    ensures
        scans_after(s, list, outcomes, positions, sections, total) is None,
    decreases total - count,
{
    if count < total {
        lemma_scans_none(s, list, outcomes, positions, sections, count + 1, total);
    }
}

/// A smaller section takes up no more space.
pub proof fn lemma_capacity_monotone<'data>(
    larger: Section,
    smaller: Section,
    input: InputSection,
    sections: &OutputSections<'data>,
)
    requires
        smaller.size <= larger.size,
    ensures
        input_sections::capacity_of(larger, input.part_id, input.packed, sections) matches Some(
            before,
        ) ==> (input_sections::capacity_of(smaller, input.part_id, input.packed, sections) matches Some(
            after,
        ) && after <= before),
{
    let alignment = crate::alignment::Alignment::of_exp(sections.alignment_of(input.part_id));
    lemma_pow2_pos(alignment.exp());
    crate::alignment::lemma_round_up(larger.size as int, alignment.bytes());
    crate::alignment::lemma_round_up(smaller.size as int, alignment.bytes());
}

fn shrink_section<'data>(
    object: &mut ObjectState,
    mem_sizes: &mut OutputSectionPartMap<u64>,
    reductions: &mut OutputSectionPartMap<u64>,
    index: usize,
    deleted: u64,
    sections: &OutputSections<'data>,
    Ghost(candidates): Ghost<Seq<(usize, u64)>>,
) -> (done: bool)
    requires
        sections.wf(),
        old(mem_sizes).wf(),
        old(reductions).wf(),
        index < old(object).inputs@.len(),
    ensures
        final(mem_sizes).wf(),
        final(mem_sizes).dense() == old(mem_sizes).dense(),
        final(reductions).wf(),
        final(reductions).dense() == old(reductions).dense(),
        final(object).relax_deltas == old(object).relax_deltas,
        final(object).inputs@.len() == old(object).inputs@.len(),
        same_object(*final(object), *old(object)),
        match shrink_step(
            scan_view(*old(object), *old(mem_sizes), *old(reductions), candidates),
            index as int,
            deleted as int,
            sections,
        ) {
            Some(s) => done && s == scan_view(
                *final(object),
                *final(mem_sizes),
                *final(reductions),
                candidates,
            ),
            None => !done,
        },
{
    let input: InputSection = object.inputs[index];
    if let SectionSlot::Loaded(section) = input.slot {
        if deleted > section.size {
            return false;
        }
        let smaller = Section { size: section.size - deleted, alignment: section.alignment };
        proof {
            lemma_capacity_monotone(section, smaller, input, sections);
        }
        let before: Option<u64> = section.capacity(input.part_id, input.packed, sections);
        let after: Option<u64> = smaller.capacity(input.part_id, input.packed, sections);
        match (before, after) {
            (Some(before), Some(after)) => {
                let reduction: u64 = before - after;
                if reduction > 0 {
                    let size: u64 = mem_sizes.get(input.part_id);
                    let reduced: u64 = reductions.get(input.part_id);
                    if reduction > size || reduced.checked_add(reduction).is_none() {
                        return false;
                    }
                    mem_sizes.decrement(input.part_id, reduction);
                    reductions.increment(input.part_id, reduction);
                }
                object.inputs.set(
                    index,
                    InputSection {
                        slot: SectionSlot::Loaded(smaller),
                        part_id: input.part_id,
                        packed: input.packed,
                        executable: input.executable,
                    },
                );
            },
            _ => {
                return false;
            },
        }
    }
    true
}

fn append_deltas(deltas: &mut Vec<RelaxDeltas>, index: usize, additional: &Vec<(u64, u32)>)
    requires
        index < old(deltas)@.len(),
    ensures
        final(deltas)@.len() == old(deltas)@.len(),
        final(deltas)@[index as int].deltas@ == old(deltas)@[index as int].deltas@ + additional@,
        forall|i: int|
            0 <= i < old(deltas)@.len() && i != index ==> #[trigger] final(deltas)@[i] == old(deltas)@[i],
{
    let mut merged: RelaxDeltas = RelaxDeltas::empty();
    merged.merge_additional(&deltas[index].deltas);
    merged.merge_additional(additional);
    assert(merged.deltas@ =~= deltas@[index as int].deltas@ + additional@);
    deltas.set(index, merged);
}

fn apply_section_scan<'data>(
    object: &mut ObjectState,
    mem_sizes: &mut OutputSectionPartMap<u64>,
    reductions: &mut OutputSectionPartMap<u64>,
    candidates: &mut MarginList,
    index: usize,
    outcome: &ScanOutcome,
    sections: &OutputSections<'data>,
) -> (done: bool)
    requires
        sections.wf(),
        old(mem_sizes).wf(),
        old(reductions).wf(),
        old(object).relax_deltas@.len() == old(object).inputs@.len(),
        index < old(object).inputs@.len(),
    ensures
        final(mem_sizes).wf(),
        final(mem_sizes).dense() == old(mem_sizes).dense(),
        final(reductions).wf(),
        final(reductions).dense() == old(reductions).dense(),
        same_object(*final(object), *old(object)),
        final(object).relax_deltas@.len() == old(object).relax_deltas@.len(),
        final(object).inputs@.len() == old(object).inputs@.len(),
        match outcome_step(
            scan_view(*old(object), *old(mem_sizes), *old(reductions), old(candidates)@),
            index as int,
            outcome.raw_deltas@,
            outcome.min_margin,
            sections,
        ) {
            Some(s) => done && s == scan_view(
                *final(object),
                *final(mem_sizes),
                *final(reductions),
                final(candidates)@,
            ),
            None => !done,
        },
{
    if let Some(margin) = outcome.min_margin {
        candidates.push(index, margin);
    }
    if outcome.raw_deltas.len() == 0 {
        return true;
    }
    let deleted: u64 = match sum_deleted(&outcome.raw_deltas) {
        Some(deleted) => deleted,
        None => {
            return false;
        },
    };
    let ghost noted = scan_view(*object, *mem_sizes, *reductions, candidates@);
    assert(noted == ScanView {
        candidates: candidates@,
        ..scan_view(*old(object), *old(mem_sizes), *old(reductions), old(candidates)@)
    });
    if !shrink_section(
        object,
        mem_sizes,
        reductions,
        index,
        deleted,
        sections,
        Ghost(candidates@),
    ) {
        return false;
    }
    let ghost shrunk = scan_view(*object, *mem_sizes, *reductions, candidates@);
    assert(shrunk.inputs.len() == old(object).inputs@.len());
    append_deltas(&mut object.relax_deltas, index, &outcome.raw_deltas);
    assert(deltas_of(*object) =~= shrunk.deltas.update(
        index as int,
        shrunk.deltas[index as int] + outcome.raw_deltas@,
    ));
    true
}

/// Applies what the scans of the sections of an object have found. Returns the sections to scan
/// again. `None` if more is deleted than there is.
pub fn apply_object_scan<'data>(
    object: &mut ObjectState,
    mem_sizes: &mut OutputSectionPartMap<u64>,
    reductions: &mut OutputSectionPartMap<u64>,
    list: &IndexList,
    outcomes: &Vec<Option<ScanOutcome>>,
    positions: &Vec<Option<InputSectionPosition>>,
    sections: &OutputSections<'data>,
) -> (candidates: Option<MarginList>)
    requires
        sections.wf(),
        old(mem_sizes).wf(),
        old(reductions).wf(),
        old(object).relax_deltas@.len() == old(object).inputs@.len(),
        outcomes@.len() == list@.len(),
        forall|i: int|
            0 <= i < list@.len() ==> (#[trigger] list@[i]) < old(object).inputs@.len(),
    ensures
        final(mem_sizes).wf(),
        final(mem_sizes).dense() == old(mem_sizes).dense(),
        final(reductions).wf(),
        final(reductions).dense() == old(reductions).dense(),
        same_object(*final(object), *old(object)),
        final(object).relax_deltas@.len() == old(object).relax_deltas@.len(),
        final(object).inputs@.len() == old(object).inputs@.len(),
        match (
            candidates,
            scans_after(
                scan_view(*old(object), *old(mem_sizes), *old(reductions), Seq::empty()),
                list@,
                outcomes@,
                positions@,
                sections,
                list@.len() as int,
            ),
        ) {
            (Some(candidates), Some(s)) => s == scan_view(
                *final(object),
                *final(mem_sizes),
                *final(reductions),
                candidates@,
            ),
            (None, None) => true,
            _ => false,
        },
{
    let ghost start = scan_view(*object, *mem_sizes, *reductions, Seq::empty());
    let mut candidates: MarginList = MarginList::new();
    assert(candidates@ =~= Seq::empty());
    let mut i: usize = 0;
    while i < list.len()
        invariant
            i <= list@.len(),
            sections.wf(),
            start == scan_view(*old(object), *old(mem_sizes), *old(reductions), Seq::empty()),
            mem_sizes.wf(),
            mem_sizes.dense() == old(mem_sizes).dense(),
            reductions.wf(),
            reductions.dense() == old(reductions).dense(),
            same_object(*object, *old(object)),
            object.inputs@.len() == old(object).inputs@.len(),
            object.relax_deltas@.len() == old(object).relax_deltas@.len(),
            object.relax_deltas@.len() == object.inputs@.len(),
            outcomes@.len() == list@.len(),
            forall|k: int|
                0 <= k < list@.len() ==> (#[trigger] list@[k]) < old(object).inputs@.len(),
            scans_after(start, list@, outcomes@, positions@, sections, i as int) == Some(
                scan_view(*object, *mem_sizes, *reductions, candidates@),
            ),
        decreases list@.len() - i,
    {
        let index: usize = list.get(i);
        if let Some(outcome) = &outcomes[i] {
            if index < positions.len() && positions[index].is_some() {
                assert(symbol_addresses::position_of(positions@, index as int) is Some);
                if !apply_section_scan(
                    object,
                    mem_sizes,
                    reductions,
                    &mut candidates,
                    index,
                    outcome,
                    sections,
                ) {
                    proof {
                        lemma_scans_none(
                            start,
                            list@,
                            outcomes@,
                            positions@,
                            sections,
                            i + 1,
                            list@.len() as int,
                        );
                    }
                    return None;
                }
            }
        }
        i = i + 1;
    }
    Some(candidates)
}

} // verus!
