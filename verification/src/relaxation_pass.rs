//! One pass of relaxation over all groups, and when to stop.
use crate::groups::{FileState, GroupState};
use crate::input_sections::{InputSectionPosition, Section, SectionSlot};
use crate::output_section_id::PartId;
use crate::output_section_part_map::OutputSectionPartMap;
use crate::output_sections::OutputSections;
use crate::relaxation;
use crate::relaxation::{
    apply_object_scan, count_deleted_in_object, ScanOutcome, ScanView, MAX_RELAXATION_ITERATIONS,
};
use crate::small_lists::{IndexList, MarginList};
use vstd::prelude::*;

verus! {

/// What the scans of the files of a group change.
pub struct GroupScan {
    pub mem_sizes: Map<u32, u64>,
    pub reductions: Map<u32, u64>,
    /// For each object, what has become of it.
    pub objects: Seq<Option<ScanView>>,
}

/// Applies the scans of the first `count` files of a group. `None` if more is deleted than there
/// is.
pub open spec fn group_scanned<'data>(
    files: Seq<FileState>,
    mem_sizes: Map<u32, u64>,
    reductions: Map<u32, u64>,
    lists: Seq<IndexList>,
    outcomes: Seq<Vec<Option<ScanOutcome>>>,
    positions: Seq<Vec<Option<InputSectionPosition>>>,
    sections: &OutputSections<'data>,
    count: int,
) -> Option<GroupScan>
    decreases count,
{
    if count <= 0 {
        Some(GroupScan { mem_sizes, reductions, objects: Seq::empty() })
    } else {
        match group_scanned(
            files,
            mem_sizes,
            reductions,
            lists,
            outcomes,
            positions,
            sections,
            count - 1,
        ) {
            None => None,
            Some(before) => match files[count - 1] {
                FileState::Object(object) => match relaxation::scans_after(
                    ScanView {
                        inputs: object.inputs@,
                        deltas: relaxation::deltas_of(object),
                        mem_sizes: before.mem_sizes,
                        reductions: before.reductions,
                        candidates: Seq::empty(),
                    },
                    lists[count - 1]@,
                    outcomes[count - 1]@,
                    positions[count - 1]@,
                    sections,
                    lists[count - 1]@.len() as int,
                ) {
                    None => None,
                    Some(s) => Some(
                        GroupScan {
                            mem_sizes: s.mem_sizes,
                            reductions: s.reductions,
                            objects: before.objects.push(Some(s)),
                        },
                    ),
                },
                _ => Some(GroupScan { objects: before.objects.push(None), ..before }),
            },
        }
    }
}

/// Whether a file is as a scan has left it.
pub open spec fn file_scanned(
    before: FileState,
    after: FileState,
    candidates: Seq<(usize, u64)>,
    scan: Option<ScanView>,
) -> bool {
    match scan {
        Some(s) => match (before, after) {
            (FileState::Object(old_object), FileState::Object(object)) => {
                &&& object.inputs@ == s.inputs
                &&& relaxation::deltas_of(object) == s.deltas
                &&& relaxation::same_object(object, old_object)
                &&& candidates == s.candidates
            },
            _ => false,
        },
        None => after == before && candidates.len() == 0,
    }
}

/// Whether the scans of a file are of sections that exist.
pub open spec fn scan_wf(
    file: FileState,
    list: IndexList,
    outcomes: Vec<Option<ScanOutcome>>,
) -> bool {
    file matches FileState::Object(object) ==> {
        &&& object.relax_deltas@.len() == object.inputs@.len()
        &&& outcomes@.len() == list@.len()
        &&& forall|i: int| 0 <= i < list@.len() ==> (#[trigger] list@[i]) < object.inputs@.len()
    }
}

/// Whether the scans of all files of a group are of sections that exist.
pub open spec fn group_scan_wf(
    files: Seq<FileState>,
    lists: Seq<IndexList>,
    outcomes: Seq<Vec<Option<ScanOutcome>>>,
    positions: Seq<Vec<Option<InputSectionPosition>>>,
) -> bool {
    &&& lists.len() == files.len()
    &&& outcomes.len() == files.len()
    &&& positions.len() == files.len()
    &&& forall|f: int|
        0 <= f < files.len() ==> scan_wf(#[trigger] files[f], lists[f], outcomes[f])
}

proof fn lemma_group_scanned_none<'data>(
    files: Seq<FileState>,
    mem_sizes: Map<u32, u64>,
    reductions: Map<u32, u64>,
    lists: Seq<IndexList>,
    outcomes: Seq<Vec<Option<ScanOutcome>>>,
    positions: Seq<Vec<Option<InputSectionPosition>>>,
    sections: &OutputSections<'data>,
    count: int,
    total: int,
)
    requires
        0 <= count <= total,
        group_scanned(
            files,
            mem_sizes,
            reductions,
            lists,
            outcomes,
            positions,
            sections,
            count,
        ) is None,
    ensures
        group_scanned(
            files,
            mem_sizes,
            reductions,
            lists,
            outcomes,
            positions,
            sections,
            total,
        ) is None,
    decreases total - count,
{
    if count < total {
        lemma_group_scanned_none(
            files,
            mem_sizes,
            reductions,
            lists,
            outcomes,
            positions,
            sections,
            count + 1,
            total,
        );
    }
}

fn apply_file_scan<'data>(
    file: &mut FileState,
    mem_sizes: &mut OutputSectionPartMap<u64>,
    reductions: &mut OutputSectionPartMap<u64>,
    list: &IndexList,
    outcomes: &Vec<Option<ScanOutcome>>,
    positions: &Vec<Option<InputSectionPosition>>,
    sections: &OutputSections<'data>,
) -> (candidates: Option<MarginList>)
    requires
        sections.wf(),
        old(mem_sizes).wf(),
        old(reductions).wf(),
        scan_wf(*old(file), *list, *outcomes),
    ensures
        final(mem_sizes).wf(),
        final(mem_sizes).dense() == old(mem_sizes).dense(),
        final(reductions).wf(),
        final(reductions).dense() == old(reductions).dense(),
        match *old(file) {
            FileState::Object(object) => match (
                candidates,
                relaxation::scans_after(
                    relaxation::scan_view(
                        object,
                        *old(mem_sizes),
                        *old(reductions),
                        Seq::empty(),
                    ),
                    list@,
                    outcomes@,
                    positions@,
                    sections,
                    list@.len() as int,
                ),
            ) {
                (Some(candidates), Some(s)) => {
                    &&& file_scanned(*old(file), *final(file), candidates@, Some(s))
                    &&& final(mem_sizes)@ == s.mem_sizes
                    &&& final(reductions)@ == s.reductions
                },
                (None, None) => true,
                _ => false,
            },
            _ => {
                &&& candidates matches Some(candidates)
                &&& candidates@.len() == 0
                &&& *final(file) == *old(file)
                &&& final(mem_sizes)@ == old(mem_sizes)@
                &&& final(reductions)@ == old(reductions)@
            },
        },
{
    match file {
        FileState::Object(object) => apply_object_scan(
            object,
            mem_sizes,
            reductions,
            list,
            outcomes,
            positions,
            sections,
        ),
        _ => Some(MarginList::new()),
    }
}

/// Whether all files of a group are as the scans have left them.
pub open spec fn files_scanned(
    before: Seq<FileState>,
    after: Seq<FileState>,
    candidates: Seq<MarginList>,
    objects: Seq<Option<ScanView>>,
    count: int,
) -> bool {
    &&& after.len() == before.len()
    &&& candidates.len() == count
    &&& objects.len() == count
    &&& forall|f: int|
        0 <= f < count ==> file_scanned(
            before[f],
            #[trigger] after[f],
            candidates[f]@,
            objects[f],
        )
    &&& forall|f: int| count <= f < before.len() ==> #[trigger] after[f] == before[f]
}

/// Applies the scans of the files of a group. Returns by how much the parts of the group have
/// become smaller, and the sections to scan again. `None` if more is deleted than there is.
pub fn apply_group_scan<'data>(
    group: &mut GroupState,
    lists: &Vec<IndexList>,
    outcomes: &Vec<Vec<Option<ScanOutcome>>>,
    positions: &Vec<Vec<Option<InputSectionPosition>>>,
    sections: &OutputSections<'data>,
) -> (result: Option<(OutputSectionPartMap<u64>, Vec<MarginList>)>)
    requires
        sections.wf(),
        old(group).mem_sizes.wf(),
        group_scan_wf(old(group).files@, lists@, outcomes@, positions@),
    ensures
        final(group).mem_sizes.wf(),
        final(group).mem_sizes.dense() == old(group).mem_sizes.dense(),
        final(group).section_group_order == old(group).section_group_order,
        match (
            result,
            group_scanned(
                old(group).files@,
                old(group).mem_sizes@,
                no_reductions(old(group).mem_sizes.dense()),
                lists@,
                outcomes@,
                positions@,
                sections,
                old(group).files@.len() as int,
            ),
        ) {
            (Some((reductions, candidates)), Some(scan)) => {
                &&& reductions.wf()
                &&& reductions.dense() == old(group).mem_sizes.dense()
                &&& reductions@ == scan.reductions
                &&& final(group).mem_sizes@ == scan.mem_sizes
                &&& files_scanned(
                    old(group).files@,
                    final(group).files@,
                    candidates@,
                    scan.objects,
                    old(group).files@.len() as int,
                )
            },
            (None, None) => true,
            _ => false,
        },
{
    let ghost files = group.files@;
    let ghost mem_sizes = group.mem_sizes@;
    let mut reductions: OutputSectionPartMap<u64> = group.mem_sizes.new_empty_like();
    let ghost start = reductions@;
    assert(start =~= no_reductions(group.mem_sizes.dense()));
    let mut candidates: Vec<MarginList> = Vec::new();
    let mut f: usize = 0;
    while f < group.files.len()
        invariant
            f <= files.len(),
            sections.wf(),
            files == old(group).files@,
            mem_sizes == old(group).mem_sizes@,
            start == no_reductions(old(group).mem_sizes.dense()),
            group_scan_wf(files, lists@, outcomes@, positions@),
            group.files@.len() == files.len(),
            group.mem_sizes.wf(),
            group.mem_sizes.dense() == old(group).mem_sizes.dense(),
            group.section_group_order == old(group).section_group_order,
            reductions.wf(),
            reductions.dense() == old(group).mem_sizes.dense(),
            group_scanned(
                files,
                mem_sizes,
                start,
                lists@,
                outcomes@,
                positions@,
                sections,
                f as int,
            ) matches Some(scan) && scan.mem_sizes == group.mem_sizes@ && scan.reductions
                == reductions@ && files_scanned(
                files,
                group.files@,
                candidates@,
                scan.objects,
                f as int,
            ),
        decreases files.len() - f,
    {
        assert(group.files@[f as int] == files[f as int]);
        assert(scan_wf(files[f as int], lists@[f as int], outcomes@[f as int]));
        let ghost old_files = group.files@;
        let ghost old_candidates = candidates@;
        let ghost before = group_scanned(
            files,
            mem_sizes,
            start,
            lists@,
            outcomes@,
            positions@,
            sections,
            f as int,
        )->0;
        match apply_file_scan(
            &mut group.files[f],
            &mut group.mem_sizes,
            &mut reductions,
            &lists[f],
            &outcomes[f],
            &positions[f],
            sections,
        ) {
            Some(list) => {
                candidates.push(list);
                proof {
                    let after = group_scanned(
                        files,
                        mem_sizes,
                        start,
                        lists@,
                        outcomes@,
                        positions@,
                        sections,
                        f + 1,
                    )->0;
                    assert(group.files@ =~= old_files.update(f as int, group.files@[f as int]));
                    assert(file_scanned(
                        files[f as int],
                        group.files@[f as int],
                        list@,
                        after.objects[f as int],
                    ));
                    assert forall|k: int| 0 <= k < f + 1 implies file_scanned(
                        files[k],
                        #[trigger] group.files@[k],
                        candidates@[k]@,
                        after.objects[k],
                    ) by {
                        if k < f {
                            assert(group.files@[k] == old_files[k]);
                            assert(candidates@[k] == old_candidates[k]);
                            assert(after.objects[k] == before.objects[k]);
                        }
                    }
                }
            },
            None => {
                proof {
                    lemma_group_scanned_none(
                        files,
                        mem_sizes,
                        start,
                        lists@,
                        outcomes@,
                        positions@,
                        sections,
                        f + 1,
                        files.len() as int,
                    );
                }
                return None;
            },
        }
        f = f + 1;
    }
    Some((reductions, candidates))
}

/// No part has become smaller.
pub open spec fn no_reductions(dense: nat) -> Map<u32, u64> {
    Map::new(|part: u32| part < dense, |part: u32| 0u64)
}

/// The scan of a group.
pub open spec fn scan_of_group<'data>(
    group: GroupState,
    lists: Vec<IndexList>,
    outcomes: Vec<Vec<Option<ScanOutcome>>>,
    positions: Vec<Vec<Option<InputSectionPosition>>>,
    sections: &OutputSections<'data>,
) -> Option<GroupScan> {
    group_scanned(
        group.files@,
        group.mem_sizes@,
        no_reductions(group.mem_sizes.dense()),
        lists@,
        outcomes@,
        positions@,
        sections,
        group.files@.len() as int,
    )
}

/// Whether a group is as the scans have left it.
pub open spec fn group_is_scanned(
    before: GroupState,
    after: GroupState,
    candidates: Seq<MarginList>,
    scan: GroupScan,
) -> bool {
    &&& after.mem_sizes.wf()
    &&& after.mem_sizes.dense() == before.mem_sizes.dense()
    &&& after.section_group_order == before.section_group_order
    &&& after.mem_sizes@ == scan.mem_sizes
    &&& files_scanned(
        before.files@,
        after.files@,
        candidates,
        scan.objects,
        before.files@.len() as int,
    )
}

/// Whether a group is as the scans have left it, with the given reductions.
pub open spec fn group_passed<'data>(
    before: GroupState,
    after: GroupState,
    lists: Vec<IndexList>,
    outcomes: Vec<Vec<Option<ScanOutcome>>>,
    positions: Vec<Vec<Option<InputSectionPosition>>>,
    sections: &OutputSections<'data>,
    candidates: Seq<MarginList>,
    reductions: Map<u32, u64>,
) -> bool {
    &&& scan_of_group(before, lists, outcomes, positions, sections) matches Some(scan)
    &&& group_is_scanned(before, after, candidates, scan)
    &&& reductions == scan.reductions
}

/// What a map holds, in the order of the parts.
pub open spec fn entries_of(map: Map<u32, u64>) -> Seq<(PartId, u64)> {
    choose|entries: Seq<(PartId, u64)>| #[trigger]
        crate::output_section_part_map::lists(entries, map, 0, u32::MAX + 1)
}

/// Takes the first `count` reductions off the sizes of the parts. `None` if a part is smaller than
/// its reduction.
pub open spec fn reduced_by(
    sizes: Map<u32, u64>,
    reductions: Seq<(PartId, u64)>,
    count: int,
) -> Option<Map<u32, u64>>
    decreases count,
{
    if count <= 0 {
        Some(sizes)
    } else {
        match reduced_by(sizes, reductions, count - 1) {
            None => None,
            Some(before) => {
                let (part, amount) = reductions[count - 1];
                let size = crate::input_sections::offset_of(before, part);
                if amount == 0 {
                    Some(before)
                } else if amount > size {
                    None
                } else {
                    Some(before.insert(part.0, (size - amount) as u64))
                }
            },
        }
    }
}

/// Takes the reductions of the first `count` groups off the sizes of the parts.
pub open spec fn reduced_by_groups(
    sizes: Map<u32, u64>,
    reductions: Seq<Map<u32, u64>>,
    count: int,
) -> Option<Map<u32, u64>>
    decreases count,
{
    if count <= 0 {
        Some(sizes)
    } else {
        match reduced_by_groups(sizes, reductions, count - 1) {
            None => None,
            Some(before) => reduced_by(
                before,
                entries_of(reductions[count - 1]),
                entries_of(reductions[count - 1]).len() as int,
            ),
        }
    }
}

proof fn lemma_reduced_none(
    sizes: Map<u32, u64>,
    reductions: Seq<(PartId, u64)>,
    count: int,
    end: int,
)
    requires
        0 <= count <= end,
        reduced_by(sizes, reductions, count) is None,
    ensures
        reduced_by(sizes, reductions, end) is None,
    decreases end - count,
{
    if count < end {
        lemma_reduced_none(sizes, reductions, count + 1, end);
    }
}

proof fn lemma_reduced_groups_none(
    sizes: Map<u32, u64>,
    reductions: Seq<Map<u32, u64>>,
    count: int,
    end: int,
)
    requires
        0 <= count <= end,
        reduced_by_groups(sizes, reductions, count) is None,
    ensures
        reduced_by_groups(sizes, reductions, end) is None,
    decreases end - count,
{
    if count < end {
        lemma_reduced_groups_none(sizes, reductions, count + 1, end);
    }
}

fn apply_reductions(
    sizes: &mut OutputSectionPartMap<u64>,
    reductions: &OutputSectionPartMap<u64>,
) -> (done: bool)
    requires
        old(sizes).wf(),
        reductions.wf(),
    ensures
        final(sizes).wf(),
        final(sizes).dense() == old(sizes).dense(),
        match reduced_by(
            old(sizes)@,
            entries_of(reductions@),
            entries_of(reductions@).len() as int,
        ) {
            Some(expected) => done && final(sizes)@ == expected,
            None => !done,
        },
{
    let ghost before = sizes@;
    let entries: Vec<(PartId, u64)> = reductions.iter();
    proof {
        crate::output_section_part_map::lemma_lists_unique(
            entries@,
            entries_of(reductions@),
            reductions@,
            0,
            u32::MAX + 1,
        );
    }
    let mut i: usize = 0;
    while i < entries.len()
        invariant
            i <= entries@.len(),
            before == old(sizes)@,
            entries@ == entries_of(reductions@),
            sizes.wf(),
            sizes.dense() == old(sizes).dense(),
            reduced_by(before, entries@, i as int) == Some(sizes@),
        decreases entries@.len() - i,
    {
        let (part_id, amount) = entries[i];
        if amount > 0 {
            let size: u64 = sizes.get(part_id);
            if amount > size {
                proof {
                    lemma_reduced_none(before, entries@, i + 1, entries@.len() as int);
                }
                return false;
            }
            sizes.decrement(part_id, amount);
        }
        i = i + 1;
    }
    true
}

/// The reductions of the groups.
pub open spec fn reductions_of<'data>(
    groups: Seq<GroupState>,
    lists: Seq<Vec<IndexList>>,
    outcomes: Seq<Vec<Vec<Option<ScanOutcome>>>>,
    positions: Seq<Vec<Vec<Option<InputSectionPosition>>>>,
    sections: &OutputSections<'data>,
) -> Seq<Map<u32, u64>> {
    Seq::new(
        groups.len(),
        |g: int|
            scan_of_group(groups[g], lists[g], outcomes[g], positions[g], sections)->0.reductions,
    )
}

/// Whether the scans of all groups delete no more than there is.
pub open spec fn scans_fit<'data>(
    groups: Seq<GroupState>,
    lists: Seq<Vec<IndexList>>,
    outcomes: Seq<Vec<Vec<Option<ScanOutcome>>>>,
    positions: Seq<Vec<Vec<Option<InputSectionPosition>>>>,
    sections: &OutputSections<'data>,
) -> bool {
    forall|g: int|
        0 <= g < groups.len() ==> scan_of_group(
            #[trigger] groups[g],
            lists[g],
            outcomes[g],
            positions[g],
            sections,
        ) is Some
}

/// Whether the scans of all groups are of sections that exist.
pub open spec fn pass_wf(
    groups: Seq<GroupState>,
    lists: Seq<Vec<IndexList>>,
    outcomes: Seq<Vec<Vec<Option<ScanOutcome>>>>,
    positions: Seq<Vec<Vec<Option<InputSectionPosition>>>>,
) -> bool {
    &&& lists.len() == groups.len()
    &&& outcomes.len() == groups.len()
    &&& positions.len() == groups.len()
    &&& forall|g: int|
        0 <= g < groups.len() ==> (#[trigger] groups[g]).mem_sizes.wf() && group_scan_wf(
            groups[g].files@,
            lists[g]@,
            outcomes[g]@,
            positions[g]@,
        )
}

fn scan_groups<'data>(
    groups: &mut Vec<GroupState>,
    lists: &Vec<Vec<IndexList>>,
    outcomes: &Vec<Vec<Vec<Option<ScanOutcome>>>>,
    positions: &Vec<Vec<Vec<Option<InputSectionPosition>>>>,
    sections: &OutputSections<'data>,
) -> (result: Option<(Vec<OutputSectionPartMap<u64>>, Vec<Vec<MarginList>>)>)
    requires
        sections.wf(),
        pass_wf(old(groups)@, lists@, outcomes@, positions@),
    ensures
        final(groups)@.len() == old(groups)@.len(),
        match result {
            Some((reductions, candidates)) => {
                &&& reductions@.len() == old(groups)@.len()
                &&& candidates@.len() == old(groups)@.len()
                &&& forall|g: int|
                    0 <= g < old(groups)@.len() ==> group_passed(
                        old(groups)@[g],
                        #[trigger] final(groups)@[g],
                        lists@[g],
                        outcomes@[g],
                        positions@[g],
                        sections,
                        candidates@[g]@,
                        reductions@[g]@,
                    )
                &&& forall|g: int| 0 <= g < reductions@.len() ==> (#[trigger] reductions@[g]).wf()
            },
            None => !scans_fit(old(groups)@, lists@, outcomes@, positions@, sections),
        },
{
    let ghost before = groups@;
    let mut reductions: Vec<OutputSectionPartMap<u64>> = Vec::new();
    let mut candidates: Vec<Vec<MarginList>> = Vec::new();
    let mut g: usize = 0;
    while g < groups.len()
        invariant
            g <= groups@.len(),
            sections.wf(),
            before == old(groups)@,
            groups@.len() == before.len(),
            pass_wf(before, lists@, outcomes@, positions@),
            reductions@.len() == g,
            candidates@.len() == g,
            forall|k: int| g <= k < before.len() ==> #[trigger] groups@[k] == before[k],
            forall|k: int|
                0 <= k < g ==> group_passed(
                    before[k],
                    #[trigger] groups@[k],
                    lists@[k],
                    outcomes@[k],
                    positions@[k],
                    sections,
                    candidates@[k]@,
                    reductions@[k]@,
                ),
            forall|k: int| 0 <= k < g ==> (#[trigger] reductions@[k]).wf(),
        decreases before.len() - g,
    {
        assert(groups@[g as int] == before[g as int]);
        assert(before[g as int].mem_sizes.wf());
        let ghost old_groups = groups@;
        let ghost old_candidates = candidates@;
        let ghost old_reductions = reductions@;
        match apply_group_scan(
            &mut groups[g],
            &lists[g],
            &outcomes[g],
            &positions[g],
            sections,
        ) {
            Some((group_reductions, group_candidates)) => {
                reductions.push(group_reductions);
                candidates.push(group_candidates);
                proof {
                    assert(group_passed(
                        before[g as int],
                        groups@[g as int],
                        lists@[g as int],
                        outcomes@[g as int],
                        positions@[g as int],
                        sections,
                        candidates@[g as int]@,
                        reductions@[g as int]@,
                    ));
                    assert forall|k: int| 0 <= k < g + 1 implies group_passed(
                        before[k],
                        #[trigger] groups@[k],
                        lists@[k],
                        outcomes@[k],
                        positions@[k],
                        sections,
                        candidates@[k]@,
                        reductions@[k]@,
                    ) by {
                        if k < g {
                            assert(groups@[k] == old_groups[k]);
                            assert(candidates@[k] == old_candidates[k]);
                            assert(reductions@[k] == old_reductions[k]);
                        }
                    }
                }
            },
            None => {
                assert(!scans_fit(before, lists@, outcomes@, positions@, sections)) by {
                    assert(scan_of_group(
                        before[g as int],
                        lists@[g as int],
                        outcomes@[g as int],
                        positions@[g as int],
                        sections,
                    ) is None);
                }
                return None;
            },
        }
        g = g + 1;
    }
    Some((reductions, candidates))
}

/// How many bytes the scans of the first `count` files of a group delete.
pub open spec fn deleted_in_files(
    files: Seq<FileState>,
    lists: Seq<IndexList>,
    outcomes: Seq<Vec<Option<ScanOutcome>>>,
    positions: Seq<Vec<Option<InputSectionPosition>>>,
    count: int,
) -> int
    decreases count,
{
    if count <= 0 {
        0
    } else {
        deleted_in_files(files, lists, outcomes, positions, count - 1) + (match files[count - 1] {
            FileState::Object(_) => relaxation::deleted_in_sections(
                lists[count - 1]@,
                outcomes[count - 1]@,
                positions[count - 1]@,
                lists[count - 1]@.len() as int,
            ),
            _ => 0,
        })
    }
}

/// How many bytes the scans of the first `count` groups delete.
pub open spec fn deleted_in_groups(
    groups: Seq<GroupState>,
    lists: Seq<Vec<IndexList>>,
    outcomes: Seq<Vec<Vec<Option<ScanOutcome>>>>,
    positions: Seq<Vec<Vec<Option<InputSectionPosition>>>>,
    count: int,
) -> int
    decreases count,
{
    if count <= 0 {
        0
    } else {
        deleted_in_groups(groups, lists, outcomes, positions, count - 1) + deleted_in_files(
            groups[count - 1].files@,
            lists[count - 1]@,
            outcomes[count - 1]@,
            positions[count - 1]@,
            groups[count - 1].files@.len() as int,
        )
    }
}

proof fn lemma_deleted_in_files(
    files: Seq<FileState>,
    lists: Seq<IndexList>,
    outcomes: Seq<Vec<Option<ScanOutcome>>>,
    positions: Seq<Vec<Option<InputSectionPosition>>>,
    count: int,
    total: int,
)
    requires
        count <= total,
    ensures
        0 <= deleted_in_files(files, lists, outcomes, positions, count) <= deleted_in_files(
            files,
            lists,
            outcomes,
            positions,
            total,
        ),
    decreases total,
{
    if total > 0 {
        let length = lists[total - 1]@.len() as int;
        relaxation::lemma_deleted_in_sections(
            lists[total - 1]@,
            outcomes[total - 1]@,
            positions[total - 1]@,
            length,
            length,
        );
        if count < total {
            lemma_deleted_in_files(files, lists, outcomes, positions, count, total - 1);
        } else {
            lemma_deleted_in_files(files, lists, outcomes, positions, count - 1, total - 1);
        }
    }
}

proof fn lemma_deleted_in_groups(
    groups: Seq<GroupState>,
    lists: Seq<Vec<IndexList>>,
    outcomes: Seq<Vec<Vec<Option<ScanOutcome>>>>,
    positions: Seq<Vec<Vec<Option<InputSectionPosition>>>>,
    count: int,
    total: int,
)
    requires
        count <= total,
    ensures
        0 <= deleted_in_groups(groups, lists, outcomes, positions, count) <= deleted_in_groups(
            groups,
            lists,
            outcomes,
            positions,
            total,
        ),
    decreases total,
{
    if total > 0 {
        let length = groups[total - 1].files@.len() as int;
        lemma_deleted_in_files(
            groups[total - 1].files@,
            lists[total - 1]@,
            outcomes[total - 1]@,
            positions[total - 1]@,
            length,
            length,
        );
        if count < total {
            lemma_deleted_in_groups(groups, lists, outcomes, positions, count, total - 1);
        } else {
            lemma_deleted_in_groups(groups, lists, outcomes, positions, count - 1, total - 1);
        }
    }
}

fn count_deleted_in_group(
    total: u64,
    group: &GroupState,
    lists: &Vec<IndexList>,
    outcomes: &Vec<Vec<Option<ScanOutcome>>>,
    positions: &Vec<Vec<Option<InputSectionPosition>>>,
) -> (deleted: Option<u64>)
    requires
        group_scan_wf(group.files@, lists@, outcomes@, positions@),
    ensures
        ({
            let sum = total + deleted_in_files(
                group.files@,
                lists@,
                outcomes@,
                positions@,
                group.files@.len() as int,
            );
            match deleted {
                Some(deleted) => deleted == sum,
                None => sum > u64::MAX,
            }
        }),
{
    let mut sum: u64 = total;
    let mut f: usize = 0;
    while f < group.files.len()
        invariant
            f <= group.files@.len(),
            group_scan_wf(group.files@, lists@, outcomes@, positions@),
            sum == total + deleted_in_files(group.files@, lists@, outcomes@, positions@, f as int),
        decreases group.files@.len() - f,
    {
        assert(scan_wf(group.files@[f as int], lists@[f as int], outcomes@[f as int]));
        if let FileState::Object(_) = &group.files[f] {
            match count_deleted_in_object(sum, &lists[f], &outcomes[f], &positions[f]) {
                Some(next) => {
                    sum = next;
                },
                None => {
                    proof {
                        lemma_deleted_in_files(
                            group.files@,
                            lists@,
                            outcomes@,
                            positions@,
                            f + 1,
                            group.files@.len() as int,
                        );
                    }
                    return None;
                },
            }
        }
        f = f + 1;
    }
    Some(sum)
}

fn count_deleted(
    groups: &Vec<GroupState>,
    lists: &Vec<Vec<IndexList>>,
    outcomes: &Vec<Vec<Vec<Option<ScanOutcome>>>>,
    positions: &Vec<Vec<Vec<Option<InputSectionPosition>>>>,
) -> (deleted: Option<u64>)
    requires
        pass_wf(groups@, lists@, outcomes@, positions@),
    ensures
        ({
            let sum = deleted_in_groups(
                groups@,
                lists@,
                outcomes@,
                positions@,
                groups@.len() as int,
            );
            match deleted {
                Some(deleted) => deleted == sum,
                None => sum > u64::MAX,
            }
        }),
{
    let mut sum: u64 = 0;
    let mut g: usize = 0;
    while g < groups.len()
        invariant
            g <= groups@.len(),
            pass_wf(groups@, lists@, outcomes@, positions@),
            sum == deleted_in_groups(groups@, lists@, outcomes@, positions@, g as int),
        decreases groups@.len() - g,
    {
        assert(groups@[g as int].mem_sizes.wf());
        match count_deleted_in_group(sum, &groups[g], &lists[g], &outcomes[g], &positions[g]) {
            Some(next) => {
                sum = next;
            },
            None => {
                proof {
                    lemma_deleted_in_groups(
                        groups@,
                        lists@,
                        outcomes@,
                        positions@,
                        g + 1,
                        groups@.len() as int,
                    );
                }
                return None;
            },
        }
        g = g + 1;
    }
    Some(sum)
}

/// Whether the groups and the sizes of the parts are as one pass of scans has left them, and
/// `deleted` bytes were deleted.
pub open spec fn pass_applied<'data>(
    before: Seq<GroupState>,
    after: Seq<GroupState>,
    sizes_before: Map<u32, u64>,
    sizes_after: Map<u32, u64>,
    lists: Seq<Vec<IndexList>>,
    outcomes: Seq<Vec<Vec<Option<ScanOutcome>>>>,
    positions: Seq<Vec<Vec<Option<InputSectionPosition>>>>,
    sections: &OutputSections<'data>,
    deleted: u64,
    candidates: Seq<Vec<MarginList>>,
) -> bool {
    let reductions = reductions_of(before, lists, outcomes, positions, sections);
    &&& deleted == deleted_in_groups(before, lists, outcomes, positions, before.len() as int)
    &&& reduced_by_groups(sizes_before, reductions, before.len() as int) == Some(sizes_after)
    &&& after.len() == before.len()
    &&& candidates.len() == before.len()
    &&& forall|g: int|
        0 <= g < before.len() ==> group_passed(
            before[g],
            #[trigger] after[g],
            lists[g],
            outcomes[g],
            positions[g],
            sections,
            candidates[g]@,
            reductions[g],
        )
}

/// Whether the scans of a pass delete no more than there is.
pub open spec fn pass_fits<'data>(
    groups: Seq<GroupState>,
    sizes: Map<u32, u64>,
    lists: Seq<Vec<IndexList>>,
    outcomes: Seq<Vec<Vec<Option<ScanOutcome>>>>,
    positions: Seq<Vec<Vec<Option<InputSectionPosition>>>>,
    sections: &OutputSections<'data>,
) -> bool {
    &&& scans_fit(groups, lists, outcomes, positions, sections)
    &&& reduced_by_groups(
        sizes,
        reductions_of(groups, lists, outcomes, positions, sections),
        groups.len() as int,
    ) is Some
    &&& deleted_in_groups(groups, lists, outcomes, positions, groups.len() as int) <= u64::MAX
}

/// Applies one pass of scans to all groups. Returns how many bytes it has deleted, and for each file
/// the sections to scan again. `None` if more is deleted than there is.
pub fn relaxation_scan_pass<'data>(
    groups: &mut Vec<GroupState>,
    section_part_sizes: &mut OutputSectionPartMap<u64>,
    lists: &Vec<Vec<IndexList>>,
    outcomes: &Vec<Vec<Vec<Option<ScanOutcome>>>>,
    positions: &Vec<Vec<Vec<Option<InputSectionPosition>>>>,
    sections: &OutputSections<'data>,
) -> (result: Option<(u64, Vec<Vec<MarginList>>)>)
    requires
        sections.wf(),
        old(section_part_sizes).wf(),
        pass_wf(old(groups)@, lists@, outcomes@, positions@),
    ensures
        final(groups)@.len() == old(groups)@.len(),
        final(section_part_sizes).wf(),
        final(section_part_sizes).dense() == old(section_part_sizes).dense(),
        match result {
            Some((deleted, candidates)) => pass_applied(
                old(groups)@,
                final(groups)@,
                old(section_part_sizes)@,
                final(section_part_sizes)@,
                lists@,
                outcomes@,
                positions@,
                sections,
                deleted,
                candidates@,
            ),
            None => !pass_fits(
                old(groups)@,
                old(section_part_sizes)@,
                lists@,
                outcomes@,
                positions@,
                sections,
            ),
        },
{
    let ghost before = groups@;
    let ghost sizes = section_part_sizes@;
    let ghost expected = reductions_of(before, lists@, outcomes@, positions@, sections);
    let total: u64 = match count_deleted(groups, lists, outcomes, positions) {
        Some(total) => total,
        None => {
            return None;
        },
    };
    let (reductions, candidates) = match scan_groups(
        groups,
        lists,
        outcomes,
        positions,
        sections,
    ) {
        Some(result) => result,
        None => {
            return None;
        },
    };
    proof {
        assert forall|g: int| 0 <= g < before.len() implies (#[trigger] reductions@[g]).wf()
            && reductions@[g]@ == expected[g] by {
            assert(group_passed(
                before[g],
                groups@[g],
                lists@[g],
                outcomes@[g],
                positions@[g],
                sections,
                candidates@[g]@,
                reductions@[g]@,
            ));
        }
        assert forall|g: int| 0 <= g < before.len() implies group_passed(
            before[g],
            #[trigger] groups@[g],
            lists@[g],
            outcomes@[g],
            positions@[g],
            sections,
            candidates@[g]@,
            expected[g],
        ) by {
            assert(reductions@[g]@ == expected[g]);
        }
    }
    let mut g: usize = 0;
    while g < reductions.len()
        invariant
            g <= reductions@.len(),
            reductions@.len() == before.len(),
            expected.len() == before.len(),
            sizes == old(section_part_sizes)@,
            section_part_sizes.wf(),
            section_part_sizes.dense() == old(section_part_sizes).dense(),
            forall|k: int|
                0 <= k < before.len() ==> (#[trigger] reductions@[k]).wf() && reductions@[k]@
                    == expected[k],
            reduced_by_groups(sizes, expected, g as int) == Some(section_part_sizes@),
            before == old(groups)@,
            groups@.len() == before.len(),
            expected == reductions_of(before, lists@, outcomes@, positions@, sections),
        decreases reductions@.len() - g,
    {
        assert(reductions@[g as int].wf() && reductions@[g as int]@ == expected[g as int]);
        if !apply_reductions(section_part_sizes, &reductions[g]) {
            proof {
                lemma_reduced_groups_none(sizes, expected, g + 1, before.len() as int);
            }
            return None;
        }
        g = g + 1;
    }
    Some((total, candidates))
}

/// Those of the first `count` candidates that are within reach: no farther from being relaxed than
/// the number of bytes that the last pass has deleted.
pub open spec fn within_reach(candidates: Seq<(usize, u64)>, deleted: u64, count: int) -> Seq<usize>
    decreases count,
{
    if count <= 0 {
        Seq::empty()
    } else if candidates[count - 1].1 <= deleted {
        within_reach(candidates, deleted, count - 1).push(candidates[count - 1].0)
    } else {
        within_reach(candidates, deleted, count - 1)
    }
}

fn keep_within_reach(candidates: &MarginList, deleted: u64) -> (list: IndexList)
    ensures
        list@ == within_reach(candidates@, deleted, candidates@.len() as int),
{
    let mut list: IndexList = IndexList::new();
    let mut i: usize = 0;
    while i < candidates.len()
        invariant
            i <= candidates@.len(),
            list@ == within_reach(candidates@, deleted, i as int),
        decreases candidates@.len() - i,
    {
        let (index, margin) = candidates.get(i);
        if margin <= deleted {
            list.push(index);
        }
        i = i + 1;
    }
    list
}

fn keep_files_within_reach(candidates: &Vec<MarginList>, deleted: u64) -> (lists: Vec<IndexList>)
    ensures
        lists@.len() == candidates@.len(),
        forall|f: int|
            0 <= f < candidates@.len() ==> (#[trigger] lists@[f])@ == within_reach(
                candidates@[f]@,
                deleted,
                candidates@[f]@.len() as int,
            ),
{
    let mut lists: Vec<IndexList> = Vec::new();
    let mut f: usize = 0;
    while f < candidates.len()
        invariant
            f <= candidates@.len(),
            lists@.len() == f,
            forall|k: int|
                0 <= k < f ==> (#[trigger] lists@[k])@ == within_reach(
                    candidates@[k]@,
                    deleted,
                    candidates@[k]@.len() as int,
                ),
        decreases candidates@.len() - f,
    {
        lists.push(keep_within_reach(&candidates[f], deleted));
        f = f + 1;
    }
    lists
}

/// How far relaxation has come.
pub struct RelaxationLoop {
    pub passes: usize,
    /// For each group and file, the sections to scan. `None` before the first pass.
    pub rescan: Option<Vec<Vec<IndexList>>>,
}

/// Whether no section is left to scan.
pub open spec fn nothing_left(rescan: Seq<Vec<IndexList>>) -> bool {
    forall|g: int, f: int|
        #![trigger rescan[g]@[f]]
        0 <= g < rescan.len() && 0 <= f < rescan[g]@.len() ==> rescan[g]@[f]@.len() == 0
}

impl RelaxationLoop {
    /// Before the first pass.
    pub fn new() -> (state: RelaxationLoop)
        ensures
            state.passes == 0,
            state.rescan is None,
    {
        RelaxationLoop { passes: 0, rescan: None }
    }

    /// Whether another pass is to be made.
    pub open spec fn goes_on(self) -> bool {
        &&& self.passes < MAX_RELAXATION_ITERATIONS
        &&& self.rescan matches Some(rescan) ==> !nothing_left(rescan@)
    }

    /// Whether another pass is to be made: there is something left to scan, and there have not been
    /// too many passes.
    pub fn should_scan(&self) -> (scan: bool)
        ensures
            scan == self.goes_on(),
    {
        if self.passes >= MAX_RELAXATION_ITERATIONS {
            return false;
        }
        match &self.rescan {
            None => true,
            Some(rescan) => {
                let mut g: usize = 0;
                while g < rescan.len()
                    invariant
                        g <= rescan@.len(),
                        forall|h: int, f: int|
                            #![trigger rescan@[h]@[f]]
                            0 <= h < g && 0 <= f < rescan@[h]@.len() ==> rescan@[h]@[f]@.len()
                                == 0,
                        self.rescan == Some(*rescan),
                        self.passes < MAX_RELAXATION_ITERATIONS,
                    decreases rescan@.len() - g,
                {
                    let files: &Vec<IndexList> = &rescan[g];
                    let mut f: usize = 0;
                    while f < files.len()
                        invariant
                            g < rescan@.len(),
                            f <= files@.len(),
                            *files == rescan@[g as int],
                            forall|k: int|
                                0 <= k < f ==> (#[trigger] rescan@[g as int]@[k])@.len() == 0,
                            self.rescan == Some(*rescan),
                            self.passes < MAX_RELAXATION_ITERATIONS,
                        decreases files@.len() - f,
                    {
                        if !files[f].is_empty() {
                            assert(rescan@[g as int]@[f as int]@.len() > 0);
                            return true;
                        }
                        f = f + 1;
                    }
                    g = g + 1;
                }
                false
            },
        }
    }

    /// Takes note of a pass. Returns whether sections have to be laid out again: if nothing was
    /// deleted, relaxation is done. The next pass scans the sections that are within reach.
    pub fn after_pass(&mut self, deleted: u64, candidates: &Vec<Vec<MarginList>>) -> (again: bool)
        requires
            old(self).goes_on(),
        ensures
            again == (deleted > 0),
            deleted == 0 ==> *final(self) == *old(self),
            deleted > 0 ==> {
                &&& final(self).passes == old(self).passes + 1
                &&& final(self).rescan matches Some(rescan)
                &&& rescan@.len() == candidates@.len()
                &&& forall|g: int, f: int|
                    #![trigger rescan@[g]@[f]]
                    0 <= g < candidates@.len() && 0 <= f < candidates@[g]@.len() ==> rescan@[g]@[f]@
                        == within_reach(
                        candidates@[g]@[f]@,
                        deleted,
                        candidates@[g]@[f]@.len() as int,
                    )
                &&& forall|g: int|
                    0 <= g < candidates@.len() ==> (#[trigger] rescan@[g])@.len()
                        == candidates@[g]@.len()
            },
    {
        if deleted == 0 {
            return false;
        }
        let mut rescan: Vec<Vec<IndexList>> = Vec::new();
        let mut g: usize = 0;
        while g < candidates.len()
            invariant
                g <= candidates@.len(),
                rescan@.len() == g,
                forall|h: int, f: int|
                    #![trigger rescan@[h]@[f]]
                    0 <= h < g && 0 <= f < candidates@[h]@.len() ==> rescan@[h]@[f]@
                        == within_reach(
                        candidates@[h]@[f]@,
                        deleted,
                        candidates@[h]@[f]@.len() as int,
                    ),
                forall|h: int|
                    0 <= h < g ==> (#[trigger] rescan@[h])@.len() == candidates@[h]@.len(),
            decreases candidates@.len() - g,
        {
            rescan.push(keep_files_within_reach(&candidates[g], deleted));
            g = g + 1;
        }
        self.passes = self.passes + 1;
        self.rescan = Some(rescan);
        true
    }
}

proof fn lemma_scans_balance<'data>(
    s: ScanView,
    list: Seq<usize>,
    outcomes: Seq<Option<ScanOutcome>>,
    positions: Seq<Option<InputSectionPosition>>,
    sections: &OutputSections<'data>,
    count: int,
    part: PartId,
)
    ensures
        relaxation::scans_after(s, list, outcomes, positions, sections, count) matches Some(t)
            ==> crate::input_sections::offset_of(t.mem_sizes, part)
            + crate::input_sections::offset_of(t.reductions, part)
            == crate::input_sections::offset_of(s.mem_sizes, part)
            + crate::input_sections::offset_of(s.reductions, part),
    decreases count,
{
    if count > 0 {
        lemma_scans_balance(s, list, outcomes, positions, sections, count - 1, part);
        if let Some(before) = relaxation::scans_after(
            s,
            list,
            outcomes,
            positions,
            sections,
            count - 1,
        ) {
            let input = before.inputs[list[count - 1] as int];
            if let (SectionSlot::Loaded(section), Some(outcome)) = (
                input.slot,
                outcomes[count - 1],
            ) {
                let raw_deltas = outcome.raw_deltas@;
                let deleted = crate::relax_deltas::total_deleted(
                    raw_deltas,
                    raw_deltas.len() as int,
                );
                crate::relax_deltas::lemma_total_deleted(raw_deltas, raw_deltas.len() as int);
                if deleted <= section.size {
                    relaxation::lemma_capacity_monotone(
                        section,
                        Section { size: (section.size - deleted) as u64, ..section },
                        input,
                        sections,
                    );
                }
            }
        }
    }
}

/// What a group loses is what its reductions say: in every part, the size before is the size after
/// and the reduction together.
pub proof fn lemma_reductions_balance<'data>(
    files: Seq<FileState>,
    mem_sizes: Map<u32, u64>,
    reductions: Map<u32, u64>,
    lists: Seq<IndexList>,
    outcomes: Seq<Vec<Option<ScanOutcome>>>,
    positions: Seq<Vec<Option<InputSectionPosition>>>,
    sections: &OutputSections<'data>,
    count: int,
    part: PartId,
)
    ensures
        group_scanned(
            files,
            mem_sizes,
            reductions,
            lists,
            outcomes,
            positions,
            sections,
            count,
        ) matches Some(scan) ==> crate::input_sections::offset_of(scan.mem_sizes, part)
            + crate::input_sections::offset_of(scan.reductions, part)
            == crate::input_sections::offset_of(mem_sizes, part)
            + crate::input_sections::offset_of(reductions, part),
    decreases count,
{
    if count > 0 {
        lemma_reductions_balance(
            files,
            mem_sizes,
            reductions,
            lists,
            outcomes,
            positions,
            sections,
            count - 1,
            part,
        );
        if let Some(before) = group_scanned(
            files,
            mem_sizes,
            reductions,
            lists,
            outcomes,
            positions,
            sections,
            count - 1,
        ) {
            if let FileState::Object(object) = files[count - 1] {
                lemma_scans_balance(
                    ScanView {
                        inputs: object.inputs@,
                        deltas: relaxation::deltas_of(object),
                        mem_sizes: before.mem_sizes,
                        reductions: before.reductions,
                        candidates: Seq::empty(),
                    },
                    lists[count - 1]@,
                    outcomes[count - 1]@,
                    positions[count - 1]@,
                    sections,
                    lists[count - 1]@.len() as int,
                    part,
                );
            }
        }
    }
}

} // verus!
