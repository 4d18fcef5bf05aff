//! The positions of all input sections.
use crate::groups;
use crate::groups::{compute_start_offsets_by_group, FileState, GroupState};
use crate::input_sections;
use crate::input_sections::{compute_object_section_positions, InputSectionPosition};
use crate::output_section_part_map::OutputSectionPartMap;
use crate::output_sections::OutputSections;
use crate::stable_order;
use vstd::prelude::*;

verus! {

/// The contents of a list of lists.
pub open spec fn views<T>(lists: Seq<Vec<T>>) -> Seq<Seq<T>> {
    Seq::new(lists.len(), |i: int| lists[i]@)
}

/// The positions of the sections of a file, and the offsets after them. Only objects have
/// sections.
pub open spec fn file_positions<'data>(
    file: FileState,
    offsets: Map<u32, u64>,
    sections: &OutputSections<'data>,
) -> Option<(Seq<Option<InputSectionPosition>>, Map<u32, u64>)> {
    match file {
        FileState::Object(object) => input_sections::positions_after(
            object.inputs@,
            offsets,
            sections,
            object.inputs@.len() as int,
        ),
        _ => Some((Seq::empty(), offsets)),
    }
}

/// The positions of the sections of the first `count` files of a group, and the offsets after
/// them. `None` if an address is not a 64-bit number.
pub open spec fn group_positions<'data>(
    files: Seq<FileState>,
    offsets: Map<u32, u64>,
    sections: &OutputSections<'data>,
    count: int,
) -> Option<(Seq<Seq<Option<InputSectionPosition>>>, Map<u32, u64>)>
    decreases count,
{
    if count <= 0 {
        Some((Seq::empty(), offsets))
    } else {
        match group_positions(files, offsets, sections, count - 1) {
            None => None,
            Some((positions, before)) => match file_positions(files[count - 1], before, sections) {
                None => None,
                Some((file, after)) => Some((positions.push(file), after)),
            },
        }
    }
}

/// Where the parts of the group at position `k` of the order start.
pub open spec fn group_starts(
    groups: Seq<GroupState>,
    order: Seq<usize>,
    offsets: OutputSectionPartMap<u64>,
    k: int,
) -> Map<u32, u64> {
    Map::new(
        |part: u32| groups[order[k] as int].mem_sizes@.contains_key(part),
        |part: u32| groups::start_of(groups, order, offsets, k, part) as u64,
    )
}

/// The positions of the sections of the group at position `k` of the order.
pub open spec fn ordered_group_positions<'data>(
    groups: Seq<GroupState>,
    order: Seq<usize>,
    offsets: OutputSectionPartMap<u64>,
    sections: &OutputSections<'data>,
    k: int,
) -> Option<(Seq<Seq<Option<InputSectionPosition>>>, Map<u32, u64>)> {
    let files = groups[order[k] as int].files@;
    group_positions(files, group_starts(groups, order, offsets, k), sections, files.len() as int)
}

/// Whether the sections of a file go into parts that exist.
pub open spec fn file_wf<'data>(file: FileState, sections: &OutputSections<'data>) -> bool {
    file matches FileState::Object(object) ==> input_sections::inputs_wf(object.inputs@, sections)
}

/// Whether the sections of all files go into parts that exist.
pub open spec fn files_wf<'data>(
    groups: Seq<GroupState>,
    sections: &OutputSections<'data>,
) -> bool {
    forall|g: int, f: int|
        #![trigger groups[g].files@[f]]
        0 <= g < groups.len() && 0 <= f < groups[g].files@.len() ==> file_wf(
            groups[g].files@[f],
            sections,
        )
}

proof fn lemma_group_positions_none<'data>(
    files: Seq<FileState>,
    offsets: Map<u32, u64>,
    sections: &OutputSections<'data>,
    count: int,
    total: int,
)
    requires
        0 <= count <= total,
        group_positions(files, offsets, sections, count) is None,
    ensures
        group_positions(files, offsets, sections, total) is None,
    decreases total - count,
{
    if count < total {
        lemma_group_positions_none(files, offsets, sections, count + 1, total);
    }
}

fn compute_group_positions<'data>(
    files: &Vec<FileState>,
    starts: &OutputSectionPartMap<u64>,
    sections: &OutputSections<'data>,
) -> (positions: Option<Vec<Vec<Option<InputSectionPosition>>>>)
    requires
        sections.wf(),
        starts.wf(),
        forall|f: int| 0 <= f < files@.len() ==> file_wf(#[trigger] files@[f], sections),
    ensures
        match (positions, group_positions(files@, starts@, sections, files@.len() as int)) {
            (Some(positions), Some((expected, _))) => views(positions@) == expected,
            (None, None) => true,
            _ => false,
        },
{
    let mut offsets: OutputSectionPartMap<u64> = starts.duplicate();
    let mut positions: Vec<Vec<Option<InputSectionPosition>>> = Vec::new();
    let mut i: usize = 0;
    while i < files.len()
        invariant
            i <= files@.len(),
            sections.wf(),
            offsets.wf(),
            forall|f: int| 0 <= f < files@.len() ==> file_wf(#[trigger] files@[f], sections),
            group_positions(files@, starts@, sections, i as int) == Some(
                (views(positions@), offsets@),
            ),
        decreases files@.len() - i,
    {
        assert(file_wf(files@[i as int], sections));
        let ghost before = views(positions@);
        match &files[i] {
            FileState::Object(object) => match compute_object_section_positions(
                &object.inputs,
                &mut offsets,
                sections,
            ) {
                Some(file) => {
                    positions.push(file);
                    assert(views(positions@) =~= before.push(file@));
                },
                None => {
                    proof {
                        lemma_group_positions_none(
                            files@,
                            starts@,
                            sections,
                            i + 1,
                            files@.len() as int,
                        );
                    }
                    return None;
                },
            },
            _ => {
                positions.push(Vec::new());
                assert(views(positions@) =~= before.push(Seq::empty()));
            },
        }
        i = i + 1;
    }
    Some(positions)
}

/// Computes the positions of all loaded input sections. If the parts are taken to start at 0, the
/// positions are offsets in the parts. `None` if an address is not a 64-bit number.
pub fn compute_input_section_positions<'data>(
    groups: &Vec<GroupState>,
    mem_offsets: OutputSectionPartMap<u64>,
    sections: &OutputSections<'data>,
) -> (result: Option<Vec<Vec<Vec<Option<InputSectionPosition>>>>>)
    requires
        sections.wf(),
        mem_offsets.wf(),
        groups::sizes_wf(groups@, mem_offsets.dense()),
        files_wf(groups@, sections),
    ensures
        forall|order: Seq<usize>| #[trigger]
            stable_order::is_stable_order(order, groups::group_keys(groups@)) ==> match result {
                Some(positions) => {
                    &&& groups::ends_fit(groups@, order, mem_offsets)
                    &&& positions@.len() == groups@.len()
                    &&& forall|k: int|
                        0 <= k < order.len() ==> {
                            &&& ordered_group_positions(groups@, order, mem_offsets, sections, k)
                                matches Some((expected, _))
                            &&& views(positions@[#[trigger] order[k] as int]@) == expected
                        }
                },
                None => !groups::ends_fit(groups@, order, mem_offsets) || exists|k: int|
                    0 <= k < order.len() && #[trigger] ordered_group_positions(
                        groups@,
                        order,
                        mem_offsets,
                        sections,
                        k,
                    ) is None,
            },
        result matches Some(positions) ==> positions@.len() == groups@.len() && forall|g: int|
            0 <= g < groups@.len() ==> (#[trigger] positions@[g])@.len() == groups@[g].files@.len(),
{
    let ghost before = mem_offsets;
    let starts: Vec<OutputSectionPartMap<u64>> = match compute_start_offsets_by_group(
        groups,
        mem_offsets,
    ) {
        Some(starts) => starts,
        None => {
            return None;
        },
    };
    let keys: Vec<(u64, u64)> = groups::collect_keys(groups);
    let order: Vec<usize> = stable_order::stable_order(&keys);
    proof {
        assert forall|other: Seq<usize>| #[trigger]
            stable_order::is_stable_order(other, keys@) implies other == order@ by {
            stable_order::lemma_stable_order_unique(other, order@, keys@);
        }
        assert forall|k: int| 0 <= k < order@.len() implies (#[trigger] starts@[order@[k] as int]).wf()
            && starts@[order@[k] as int]@ == group_starts(groups@, order@, before, k) by {
            assert(groups::starts_at(
                starts@[order@[k] as int],
                groups@,
                order@,
                before,
                k,
            ));
            assert(starts@[order@[k] as int]@ =~= group_starts(groups@, order@, before, k)) by {
                assert forall|part: u32| #[trigger]
                    starts@[order@[k] as int]@.contains_key(part) implies starts@[order@[k] as int]@[part]
                    == group_starts(groups@, order@, before, k)[part] by {
                    assert(starts@[order@[k] as int]@[part] == groups::start_of(
                        groups@,
                        order@,
                        before,
                        k,
                        part,
                    ));
                }
            }
        }
    }
    let mut positions: Vec<Vec<Vec<Option<InputSectionPosition>>>> = Vec::new();
    let mut g: usize = 0;
    while g < groups.len()
        invariant
            g <= groups@.len(),
            before == mem_offsets,
            sections.wf(),
            files_wf(groups@, sections),
            keys@ == groups::group_keys(groups@),
            starts@.len() == groups@.len(),
            stable_order::is_stable_order(order@, keys@),
            forall|other: Seq<usize>| #[trigger]
                stable_order::is_stable_order(other, keys@) ==> other == order@,
            forall|k: int|
                0 <= k < order@.len() ==> (#[trigger] starts@[order@[k] as int]).wf()
                    && starts@[order@[k] as int]@ == group_starts(groups@, order@, before, k),
            positions@.len() == g,
            forall|i: int|
                0 <= i < g ==> (#[trigger] positions@[i])@.len() == groups@[i].files@.len(),
            forall|k: int|
                0 <= k < order@.len() && order@[k] < g ==> {
                    &&& ordered_group_positions(groups@, order@, before, sections, k) matches Some(
                        (expected, _),
                    )
                    &&& views(positions@[#[trigger] order@[k] as int]@) == expected
                },
        decreases groups@.len() - g,
    {
        proof {
            assert(stable_order::listed(order@, g as int));
            assert forall|f: int| 0 <= f < groups@[g as int].files@.len() implies file_wf(
                #[trigger] groups@[g as int].files@[f],
                sections,
            ) by {}
        }
        let ghost at = choose|k: int| 0 <= k < order@.len() && #[trigger] order@[k] == g;
        assert(starts@[order@[at] as int].wf());
        match compute_group_positions(&groups[g].files, &starts[g], sections) {
            Some(group) => {
                proof {
                    lemma_group_positions_len(
                        groups@[g as int].files@,
                        starts@[g as int]@,
                        sections,
                        groups@[g as int].files@.len() as int,
                    );
                    assert(views(group@).len() == group@.len());
                }
                let ghost old_positions = positions@;
                positions.push(group);
                proof {
                    assert forall|k: int| 0 <= k < order@.len() && order@[k] < g + 1 implies ({
                        &&& ordered_group_positions(groups@, order@, before, sections, k) matches Some(
                            (expected, _),
                        )
                        &&& views(positions@[#[trigger] order@[k] as int]@) == expected
                    }) by {
                        if order@[k] == g {
                            assert(starts@[order@[k] as int]@ == group_starts(
                                groups@,
                                order@,
                                before,
                                k,
                            ));
                        } else {
                            assert(positions@[order@[k] as int] == old_positions[order@[k] as int]);
                        }
                    }
                }
            },
            None => {
                assert(ordered_group_positions(groups@, order@, before, sections, at) is None);
                return None;
            },
        }
        g = g + 1;
    }
    Some(positions)
}

proof fn lemma_group_positions_len<'data>(
    files: Seq<FileState>,
    offsets: Map<u32, u64>,
    sections: &OutputSections<'data>,
    count: int,
)
    requires
        0 <= count,
    ensures
        group_positions(files, offsets, sections, count) matches Some((positions, _))
            ==> positions.len() == count,
    decreases count,
{
    if count > 0 {
        lemma_group_positions_len(files, offsets, sections, count - 1);
    }
}

} // verus!
