//! Makes code smaller until there is nothing left to gain.
use crate::groups;
use crate::groups::{FileState, GroupState, ObjectState};
use crate::input_sections::InputSectionPosition;
use crate::output_section_part_map::OutputSectionPartMap;
use crate::output_sections::OutputSections;
use crate::record_layout::OutputRecordLayout;
use crate::relaxation;
use crate::relaxation::{sections_to_scan, ScanOutcome, ScanView, MAX_RELAXATION_ITERATIONS};
use crate::relaxation_pass;
use crate::relaxation_pass::{relaxation_scan_pass, RelaxationLoop};
use crate::section_positions;
use crate::small_lists::{IndexList, MarginList};
use crate::symbol_addresses;
use crate::symbol_addresses::{compute_section_and_symbol_addresses, SymbolOutputInfos};
use crate::symbol_id::SymbolId;
use vstd::prelude::*;

verus! {

/// The positions of the input sections of each file of each group.
pub type Positions = Vec<Vec<Vec<Option<InputSectionPosition>>>>;

/// What scans have found in the sections of each file of each group.
pub type Outcomes = Vec<Vec<Vec<Option<ScanOutcome>>>>;

/// Whether deletions are recorded for each section of a file.
pub open spec fn has_deltas(file: FileState) -> bool {
    file matches FileState::Object(object) ==> object.relax_deltas@.len() == object.inputs@.len()
}

/// Whether groups can be laid out and scanned.
pub open spec fn groups_wf<'data>(
    groups: Seq<GroupState>,
    dense: nat,
    definitions: Seq<SymbolId>,
    sections: &OutputSections<'data>,
) -> bool {
    &&& groups::sizes_wf(groups, dense)
    &&& section_positions::files_wf(groups, sections)
    &&& symbol_addresses::all_symbols_below(groups, definitions.len() as int)
    &&& forall|g: int, f: int|
        #![trigger groups[g].files@[f]]
        0 <= g < groups.len() && 0 <= f < groups[g].files@.len() ==> has_deltas(
            groups[g].files@[f],
        )
}

/// Whether a scan has kept what it does not change, and its candidates are sections that exist.
pub open spec fn scan_keeps(object: ObjectState, s: ScanView) -> bool {
    &&& s.inputs.len() == object.inputs@.len()
    &&& s.deltas.len() == object.relax_deltas@.len()
    &&& forall|i: int|
        0 <= i < s.inputs.len() ==> (#[trigger] s.inputs[i]).part_id == object.inputs@[i].part_id
    &&& candidates_exist(s.candidates, object)
}

/// Whether the candidates are sections of an object.
pub open spec fn candidates_exist(candidates: Seq<(usize, u64)>, object: ObjectState) -> bool {
    forall|i: int|
        0 <= i < candidates.len() ==> (#[trigger] candidates[i]).0 < object.inputs@.len()
}

proof fn lemma_scans_keep<'data>(
    object: ObjectState,
    s: ScanView,
    list: Seq<usize>,
    outcomes: Seq<Option<ScanOutcome>>,
    positions: Seq<Option<InputSectionPosition>>,
    sections: &OutputSections<'data>,
    count: int,
)
    requires
        scan_keeps(object, s),
        0 <= count <= list.len(),
        object.relax_deltas@.len() == object.inputs@.len(),
        forall|i: int| 0 <= i < list.len() ==> (#[trigger] list[i]) < object.inputs@.len(),
    ensures
        relaxation::scans_after(s, list, outcomes, positions, sections, count) matches Some(t)
            ==> scan_keeps(object, t),
    decreases count,
{
    if count > 0 {
        lemma_scans_keep(object, s, list, outcomes, positions, sections, count - 1);
        assert(list[count - 1] < object.inputs@.len());
    }
}

proof fn lemma_group_keeps<'data>(
    files: Seq<FileState>,
    mem_sizes: Map<u32, u64>,
    reductions: Map<u32, u64>,
    lists: Seq<IndexList>,
    outcomes: Seq<Vec<Option<ScanOutcome>>>,
    positions: Seq<Vec<Option<InputSectionPosition>>>,
    sections: &OutputSections<'data>,
    count: int,
)
    requires
        relaxation_pass::group_scan_wf(files, lists, outcomes, positions),
        0 <= count <= files.len(),
    ensures
        relaxation_pass::group_scanned(
            files,
            mem_sizes,
            reductions,
            lists,
            outcomes,
            positions,
            sections,
            count,
        ) matches Some(scan) ==> {
            &&& scan.objects.len() == count
            &&& forall|f: int|
                0 <= f < count ==> match files[f] {
                    FileState::Object(object) => (#[trigger] scan.objects[f] matches Some(s)
                        && scan_keeps(object, s)),
                    _ => scan.objects[f] is None,
                }
        },
    decreases count,
{
    if count > 0 {
        lemma_group_keeps(
            files,
            mem_sizes,
            reductions,
            lists,
            outcomes,
            positions,
            sections,
            count - 1,
        );
        if let Some(before) = relaxation_pass::group_scanned(
            files,
            mem_sizes,
            reductions,
            lists,
            outcomes,
            positions,
            sections,
            count - 1,
        ) {
            assert(relaxation_pass::scan_wf(
                files[count - 1],
                lists[count - 1],
                outcomes[count - 1],
            ));
            if let FileState::Object(object) = files[count - 1] {
                lemma_scans_keep(
                    object,
                    ScanView {
                        inputs: object.inputs@,
                        deltas: relaxation::deltas_of(object),
                        mem_sizes: before.mem_sizes,
                        reductions: before.reductions,
                        candidates: Seq::empty(),
                    },
                    lists[count - 1]@,
                    outcomes[count - 1]@,
                    positions[count - 1]@,
                    sections,
                    lists[count - 1]@.len() as int,
                );
            }
        }
    }
}

/// Whether the candidates of all files are sections that exist.
pub open spec fn all_candidates_exist(
    groups: Seq<GroupState>,
    candidates: Seq<Vec<MarginList>>,
) -> bool {
    &&& candidates.len() == groups.len()
    &&& forall|g: int|
        0 <= g < groups.len() ==> (#[trigger] candidates[g])@.len() == groups[g].files@.len()
    &&& forall|g: int, f: int|
        #![trigger groups[g].files@[f]]
        0 <= g < groups.len() && 0 <= f < groups[g].files@.len() ==> (groups[g].files@[f] matches
            FileState::Object(object) ==> candidates_exist(candidates[g]@[f]@, object))
}

proof fn lemma_pass_keeps<'data>(
    before: Seq<GroupState>,
    after: Seq<GroupState>,
    sizes_before: Map<u32, u64>,
    sizes_after: Map<u32, u64>,
    lists: Seq<Vec<IndexList>>,
    outcomes: Seq<Vec<Vec<Option<ScanOutcome>>>>,
    positions: Seq<Vec<Vec<Option<InputSectionPosition>>>>,
    sections: &OutputSections<'data>,
    deleted: u64,
    candidates: Seq<Vec<MarginList>>,
    dense: nat,
    definitions: Seq<SymbolId>,
)
    requires
        groups_wf(before, dense, definitions, sections),
        relaxation_pass::pass_wf(before, lists, outcomes, positions),
        relaxation_pass::pass_applied(
            before,
            after,
            sizes_before,
            sizes_after,
            lists,
            outcomes,
            positions,
            sections,
            deleted,
            candidates,
        ),
    ensures
        groups_wf(after, dense, definitions, sections),
        all_candidates_exist(after, candidates),
{
    let reductions = relaxation_pass::reductions_of(before, lists, outcomes, positions, sections);
    assert forall|g: int| 0 <= g < after.len() implies {
        &&& (#[trigger] after[g]).mem_sizes.wf()
        &&& after[g].mem_sizes.dense() == dense
        &&& after[g].files@.len() == before[g].files@.len()
        &&& candidates[g]@.len() == after[g].files@.len()
    } by {
        assert(relaxation_pass::group_passed(
            before[g],
            after[g],
            lists[g],
            outcomes[g],
            positions[g],
            sections,
            candidates[g]@,
            reductions[g],
        ));
        assert(before[g].mem_sizes.dense() == dense);
    }
    assert forall|g: int, f: int|
        #![trigger after[g].files@[f]]
        0 <= g < after.len() && 0 <= f < after[g].files@.len() implies {
        &&& section_positions::file_wf(after[g].files@[f], sections)
        &&& symbol_addresses::symbols_below(after[g].files@[f], definitions.len() as int)
        &&& has_deltas(after[g].files@[f])
        &&& (after[g].files@[f] matches FileState::Object(object) ==> candidates_exist(
            candidates[g]@[f]@,
            object,
        ))
    } by {
        assert(relaxation_pass::group_passed(
            before[g],
            after[g],
            lists[g],
            outcomes[g],
            positions[g],
            sections,
            candidates[g]@,
            reductions[g],
        ));
        assert(relaxation_pass::group_scan_wf(
            before[g].files@,
            lists[g]@,
            outcomes[g]@,
            positions[g]@,
        )) by {
            assert(before[g].mem_sizes.wf());
        }
        let scan = relaxation_pass::scan_of_group(
            before[g],
            lists[g],
            outcomes[g],
            positions[g],
            sections,
        )->0;
        lemma_group_keeps(
            before[g].files@,
            before[g].mem_sizes@,
            relaxation_pass::no_reductions(before[g].mem_sizes.dense()),
            lists[g]@,
            outcomes[g]@,
            positions[g]@,
            sections,
            before[g].files@.len() as int,
        );
        assert(relaxation_pass::file_scanned(
            before[g].files@[f],
            after[g].files@[f],
            candidates[g]@[f]@,
            scan.objects[f],
        ));
        assert(section_positions::file_wf(before[g].files@[f], sections));
        assert(has_deltas(before[g].files@[f]));
        if let FileState::Object(object) = before[g].files@[f] {
            assert(scan.objects[f] matches Some(s) && scan_keeps(object, s));
            let s = scan.objects[f]->0;
            if let FileState::Object(new_object) = after[g].files@[f] {
                assert(relaxation::deltas_of(new_object).len() == s.deltas.len());
                assert forall|i: int| 0 <= i < new_object.inputs@.len() implies
                    sections.platform.section_of((#[trigger] new_object.inputs@[i]).part_id.0 as int)
                    < sections.count() by {
                    assert(s.inputs[i].part_id == object.inputs@[i].part_id);
                }
            }
        }
    }
}

/// Whether the lists hold the sections to scan: in the first pass those with loaded code, later
/// those that the last pass left over.
pub open spec fn lists_chosen(
    groups: Seq<GroupState>,
    rescan: Option<Vec<Vec<IndexList>>>,
    lists: Seq<Vec<IndexList>>,
) -> bool {
    &&& lists.len() == groups.len()
    &&& forall|g: int|
        0 <= g < groups.len() ==> (#[trigger] lists[g])@.len() == groups[g].files@.len()
    &&& forall|g: int, f: int|
        #![trigger lists[g]@[f]]
        0 <= g < groups.len() && 0 <= f < groups[g].files@.len() ==> lists[g]@[f]@ == chosen(
            groups[g].files@[f],
            rescan,
            g,
            f,
        )
}

/// The sections of a file to scan. Only objects have sections.
pub open spec fn chosen(
    file: FileState,
    rescan: Option<Vec<Vec<IndexList>>>,
    g: int,
    f: int,
) -> Seq<usize> {
    match file {
        FileState::Object(object) => match rescan {
            Some(rescan) => rescan@[g]@[f]@,
            None => relaxation::scannable(object.inputs@, object.inputs@.len() as int),
        },
        _ => Seq::empty(),
    }
}

/// Whether the sections that a pass left over exist.
pub open spec fn rescan_wf(groups: Seq<GroupState>, rescan: Option<Vec<Vec<IndexList>>>) -> bool {
    rescan matches Some(rescan) ==> {
        &&& rescan@.len() == groups.len()
        &&& forall|g: int|
            0 <= g < groups.len() ==> (#[trigger] rescan@[g])@.len() == groups[g].files@.len()
        &&& forall|g: int, f: int|
            #![trigger groups[g].files@[f]]
            0 <= g < groups.len() && 0 <= f < groups[g].files@.len() ==> (groups[g].files@[f]
                matches FileState::Object(object) ==> indexes_exist(rescan@[g]@[f]@, object))
    }
}

/// Whether indexes are those of sections of an object.
pub open spec fn indexes_exist(indexes: Seq<usize>, object: ObjectState) -> bool {
    forall|i: int| 0 <= i < indexes.len() ==> (#[trigger] indexes[i]) < object.inputs@.len()
}

proof fn lemma_scannable_exist(object: ObjectState, count: int)
    requires
        0 <= count <= object.inputs@.len(),
    ensures
        indexes_exist(relaxation::scannable(object.inputs@, count), object),
    decreases count,
{
    if count > 0 {
        lemma_scannable_exist(object, count - 1);
    }
}

proof fn lemma_within_reach_exist(
    candidates: Seq<(usize, u64)>,
    deleted: u64,
    count: int,
    object: ObjectState,
)
    requires
        0 <= count <= candidates.len(),
        candidates_exist(candidates, object),
    ensures
        indexes_exist(relaxation_pass::within_reach(candidates, deleted, count), object),
    decreases count,
{
    if count > 0 {
        lemma_within_reach_exist(candidates, deleted, count - 1, object);
    }
}

fn choose_file_list(file: &FileState, rescan: Option<&IndexList>) -> (list: IndexList)
    ensures
        list@ == (match *file {
            FileState::Object(object) => match rescan {
                Some(rescan) => rescan@,
                None => relaxation::scannable(object.inputs@, object.inputs@.len() as int),
            },
            _ => Seq::empty(),
        }),
{
    match file {
        FileState::Object(object) => sections_to_scan(object, rescan),
        _ => IndexList::new(),
    }
}

/// Chooses the sections to scan.
pub fn choose_lists(groups: &Vec<GroupState>, rescan: &Option<Vec<Vec<IndexList>>>) -> (lists: Vec<
    Vec<IndexList>,
>)
    requires
        rescan_wf(groups@, *rescan),
    ensures
        lists_chosen(groups@, *rescan, lists@),
{
    let mut lists: Vec<Vec<IndexList>> = Vec::new();
    let mut g: usize = 0;
    while g < groups.len()
        invariant
            g <= groups@.len(),
            rescan_wf(groups@, *rescan),
            lists@.len() == g,
            forall|k: int|
                0 <= k < g ==> (#[trigger] lists@[k])@.len() == groups@[k].files@.len(),
            forall|k: int, f: int|
                #![trigger lists@[k]@[f]]
                0 <= k < g && 0 <= f < groups@[k].files@.len() ==> lists@[k]@[f]@ == chosen(
                    groups@[k].files@[f],
                    *rescan,
                    k,
                    f,
                ),
        decreases groups@.len() - g,
    {
        let group: &GroupState = &groups[g];
        let mut files: Vec<IndexList> = Vec::new();
        let mut f: usize = 0;
        while f < group.files.len()
            invariant
                g < groups@.len(),
                *group == groups@[g as int],
                f <= group.files@.len(),
                rescan_wf(groups@, *rescan),
                files@.len() == f,
                forall|k: int|
                    0 <= k < f ==> (#[trigger] files@[k])@ == chosen(
                        group.files@[k],
                        *rescan,
                        g as int,
                        k,
                    ),
            decreases group.files@.len() - f,
        {
            let left_over: Option<&IndexList> = match rescan {
                Some(rescan) => {
                    assert(rescan@[g as int]@.len() == groups@[g as int].files@.len());
                    Some(&rescan[g][f])
                },
                None => None,
            };
            files.push(choose_file_list(&group.files[f], left_over));
            f = f + 1;
        }
        lists.push(files);
        g = g + 1;
    }
    lists
}

/// How far relaxation has come.
pub ghost struct Relaxation<X> {
    pub groups: Vec<GroupState>,
    pub sizes: OutputSectionPartMap<u64>,
    pub part_layouts: OutputSectionPartMap<OutputRecordLayout>,
    /// The rest of the layout.
    pub rest: X,
    /// The sections that the last pass left over. `None` before the first pass.
    pub rescan: Option<Vec<Vec<IndexList>>>,
}

/// What is found in a pass.
pub ghost struct Scan {
    pub positions: Positions,
    pub symbols: SymbolOutputInfos,
    pub lists: Vec<Vec<IndexList>>,
    pub outcomes: Outcomes,
}

/// A pass in which something was deleted, and the layout after it.
pub ghost struct Pass<X> {
    pub before: Relaxation<X>,
    pub scan: Scan,
    pub deleted: u64,
    pub candidates: Vec<Vec<MarginList>>,
    pub after: Relaxation<X>,
}

/// Whether a pass finds this: the addresses follow from the layout, and the sections that are due
/// are scanned with them.
pub open spec fn is_scan<'data, X, S: Fn(
    &Vec<GroupState>,
    &Vec<Vec<IndexList>>,
    &Positions,
    &SymbolOutputInfos,
) -> Outcomes>(
    state: Relaxation<X>,
    scan: Scan,
    scanner: S,
    definitions: Seq<SymbolId>,
    sections: &OutputSections<'data>,
) -> bool {
    &&& symbol_addresses::addresses_computed(
        state.groups@,
        state.part_layouts,
        definitions,
        sections,
        symbol_addresses::computed_view(Some((scan.positions, scan.symbols))),
    )
    &&& lists_chosen(state.groups@, state.rescan, scan.lists@)
    &&& call_ensures(
        scanner,
        (&state.groups, &scan.lists, &scan.positions, &scan.symbols),
        scan.outcomes,
    )
}

/// Whether applying what a scan has found leads from one state of the groups and the sizes to
/// another.
pub open spec fn is_applied<'data, X>(
    before: Relaxation<X>,
    scan: Scan,
    after: Relaxation<X>,
    deleted: u64,
    candidates: Seq<Vec<MarginList>>,
    sections: &OutputSections<'data>,
) -> bool {
    relaxation_pass::pass_applied(
        before.groups@,
        after.groups@,
        before.sizes@,
        after.sizes@,
        scan.lists@,
        scan.outcomes@,
        scan.positions@,
        sections,
        deleted,
        candidates,
    )
}

/// Whether the sections that are scanned next are those within reach.
pub open spec fn is_rescan(
    candidates: Seq<Vec<MarginList>>,
    deleted: u64,
    rescan: Option<Vec<Vec<IndexList>>>,
) -> bool {
    &&& rescan matches Some(rescan)
    &&& rescan@.len() == candidates.len()
    &&& forall|g: int|
        0 <= g < candidates.len() ==> (#[trigger] rescan@[g])@.len() == candidates[g]@.len()
    &&& forall|g: int, f: int|
        #![trigger rescan@[g]@[f]]
        0 <= g < candidates.len() && 0 <= f < candidates[g]@.len() ==> rescan@[g]@[f]@
            == relaxation_pass::within_reach(
            candidates[g]@[f]@,
            deleted,
            candidates[g]@[f]@.len() as int,
        )
}

/// Whether a pass is one that relaxation makes.
pub open spec fn is_pass<'data, X, E, S: Fn(
    &Vec<GroupState>,
    &Vec<Vec<IndexList>>,
    &Positions,
    &SymbolOutputInfos,
) -> Outcomes, L: Fn(&Vec<GroupState>, &OutputSectionPartMap<u64>) -> Result<
    (OutputSectionPartMap<OutputRecordLayout>, X),
    E,
>>(
    pass: Pass<X>,
    scanner: S,
    layout: L,
    definitions: Seq<SymbolId>,
    sections: &OutputSections<'data>,
) -> bool {
    &&& is_scan(pass.before, pass.scan, scanner, definitions, sections)
    &&& is_applied(
        pass.before,
        pass.scan,
        pass.after,
        pass.deleted,
        pass.candidates@,
        sections,
    )
    &&& pass.deleted > 0
    &&& is_rescan(pass.candidates@, pass.deleted, pass.after.rescan)
    &&& call_ensures(
        layout,
        (&pass.after.groups, &pass.after.sizes),
        Ok::<_, E>((pass.after.part_layouts, pass.after.rest)),
    )
}

/// Whether there is something left to scan.
pub open spec fn something_left(rescan: Option<Vec<Vec<IndexList>>>) -> bool {
    rescan matches Some(rescan) ==> !relaxation_pass::nothing_left(rescan@)
}

/// Whether passes follow each other, starting and ending in the given states. Each starts with
/// something left to scan, and there are not too many.
pub open spec fn are_passes<'data, X, E, S: Fn(
    &Vec<GroupState>,
    &Vec<Vec<IndexList>>,
    &Positions,
    &SymbolOutputInfos,
) -> Outcomes, L: Fn(&Vec<GroupState>, &OutputSectionPartMap<u64>) -> Result<
    (OutputSectionPartMap<OutputRecordLayout>, X),
    E,
>>(
    passes: Seq<Pass<X>>,
    start: Relaxation<X>,
    end: Relaxation<X>,
    scanner: S,
    layout: L,
    definitions: Seq<SymbolId>,
    sections: &OutputSections<'data>,
) -> bool {
    &&& passes.len() <= MAX_RELAXATION_ITERATIONS
    &&& end == (if passes.len() == 0 {
        start
    } else {
        passes.last().after
    })
    &&& forall|i: int|
        0 <= i < passes.len() ==> is_pass(
            #[trigger] passes[i],
            scanner,
            layout,
            definitions,
            sections,
        ) && something_left(passes[i].before.rescan) && passes[i].before == (if i == 0 {
            start
        } else {
            passes[i - 1].after
        })
}

/// Why relaxation fails.
pub enum RelaxationError<E> {
    /// An address is not a 64-bit number.
    Overflow,
    /// More is deleted than there is.
    TooMuchDeleted,
    /// The sections cannot be laid out.
    Layout(E),
}

/// Why something has failed.
pub open spec fn failure_of<T, E>(result: Result<T, E>) -> Option<E> {
    match result {
        Ok(_) => None,
        Err(error) => Some(error),
    }
}

/// How relaxation ends after some passes. It succeeds if there were enough passes, nothing is left
/// to scan, or one more scan deletes nothing.
pub open spec fn ends_with<'data, X, E, S: Fn(
    &Vec<GroupState>,
    &Vec<Vec<IndexList>>,
    &Positions,
    &SymbolOutputInfos,
) -> Outcomes, L: Fn(&Vec<GroupState>, &OutputSectionPartMap<u64>) -> Result<
    (OutputSectionPartMap<OutputRecordLayout>, X),
    E,
>>(
    passes: nat,
    state: Relaxation<X>,
    last: Option<Scan>,
    end: Relaxation<X>,
    failure: Option<RelaxationError<E>>,
    scanner: S,
    layout: L,
    definitions: Seq<SymbolId>,
    sections: &OutputSections<'data>,
) -> bool {
    let goes_on = passes < MAX_RELAXATION_ITERATIONS && something_left(state.rescan);
    match last {
        None => match failure {
            None => !goes_on && end == state,
            Some(error) => goes_on && error is Overflow && end == state
                && symbol_addresses::addresses_computed(
                state.groups@,
                state.part_layouts,
                definitions,
                sections,
                None,
            ),
        },
        Some(scan) => {
            &&& goes_on
            &&& is_scan(state, scan, scanner, definitions, sections)
            &&& match failure {
                None => end.rescan == state.rescan && end.part_layouts == state.part_layouts
                    && end.rest == state.rest && exists|candidates: Seq<Vec<MarginList>>|
                    #[trigger] is_applied(state, scan, end, 0, candidates, sections),
                Some(RelaxationError::TooMuchDeleted) => !relaxation_pass::pass_fits(
                    state.groups@,
                    state.sizes@,
                    scan.lists@,
                    scan.outcomes@,
                    scan.positions@,
                    sections,
                ),
                Some(RelaxationError::Layout(error)) => exists|
                    deleted: u64,
                    candidates: Seq<Vec<MarginList>>,
                |
                    #[trigger] is_applied(state, scan, end, deleted, candidates, sections)
                        && deleted > 0 && call_ensures(
                        layout,
                        (&end.groups, &end.sizes),
                        Err::<(OutputSectionPartMap<OutputRecordLayout>, X), E>(error),
                    ),
                Some(RelaxationError::Overflow) => false,
            }
        },
    }
}

proof fn lemma_ends_without_deletions<'data, X, E, S: Fn(
    &Vec<GroupState>,
    &Vec<Vec<IndexList>>,
    &Positions,
    &SymbolOutputInfos,
) -> Outcomes, L: Fn(&Vec<GroupState>, &OutputSectionPartMap<u64>) -> Result<
    (OutputSectionPartMap<OutputRecordLayout>, X),
    E,
>>(
    passes: nat,
    state: Relaxation<X>,
    scan: Scan,
    end: Relaxation<X>,
    candidates: Seq<Vec<MarginList>>,
    scanner: S,
    layout: L,
    definitions: Seq<SymbolId>,
    sections: &OutputSections<'data>,
)
    requires
        passes < MAX_RELAXATION_ITERATIONS,
        something_left(state.rescan),
        is_scan(state, scan, scanner, definitions, sections),
        is_applied(state, scan, end, 0, candidates, sections),
        end.rescan == state.rescan,
        end.part_layouts == state.part_layouts,
        end.rest == state.rest,
    ensures
        ends_with::<X, E, S, L>(
            passes,
            state,
            Some(scan),
            end,
            None::<RelaxationError<E>>,
            scanner,
            layout,
            definitions,
            sections,
        ),
{
    assert(exists|list: Seq<Vec<MarginList>>| #[trigger]
        is_applied(state, scan, end, 0, list, sections));
}

proof fn lemma_ends_without_layout<'data, X, E, S: Fn(
    &Vec<GroupState>,
    &Vec<Vec<IndexList>>,
    &Positions,
    &SymbolOutputInfos,
) -> Outcomes, L: Fn(&Vec<GroupState>, &OutputSectionPartMap<u64>) -> Result<
    (OutputSectionPartMap<OutputRecordLayout>, X),
    E,
>>(
    passes: nat,
    state: Relaxation<X>,
    scan: Scan,
    end: Relaxation<X>,
    deleted: u64,
    error: E,
    candidates: Seq<Vec<MarginList>>,
    scanner: S,
    layout: L,
    definitions: Seq<SymbolId>,
    sections: &OutputSections<'data>,
)
    requires
        passes < MAX_RELAXATION_ITERATIONS,
        something_left(state.rescan),
        is_scan(state, scan, scanner, definitions, sections),
        is_applied(state, scan, end, deleted, candidates, sections),
        deleted > 0,
        call_ensures(
            layout,
            (&end.groups, &end.sizes),
            Err::<(OutputSectionPartMap<OutputRecordLayout>, X), E>(error),
        ),
    ensures
        ends_with::<X, E, S, L>(
            passes,
            state,
            Some(scan),
            end,
            Some(RelaxationError::Layout(error)),
            scanner,
            layout,
            definitions,
            sections,
        ),
{
}

/// Whether groups, what to scan in them and addresses belong together: a scanner is given nothing
/// else.
pub open spec fn scan_wf<'data>(
    groups: Seq<GroupState>,
    lists: Seq<Vec<IndexList>>,
    positions: Positions,
    symbols: SymbolOutputInfos,
    dense: nat,
    definitions: Seq<SymbolId>,
    sections: &OutputSections<'data>,
) -> bool {
    &&& groups_wf(groups, dense, definitions, sections)
    &&& exists|rescan: Option<Vec<Vec<IndexList>>>|
        rescan_wf(groups, rescan) && #[trigger] lists_chosen(groups, rescan, lists)
    &&& exists|layouts: OutputSectionPartMap<OutputRecordLayout>|
        layouts.wf() && layouts.dense() == dense && #[trigger] symbol_addresses::addresses_computed(
            groups,
            layouts,
            definitions,
            sections,
            symbol_addresses::computed_view(Some((positions, symbols))),
        )
}

/// Deletes from code what shorter distances make unnecessary, again and again: deleting changes
/// addresses, and with them what can be deleted. `scanner` finds what can be deleted from each of
/// the sections that it is given, and `layout` lays out what is left.
#[verifier::rlimit(50)]
pub fn perform_iterative_relaxation<'data, X, E, S: Fn(
    &Vec<GroupState>,
    &Vec<Vec<IndexList>>,
    &Positions,
    &SymbolOutputInfos,
) -> Outcomes, L: Fn(&Vec<GroupState>, &OutputSectionPartMap<u64>) -> Result<
    (OutputSectionPartMap<OutputRecordLayout>, X),
    E,
>>(
    groups: &mut Vec<GroupState>,
    section_part_sizes: &mut OutputSectionPartMap<u64>,
    part_layouts: OutputSectionPartMap<OutputRecordLayout>,
    rest: X,
    definitions: &Vec<SymbolId>,
    sections: &OutputSections<'data>,
    scanner: S,
    layout: L,
) -> (result: Result<(OutputSectionPartMap<OutputRecordLayout>, X), RelaxationError<E>>)
    requires
        sections.wf(),
        part_layouts.wf(),
        old(section_part_sizes).wf(),
        definitions@.len() <= u32::MAX,
        groups_wf(old(groups)@, part_layouts.dense(), definitions@, sections),
        forall|
            groups: Vec<GroupState>,
            lists: Vec<Vec<IndexList>>,
            positions: Positions,
            symbols: SymbolOutputInfos,
        |
            scan_wf(
                groups@,
                lists@,
                positions,
                symbols,
                part_layouts.dense(),
                definitions@,
                sections,
            ) ==> #[trigger] call_requires(scanner, (&groups, &lists, &positions, &symbols)),
        forall|
            groups: Vec<GroupState>,
            lists: Vec<Vec<IndexList>>,
            positions: Positions,
            symbols: SymbolOutputInfos,
            outcomes: Outcomes,
        |
            #[trigger] call_ensures(scanner, (&groups, &lists, &positions, &symbols), outcomes)
                && scan_wf(
                groups@,
                lists@,
                positions,
                symbols,
                part_layouts.dense(),
                definitions@,
                sections,
            ) ==> outcomes_match(lists@, outcomes@),
        forall|groups: Vec<GroupState>, sizes: OutputSectionPartMap<u64>|
            groups_wf(groups@, part_layouts.dense(), definitions@, sections) && sizes.wf() && sizes.dense()
                == old(section_part_sizes).dense() ==> #[trigger] call_requires(
                layout,
                (&groups, &sizes),
            ),
        forall|
            groups: Vec<GroupState>,
            sizes: OutputSectionPartMap<u64>,
            layouts: OutputSectionPartMap<OutputRecordLayout>,
            rest: X,
        |
            #[trigger] call_ensures(layout, (&groups, &sizes), Ok::<_, E>((layouts, rest)))
                && groups_wf(groups@, part_layouts.dense(), definitions@, sections) && sizes.wf()
                && sizes.dense() == old(section_part_sizes).dense() ==> layouts.wf()
                && layouts.dense() == part_layouts.dense(),
    ensures
        final(section_part_sizes).wf(),
        final(section_part_sizes).dense() == old(section_part_sizes).dense(),
        exists|passes: Seq<Pass<X>>, state: Relaxation<X>, last: Option<Scan>, end: Relaxation<X>|
            {
                &&& #[trigger] are_passes(
                    passes,
                    Relaxation {
                        groups: *old(groups),
                        sizes: *old(section_part_sizes),
                        part_layouts,
                        rest,
                        rescan: None,
                    },
                    state,
                    scanner,
                    layout,
                    definitions@,
                    sections,
                )
                &&& #[trigger] ends_with(
                    passes.len(),
                    state,
                    last,
                    end,
                    failure_of(result),
                    scanner,
                    layout,
                    definitions@,
                    sections,
                )
                &&& !(result matches Err(RelaxationError::TooMuchDeleted)) ==> end.groups
                    == *final(groups) && end.sizes == *final(section_part_sizes)
                &&& result matches Ok((part_layouts, rest)) ==> end.part_layouts == part_layouts
                    && end.rest == rest
            },
{
    let ghost dense = part_layouts.dense();
    let ghost start = Relaxation {
        groups: *groups,
        sizes: *section_part_sizes,
        part_layouts,
        rest,
        rescan: None,
    };
    let mut layouts: OutputSectionPartMap<OutputRecordLayout> = part_layouts;
    let mut other: X = rest;
    let mut state: RelaxationLoop = RelaxationLoop::new();
    let ghost mut passes: Seq<Pass<X>> = Seq::empty();
    let ghost mut current = start;
    let mut scans: bool = state.should_scan();
    while scans
        invariant
            scans == state.goes_on(),
            state.passes == passes.len(),
            state.rescan == current.rescan,
            sections.wf(),
            definitions@.len() <= u32::MAX,
            layouts.wf(),
            layouts.dense() == dense,
            section_part_sizes.wf(),
            section_part_sizes.dense() == old(section_part_sizes).dense(),
            groups_wf(groups@, dense, definitions@, sections),
            rescan_wf(groups@, state.rescan),
            current == (Relaxation {
                groups: *groups,
                sizes: *section_part_sizes,
                part_layouts: layouts,
                rest: other,
                rescan: state.rescan,
            }),
            start == (Relaxation {
                groups: *old(groups),
                sizes: *old(section_part_sizes),
                part_layouts,
                rest,
                rescan: None,
            }),
            are_passes(passes, start, current, scanner, layout, definitions@, sections),
            forall|
                groups: Vec<GroupState>,
                lists: Vec<Vec<IndexList>>,
                positions: Positions,
                symbols: SymbolOutputInfos,
            |
                scan_wf(
                    groups@,
                    lists@,
                    positions,
                    symbols,
                    dense,
                    definitions@,
                    sections,
                ) ==> #[trigger] call_requires(scanner, (&groups, &lists, &positions, &symbols)),
            forall|
                groups: Vec<GroupState>,
                lists: Vec<Vec<IndexList>>,
                positions: Positions,
                symbols: SymbolOutputInfos,
                outcomes: Outcomes,
            |
                #[trigger] call_ensures(scanner, (&groups, &lists, &positions, &symbols), outcomes)
                    && scan_wf(
                    groups@,
                    lists@,
                    positions,
                    symbols,
                    dense,
                    definitions@,
                    sections,
                ) ==> outcomes_match(lists@, outcomes@),
            forall|groups: Vec<GroupState>, sizes: OutputSectionPartMap<u64>|
                groups_wf(groups@, dense, definitions@, sections) && sizes.wf() && sizes.dense()
                    == old(section_part_sizes).dense() ==> #[trigger] call_requires(
                    layout,
                    (&groups, &sizes),
                ),
            forall|
                groups: Vec<GroupState>,
                sizes: OutputSectionPartMap<u64>,
                layouts: OutputSectionPartMap<OutputRecordLayout>,
                rest: X,
            |
                #[trigger] call_ensures(layout, (&groups, &sizes), Ok::<_, E>((layouts, rest)))
                    && groups_wf(groups@, dense, definitions@, sections) && sizes.wf()
                    && sizes.dense() == old(section_part_sizes).dense() ==> layouts.wf()
                    && layouts.dense() == dense,
        decreases MAX_RELAXATION_ITERATIONS - state.passes,
    {
        let (positions, symbols) = match compute_section_and_symbol_addresses(
            groups,
            &layouts,
            definitions,
            sections,
        ) {
            Some(computed) => computed,
            None => {
                proof {
                    assert(ends_with::<X, E, S, L>(
                        passes.len(),
                        current,
                        None,
                        current,
                        Some(RelaxationError::<E>::Overflow),
                        scanner,
                        layout,
                        definitions@,
                        sections,
                    ));
                }
                return Err(RelaxationError::Overflow);
            },
        };
        let lists: Vec<Vec<IndexList>> = choose_lists(groups, &state.rescan);
        assert(scan_wf(groups@, lists@, positions, symbols, dense, definitions@, sections));
        let outcomes: Outcomes = scanner(groups, &lists, &positions, &symbols);
        let ghost scan = Scan { positions, symbols, lists, outcomes };
        proof {
            lemma_scan_wf(groups@, state.rescan, lists@, outcomes@, positions@);
            assert(is_scan(current, scan, scanner, definitions@, sections));
        }
        let (deleted, candidates) = match relaxation_scan_pass(
            groups,
            section_part_sizes,
            &lists,
            &outcomes,
            &positions,
            sections,
        ) {
            Some(passed) => passed,
            None => {
                proof {
                    assert(ends_with::<X, E, S, L>(
                        passes.len(),
                        current,
                        Some(scan),
                        current,
                        Some(RelaxationError::<E>::TooMuchDeleted),
                        scanner,
                        layout,
                        definitions@,
                        sections,
                    ));
                }
                return Err(RelaxationError::TooMuchDeleted);
            },
        };
        let ghost applied = Relaxation {
            groups: *groups,
            sizes: *section_part_sizes,
            part_layouts: layouts,
            rest: other,
            rescan: state.rescan,
        };
        proof {
            assert(is_applied(current, scan, applied, deleted, candidates@, sections));
            lemma_pass_keeps(
                current.groups@,
                groups@,
                current.sizes@,
                section_part_sizes@,
                lists@,
                outcomes@,
                positions@,
                sections,
                deleted,
                candidates@,
                dense,
                definitions@,
            );
        }
        if !state.after_pass(deleted, &candidates) {
            proof {
                lemma_ends_without_deletions::<X, E, S, L>(
                    passes.len(),
                    current,
                    scan,
                    applied,
                    candidates@,
                    scanner,
                    layout,
                    definitions@,
                    sections,
                );
            }
            return Ok((layouts, other));
        }
        proof {
            lemma_rescan_wf(groups@, candidates@, deleted, state.rescan);
        }
        match layout(groups, section_part_sizes) {
            Ok((new_layouts, new_rest)) => {
                layouts = new_layouts;
                other = new_rest;
                proof {
                    let after = Relaxation {
                        groups: *groups,
                        sizes: *section_part_sizes,
                        part_layouts: layouts,
                        rest: other,
                        rescan: state.rescan,
                    };
                    let pass = Pass { before: current, scan, deleted, candidates, after };
                    assert(is_applied(current, scan, after, deleted, candidates@, sections));
                    assert(is_pass::<X, E, S, L>(pass, scanner, layout, definitions@, sections));
                    passes = passes.push(pass);
                    current = after;
                }
            },
            Err(error) => {
                proof {
                    lemma_ends_without_layout::<X, E, S, L>(
                        passes.len(),
                        current,
                        scan,
                        applied,
                        deleted,
                        error,
                        candidates@,
                        scanner,
                        layout,
                        definitions@,
                        sections,
                    );
                }
                return Err(RelaxationError::Layout(error));
            },
        }
        scans = state.should_scan();
    }
    proof {
        assert(ends_with::<X, E, S, L>(
            passes.len(),
            current,
            None,
            current,
            None::<RelaxationError<E>>,
            scanner,
            layout,
            definitions@,
            sections,
        ));
    }
    Ok((layouts, other))
}

/// Whether there is an outcome for each section of the lists.
pub open spec fn outcomes_match(
    lists: Seq<Vec<IndexList>>,
    outcomes: Seq<Vec<Vec<Option<ScanOutcome>>>>,
) -> bool {
    &&& outcomes.len() == lists.len()
    &&& forall|g: int|
        0 <= g < lists.len() ==> (#[trigger] outcomes[g])@.len() == lists[g]@.len()
    &&& forall|g: int, f: int|
        #![trigger lists[g]@[f]]
        0 <= g < lists.len() && 0 <= f < lists[g]@.len() ==> outcomes[g]@[f]@.len()
            == lists[g]@[f]@.len()
}

proof fn lemma_scan_wf(
    groups: Seq<GroupState>,
    rescan: Option<Vec<Vec<IndexList>>>,
    lists: Seq<Vec<IndexList>>,
    outcomes: Seq<Vec<Vec<Option<ScanOutcome>>>>,
    positions: Seq<Vec<Vec<Option<InputSectionPosition>>>>,
)
    requires
        rescan_wf(groups, rescan),
        lists_chosen(groups, rescan, lists),
        outcomes_match(lists, outcomes),
        positions.len() == groups.len(),
        forall|g: int|
            0 <= g < groups.len() ==> (#[trigger] positions[g])@.len() == groups[g].files@.len(),
        forall|g: int| 0 <= g < groups.len() ==> (#[trigger] groups[g]).mem_sizes.wf(),
        forall|g: int, f: int|
            #![trigger groups[g].files@[f]]
            0 <= g < groups.len() && 0 <= f < groups[g].files@.len() ==> has_deltas(
                groups[g].files@[f],
            ),
    ensures
        relaxation_pass::pass_wf(groups, lists, outcomes, positions),
{
    assert forall|g: int| 0 <= g < groups.len() implies relaxation_pass::group_scan_wf(
        (#[trigger] groups[g]).files@,
        lists[g]@,
        outcomes[g]@,
        positions[g]@,
    ) by {
        assert(lists[g]@.len() == groups[g].files@.len());
        assert(outcomes[g]@.len() == lists[g]@.len());
        assert(positions[g]@.len() == groups[g].files@.len());
        let files = groups[g].files@;
        assert forall|f: int| 0 <= f < files.len() implies relaxation_pass::scan_wf(
            #[trigger] files[f],
            lists[g]@[f],
            outcomes[g]@[f],
        ) by {
            assert(groups[g].files@[f] == files[f]);
            assert(has_deltas(groups[g].files@[f]));
            assert(outcomes[g]@[f]@.len() == lists[g]@[f]@.len());
            if let FileState::Object(object) = files[f] {
                lemma_scannable_exist(object, object.inputs@.len() as int);
                assert(lists[g]@[f]@ == chosen(files[f], rescan, g, f));
            }
        }
    }
}

proof fn lemma_rescan_wf(
    groups: Seq<GroupState>,
    candidates: Seq<Vec<MarginList>>,
    deleted: u64,
    rescan: Option<Vec<Vec<IndexList>>>,
)
    requires
        all_candidates_exist(groups, candidates),
        is_rescan(candidates, deleted, rescan),
    ensures
        rescan_wf(groups, rescan),
{
    let lists = rescan->0;
    assert forall|g: int| 0 <= g < groups.len() implies (#[trigger] lists@[g])@.len()
        == groups[g].files@.len() by {
        assert(candidates[g]@.len() == groups[g].files@.len());
    }
    assert forall|g: int, f: int|
        #![trigger groups[g].files@[f]]
        0 <= g < groups.len() && 0 <= f < groups[g].files@.len() implies (groups[g].files@[f]
        matches FileState::Object(object) ==> indexes_exist(lists@[g]@[f]@, object)) by {
        assert(candidates[g]@.len() == groups[g].files@.len());
        if let FileState::Object(object) = groups[g].files@[f] {
            lemma_within_reach_exist(
                candidates[g]@[f]@,
                deleted,
                candidates[g]@[f]@.len() as int,
                object,
            );
            assert(lists@[g]@[f]@ == relaxation_pass::within_reach(
                candidates[g]@[f]@,
                deleted,
                candidates[g]@[f]@.len() as int,
            ));
        }
    }
}

} // verus!
