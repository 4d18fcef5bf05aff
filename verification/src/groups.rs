//! Groups of input files, and where each group starts in each part of the output.
use crate::file_id::FileId;
use crate::input_sections::InputSection;
use crate::output_section_id::PartId;
use crate::output_section_part_map::OutputSectionPartMap;
use crate::relax_deltas::RelaxDeltas;
use crate::stable_order;
use crate::stable_order::stable_order;
use crate::symbol_id::SymbolIdRange;
use vstd::prelude::*;

verus! {

/// The section that a symbol of an object file is in.
#[derive(Clone, Copy, Debug, PartialEq, Eq, Structural)]
pub enum SymbolSection {
    InSection(usize),
    NoSection,
    /// The object file is malformed.
    Unreadable,
}

/// A symbol that is allocated by the linker.
#[derive(Clone, Copy, Debug, PartialEq, Eq, Structural)]
pub struct CommonSymbol {
    pub size: u64,
    pub part_id: PartId,
}

/// What an object file says about a symbol.
#[derive(Clone, Copy, Debug, PartialEq, Eq, Structural)]
pub struct ObjectSymbol {
    pub section: SymbolSection,
    /// The offset in its section. `None` if the object file is malformed.
    pub offset_in_section: Option<u64>,
    pub value: u64,
    pub absolute: bool,
    pub undefined: bool,
    pub local: bool,
    pub weak: bool,
    pub hidden: bool,
    pub common: Option<CommonSymbol>,
    /// The symbol marks where code or data starts; nothing refers to it.
    pub mapping: bool,
}

/// A section that has been loaded and that a linker script asks to be sorted among others.
#[derive(Clone, Copy, Debug, PartialEq, Eq, Structural)]
pub struct ScriptSortedSectionDetail {
    pub index: usize,
    pub sort_by_init_priority: bool,
    pub sort_by_alignment: bool,
}

/// An object file that is being laid out.
#[derive(Debug)]
pub struct ObjectState {
    pub file_id: FileId,
    pub symbol_id_range: SymbolIdRange,
    /// The position on the command line.
    pub link_order: u32,
    pub inputs: Vec<InputSection>,
    pub symbols: Vec<ObjectSymbol>,
    /// What relaxation has deleted from each section.
    pub relax_deltas: Vec<RelaxDeltas>,
    /// The sections that are sorted among others, in the order in which they were loaded.
    pub script_sorted_sections: Vec<ScriptSortedSectionDetail>,
    /// The size of what has been loaded into the part in which thunks are placed.
    pub post_gc_primary_bytes: u64,
}

/// A file that is being laid out.
#[derive(Debug)]
pub enum FileState {
    Prelude(SymbolIdRange),
    Object(ObjectState),
    Dynamic(SymbolIdRange),
    StubLibrary(SymbolIdRange),
    NotLoaded(SymbolIdRange),
    SyntheticSymbols(SymbolIdRange),
    Epilogue,
    LinkerScript(SymbolIdRange),
}

/// Files that are laid out together.
#[derive(Debug)]
pub struct GroupState {
    pub files: Vec<FileState>,
    /// The sizes of the parts of the group.
    pub mem_sizes: OutputSectionPartMap<u64>,
    pub section_group_order: SectionGroupOrder,
}

/// Which groups come first.
#[derive(Clone, Copy, Debug, PartialEq, Eq, PartialOrd, Ord, Structural)]
pub enum SectionGroupOrder {
    Prelude,
    Object(u32),
    Other,
    Epilogue,
}

/// The smallest link order of the objects among the first `count` files.
pub open spec fn first_link_order(files: Seq<FileState>, count: int) -> Option<u32>
    decreases count,
{
    if count <= 0 {
        None
    } else {
        let before = first_link_order(files, count - 1);
        match files[count - 1] {
            FileState::Object(object) => match before {
                Some(existing) if existing <= object.link_order => Some(existing),
                _ => Some(object.link_order),
            },
            _ => before,
        }
    }
}

/// The place of a group that has no prelude or epilogue among its first `count` files.
pub open spec fn order_of_objects(files: Seq<FileState>, count: int) -> SectionGroupOrder {
    match first_link_order(files, count) {
        Some(link_order) => SectionGroupOrder::Object(link_order),
        None => SectionGroupOrder::Other,
    }
}

/// The place of a group, looking at its files from the given position on: the first prelude or
/// epilogue decides, or else the first of its objects on the command line.
pub open spec fn group_order_from(files: Seq<FileState>, from: int) -> SectionGroupOrder
    decreases files.len() - from,
{
    if from >= files.len() {
        order_of_objects(files, files.len() as int)
    } else {
        match files[from] {
            FileState::Prelude(_) => SectionGroupOrder::Prelude,
            FileState::Epilogue => SectionGroupOrder::Epilogue,
            _ => group_order_from(files, from + 1),
        }
    }
}

/// The place of a group of files.
pub fn section_group_order(files: &Vec<FileState>) -> (order: SectionGroupOrder)
    ensures
        order == group_order_from(files@, 0),
{
    let mut saw_object: Option<u32> = None;
    let mut i: usize = 0;
    while i < files.len()
        invariant
            i <= files@.len(),
            saw_object == first_link_order(files@, i as int),
            group_order_from(files@, 0) == group_order_from(files@, i as int),
        decreases files@.len() - i,
    {
        match &files[i] {
            FileState::Prelude(_) => {
                return SectionGroupOrder::Prelude;
            },
            FileState::Epilogue => {
                return SectionGroupOrder::Epilogue;
            },
            FileState::Object(object) => {
                saw_object = Some(
                    match saw_object {
                        Some(existing) => if existing <= object.link_order {
                            existing
                        } else {
                            object.link_order
                        },
                        None => object.link_order,
                    },
                );
            },
            _ => {},
        }
        i = i + 1;
    }
    match saw_object {
        Some(link_order) => SectionGroupOrder::Object(link_order),
        None => SectionGroupOrder::Other,
    }
}

/// What groups are sorted by.
pub open spec fn order_key(order: SectionGroupOrder) -> (u64, u64) {
    match order {
        SectionGroupOrder::Prelude => (0, 0),
        SectionGroupOrder::Object(link_order) => (1, link_order as u64),
        SectionGroupOrder::Other => (2, 0),
        SectionGroupOrder::Epilogue => (3, 0),
    }
}

/// What the groups are sorted by.
pub open spec fn group_keys(groups: Seq<GroupState>) -> Seq<(u64, u64)> {
    Seq::new(groups.len(), |i: int| order_key(groups[i].section_group_order))
}

/// Where a part starts in the group at position `k` of the order: after the groups before it.
pub open spec fn start_of(
    groups: Seq<GroupState>,
    order: Seq<usize>,
    offsets: OutputSectionPartMap<u64>,
    k: int,
    part: u32,
) -> int
    decreases k,
{
    if k <= 0 {
        offsets.value(part) as int
    } else {
        start_of(groups, order, offsets, k - 1, part) + groups[order[k - 1] as int].mem_sizes.value(
            part,
        )
    }
}

/// Whether all parts of all groups end at 64-bit addresses.
pub open spec fn ends_fit(
    groups: Seq<GroupState>,
    order: Seq<usize>,
    offsets: OutputSectionPartMap<u64>,
) -> bool {
    forall|part: u32| #[trigger]
        start_of(groups, order, offsets, groups.len() as int, part) <= u64::MAX
}

/// Whether a map holds where the parts of the group at position `k` of the order start.
pub open spec fn starts_at(
    starts: OutputSectionPartMap<u64>,
    groups: Seq<GroupState>,
    order: Seq<usize>,
    offsets: OutputSectionPartMap<u64>,
    k: int,
) -> bool {
    &&& starts.wf()
    &&& starts.dense() == offsets.dense()
    &&& starts@.dom() == groups[order[k] as int].mem_sizes@.dom()
    &&& forall|part: u32| #[trigger]
        starts@.contains_key(part) ==> starts@[part] == start_of(groups, order, offsets, k, part)
}

/// Whether the sizes of all groups are for the same kind of output.
pub open spec fn sizes_wf(groups: Seq<GroupState>, dense: nat) -> bool {
    forall|i: int|
        0 <= i < groups.len() ==> (#[trigger] groups[i]).mem_sizes.wf()
            && groups[i].mem_sizes.dense() == dense
}

proof fn lemma_start_grows(
    groups: Seq<GroupState>,
    order: Seq<usize>,
    offsets: OutputSectionPartMap<u64>,
    k: int,
    m: int,
    part: u32,
)
    requires
        0 <= k <= m,
    ensures
        start_of(groups, order, offsets, k, part) <= start_of(groups, order, offsets, m, part),
    decreases m,
{
    if k < m {
        lemma_start_grows(groups, order, offsets, k, m - 1, part);
    }
}

/// The groups do not overlap: in every part, a group ends before those after it start.
pub proof fn lemma_groups_follow(
    groups: Seq<GroupState>,
    order: Seq<usize>,
    offsets: OutputSectionPartMap<u64>,
    k: int,
    m: int,
    part: u32,
)
    requires
        0 <= k < m <= order.len(),
    ensures
        start_of(groups, order, offsets, k, part) + groups[order[k] as int].mem_sizes.value(part)
            <= start_of(groups, order, offsets, m, part),
{
    lemma_start_grows(groups, order, offsets, k + 1, m, part);
}

fn sizes_fit(offsets: &OutputSectionPartMap<u64>, sizes: &OutputSectionPartMap<u64>) -> (fit: bool)
    requires
        offsets.wf(),
        sizes.wf(),
    ensures
        fit == forall|part: u32| #[trigger]
            sizes@.contains_key(part) ==> offsets.value(part) + sizes@[part] <= u64::MAX,
{
    let entries: Vec<(PartId, u64)> = sizes.iter();
    let mut i: usize = 0;
    while i < entries.len()
        invariant
            i <= entries@.len(),
            offsets.wf(),
            crate::output_section_part_map::lists(entries@, sizes@, 0, u32::MAX + 1),
            forall|k: int|
                0 <= k < i ==> offsets.value((#[trigger] entries@[k]).0.0) + entries@[k].1
                    <= u64::MAX,
        decreases entries@.len() - i,
    {
        let (part_id, size) = entries[i];
        assert(sizes@.contains_key(part_id.0));
        if offsets.get(part_id).checked_add(size).is_none() {
            return false;
        }
        i = i + 1;
    }
    proof {
        assert forall|part: u32| #[trigger] sizes@.contains_key(part) implies offsets.value(part)
            + sizes@[part] <= u64::MAX by {
            assert(crate::output_section_part_map::has_entry(entries@, part));
            let k = choose|k: int|
                0 <= k < entries@.len() && (#[trigger] entries@[k]).0.0 == part;
            assert(entries@[k].1 == sizes@[part]);
        }
    }
    true
}

pub(crate) fn collect_keys(groups: &Vec<GroupState>) -> (keys: Vec<(u64, u64)>)
    ensures
        keys@ == group_keys(groups@),
{
    let mut keys: Vec<(u64, u64)> = Vec::new();
    let mut i: usize = 0;
    while i < groups.len()
        invariant
            i <= groups@.len(),
            keys@ == group_keys(groups@).take(i as int),
        decreases groups@.len() - i,
    {
        keys.push(
            match groups[i].section_group_order {
                SectionGroupOrder::Prelude => (0, 0),
                SectionGroupOrder::Object(link_order) => (1, link_order as u64),
                SectionGroupOrder::Other => (2, 0),
                SectionGroupOrder::Epilogue => (3, 0),
            },
        );
        i = i + 1;
    }
    assert(group_keys(groups@).take(i as int) =~= group_keys(groups@));
    keys
}

fn empty_starts(
    count: usize,
    like: &OutputSectionPartMap<u64>,
) -> (starts: Vec<OutputSectionPartMap<u64>>)
    requires
        like.wf(),
    ensures
        starts@.len() == count,
{
    let mut starts: Vec<OutputSectionPartMap<u64>> = Vec::new();
    while starts.len() < count
        invariant
            starts@.len() <= count,
            like.wf(),
        decreases count - starts@.len(),
    {
        starts.push(like.new_empty_like());
    }
    starts
}

/// Where each group starts in each part: groups follow each other in order. `None` if an address
/// is not a 64-bit number.
pub fn compute_start_offsets_by_group(
    groups: &Vec<GroupState>,
    mem_offsets: OutputSectionPartMap<u64>,
) -> (starts: Option<Vec<OutputSectionPartMap<u64>>>)
    requires
        mem_offsets.wf(),
        sizes_wf(groups@, mem_offsets.dense()),
    ensures
        forall|order: Seq<usize>| #[trigger]
            stable_order::is_stable_order(order, group_keys(groups@)) ==> match starts {
                Some(starts) => {
                    &&& ends_fit(groups@, order, mem_offsets)
                    &&& starts@.len() == groups@.len()
                    &&& forall|k: int|
                        0 <= k < order.len() ==> starts_at(
                            starts@[#[trigger] order[k] as int],
                            groups@,
                            order,
                            mem_offsets,
                            k,
                        )
                },
                None => !ends_fit(groups@, order, mem_offsets),
            },
{
    let ghost before = mem_offsets;
    let mut offsets: OutputSectionPartMap<u64> = mem_offsets;
    let keys: Vec<(u64, u64)> = collect_keys(groups);
    let order: Vec<usize> = stable_order(&keys);
    proof {
        assert forall|other: Seq<usize>| #[trigger]
            stable_order::is_stable_order(other, keys@) implies other == order@ by {
            stable_order::lemma_stable_order_unique(other, order@, keys@);
        }
    }
    let mut starts: Vec<OutputSectionPartMap<u64>> = empty_starts(groups.len(), &offsets);
    let mut k: usize = 0;
    while k < order.len()
        invariant
            k <= order@.len(),
            before == mem_offsets,
            before.wf(),
            sizes_wf(groups@, before.dense()),
            keys@ == group_keys(groups@),
            stable_order::is_stable_order(order@, keys@),
            forall|other: Seq<usize>| #[trigger]
                stable_order::is_stable_order(other, keys@) ==> other == order@,
            starts@.len() == groups@.len(),
            offsets.wf(),
            offsets.dense() == before.dense(),
            forall|part: u32|
                #![trigger offsets.value(part)]
                offsets.value(part) == start_of(groups@, order@, before, k as int, part),
            forall|m: int|
                0 <= m < k ==> starts_at(
                    starts@[#[trigger] order@[m] as int],
                    groups@,
                    order@,
                    before,
                    m,
                ),
        decreases order@.len() - k,
    {
        let index: usize = order[k];
        let ghost old_starts = starts@;
        let ghost old_offsets = offsets;
        assert(groups@[index as int].mem_sizes.wf());
        if !sizes_fit(&offsets, &groups[index].mem_sizes) {
            proof {
                let sizes = groups@[index as int].mem_sizes;
                let part = choose|part: u32| #[trigger]
                    sizes@.contains_key(part) && offsets.value(part) + sizes@[part] > u64::MAX;
                assert(offsets.value(part) == start_of(groups@, order@, before, k as int, part));
                assert(start_of(groups@, order@, before, k + 1, part) > u64::MAX);
                lemma_start_grows(
                    groups@,
                    order@,
                    before,
                    k + 1,
                    groups@.len() as int,
                    part,
                );
                assert(!ends_fit(groups@, order@, before));
            }
            return None;
        }
        let group_starts: OutputSectionPartMap<u64> = offsets.merge_and_return_start_offsets(
            &groups[index].mem_sizes,
        );
        proof {
            assert forall|part: u32| #[trigger] group_starts@.contains_key(part) implies group_starts@[part]
                == start_of(groups@, order@, before, k as int, part) by {
                assert(old_offsets.value(part) == start_of(
                    groups@,
                    order@,
                    before,
                    k as int,
                    part,
                ));
            }
            assert(group_starts@.dom() =~= groups@[index as int].mem_sizes@.dom());
            assert forall|part: u32|
                #![trigger offsets.value(part)]
                offsets.value(part) == start_of(groups@, order@, before, k + 1, part) by {
                assert(old_offsets.value(part) == start_of(
                    groups@,
                    order@,
                    before,
                    k as int,
                    part,
                ));
            }
        }
        starts.set(index, group_starts);
        proof {
            assert forall|m: int| 0 <= m < k + 1 implies starts_at(
                starts@[#[trigger] order@[m] as int],
                groups@,
                order@,
                before,
                m,
            ) by {
                if m < k {
                    assert(stable_order::comes_before(keys@, order@[m] as int, order@[k as int] as int));
                    assert(starts@[order@[m] as int] == old_starts[order@[m] as int]);
                }
            }
        }
        k = k + 1;
    }
    proof {
        assert forall|part: u32| #[trigger]
            start_of(groups@, order@, before, groups@.len() as int, part) <= u64::MAX by {
            assert(offsets.value(part) == start_of(groups@, order@, before, k as int, part));
        }
    }
    Some(starts)
}

} // verus!
