//! How groups of files share the output.
use crate::address_laws;
use crate::group_activation::ResolvedFile;
use crate::group_sizes;
use crate::groups;
use crate::groups::{FileState, GroupState, SectionGroupOrder};
use crate::input_sections;
use crate::input_sections::{InputSection, SectionSlot};
use crate::output_section_id::PartId;
use crate::output_section_part_map::OutputSectionPartMap;
use crate::output_sections::OutputSections;
use crate::placement_laws;
use crate::resolution::EntryParts;
use crate::sorted_sections;
use crate::sorted_sections::InputSortedSection;
use crate::stable_order;
use crate::symbol_id::{SymbolId, SymbolIdRange};
use crate::value_flags::ValueFlags;
use vstd::prelude::*;

verus! {

proof fn lemma_order_from(files: Seq<FileState>, from: int)
    requires
        0 <= from <= files.len(),
    ensures
        groups::group_order_from(files, from) is Prelude <==> exists|i: int|
            from <= i < files.len() && (#[trigger] files[i]) is Prelude && forall|j: int|
                from <= j < i ==> !((#[trigger] files[j]) is Epilogue),
        groups::group_order_from(files, from) is Epilogue <==> exists|i: int|
            from <= i < files.len() && (#[trigger] files[i]) is Epilogue && forall|j: int|
                from <= j < i ==> !((#[trigger] files[j]) is Prelude),
        (forall|i: int|
            from <= i < files.len() ==> !((#[trigger] files[i]) is Epilogue || files[i] is Prelude))
            ==> groups::group_order_from(files, from) == groups::order_of_objects(
            files,
            files.len() as int,
        ),
    decreases files.len() - from,
{
    if from < files.len() {
        lemma_order_from(files, from + 1);
        let file = files[from];
        if !(file is Prelude || file is Epilogue) {
            if groups::group_order_from(files, from + 1) is Prelude {
                let i = choose|i: int|
                    from + 1 <= i < files.len() && (#[trigger] files[i]) is Prelude && forall|j: int|
                        from + 1 <= j < i ==> !((#[trigger] files[j]) is Epilogue);
                assert(files[i] is Prelude);
            }
            if groups::group_order_from(files, from + 1) is Epilogue {
                let i = choose|i: int|
                    from + 1 <= i < files.len() && (#[trigger] files[i]) is Epilogue && forall|
                        j: int,
                    |
                        from + 1 <= j < i ==> !((#[trigger] files[j]) is Prelude);
                assert(files[i] is Epilogue);
            }
        } else {
            assert(files[from] == file);
        }
    }
}

proof fn lemma_first_link_order(files: Seq<FileState>, count: int)
    requires
        0 <= count <= files.len(),
    ensures
        match groups::first_link_order(files, count) {
            Some(first) => {
                &&& forall|i: int|
                    0 <= i < count ==> ((#[trigger] files[i]) matches FileState::Object(object)
                        ==> first <= object.link_order)
                &&& exists|i: int|
                    0 <= i < count && (#[trigger] files[i]) is Object
                        && files[i]->Object_0.link_order == first
            },
            None => forall|i: int| 0 <= i < count ==> !((#[trigger] files[i]) is Object),
        },
    decreases count,
{
    if count > 0 {
        lemma_first_link_order(files, count - 1);
        let file = files[count - 1];
        if groups::first_link_order(files, count - 1) is Some {
            let first = groups::first_link_order(files, count - 1)->0;
            let i = choose|i: int|
                0 <= i < count - 1 && (#[trigger] files[i]) is Object
                    && files[i]->Object_0.link_order == first;
            assert(files[i] is Object);
        }
        assert(files[count - 1] == file);
    }
}

/// A group with the prelude comes first and one with the epilogue comes last. Any other group stands
/// where the first of its objects stands on the command line; a group without objects comes after all
/// objects.
pub proof fn lemma_group_stands_with_its_first_object(files: Seq<FileState>)
    ensures
        (exists|i: int| 0 <= i < files.len() && (#[trigger] files[i]) is Prelude) && (forall|i: int|
            0 <= i < files.len() ==> !((#[trigger] files[i]) is Epilogue))
            ==> groups::group_order_from(files, 0) == SectionGroupOrder::Prelude,
        (exists|i: int| 0 <= i < files.len() && (#[trigger] files[i]) is Epilogue) && (forall|
            i: int,
        |
            0 <= i < files.len() ==> !((#[trigger] files[i]) is Prelude))
            ==> groups::group_order_from(files, 0) == SectionGroupOrder::Epilogue,
        (forall|i: int|
            0 <= i < files.len() ==> !((#[trigger] files[i]) is Epilogue || files[i] is Prelude))
            ==> match groups::group_order_from(files, 0) {
            SectionGroupOrder::Object(first) => {
                &&& forall|i: int|
                    0 <= i < files.len() ==> ((#[trigger] files[i]) matches FileState::Object(
                        object,
                    ) ==> first <= object.link_order)
                &&& exists|i: int|
                    0 <= i < files.len() && (#[trigger] files[i]) is Object
                        && files[i]->Object_0.link_order == first
            },
            SectionGroupOrder::Other => forall|i: int|
                0 <= i < files.len() ==> !((#[trigger] files[i]) is Object),
            _ => false,
        },
{
    lemma_order_from(files, 0);
    lemma_first_link_order(files, files.len() as int);
}

/// The group with the prelude comes before all others, the one with the epilogue after all others,
/// and groups of objects in the order of the command line.
pub proof fn lemma_groups_are_ordered(groups: Seq<GroupState>, order: Seq<usize>, i: int, j: int)
    requires
        stable_order::is_stable_order(order, groups::group_keys(groups)),
        0 <= i < j < groups.len(),
    ensures
        ({
            let first = groups[order[i] as int].section_group_order;
            let second = groups[order[j] as int].section_group_order;
            &&& second is Prelude ==> first is Prelude
            &&& first is Epilogue ==> second is Epilogue
            &&& second is Object ==> first is Prelude || first is Object
            &&& first is Object && second is Object ==> first->Object_0 <= second->Object_0
            &&& first == second ==> order[i] < order[j]
            &&& order[i] < groups.len()
            &&& order[j] < groups.len()
            &&& order[i] != order[j]
        }),
{
    let keys = groups::group_keys(groups);
    assert(stable_order::comes_before(keys, order[i] as int, order[j] as int));
}

/// The size of the parts of the first groups of an order.
pub open spec fn total_size(
    groups: Seq<GroupState>,
    order: Seq<usize>,
    part: u32,
    from: int,
    to: int,
) -> int
    decreases to - from,
{
    if to <= from {
        0
    } else {
        let sizes = groups[order[from] as int].mem_sizes;
        total_size(groups, order, part, from + 1, to) + if sizes@.contains_key(part) {
            sizes@[part] as int
        } else {
            0
        }
    }
}

proof fn lemma_total_size_step(
    groups: Seq<GroupState>,
    order: Seq<usize>,
    part: u32,
    from: int,
    to: int,
)
    requires
        from <= to,
    ensures
        total_size(groups, order, part, from, to + 1) == total_size(groups, order, part, from, to)
            + groups[order[to] as int].mem_sizes.value(part),
    decreases to - from,
{
    if from < to {
        lemma_total_size_step(groups, order, part, from + 1, to);
    } else {
        reveal_with_fuel(total_size, 2);
    }
}

/// In every part, a group starts as far after another one as the groups from that one on take up. The
/// first group starts where the part starts.
pub proof fn lemma_groups_follow_each_other(
    groups: Seq<GroupState>,
    order: Seq<usize>,
    offsets: OutputSectionPartMap<u64>,
    part: u32,
    from: int,
    to: int,
)
    requires
        0 <= from <= to,
    ensures
        groups::start_of(groups, order, offsets, to, part) - groups::start_of(
            groups,
            order,
            offsets,
            from,
            part,
        ) == total_size(groups, order, part, from, to),
        groups::start_of(groups, order, offsets, 0, part) == (if offsets@.contains_key(part) {
            offsets@[part] as int
        } else {
            0
        }),
    decreases to - from,
{
    if from < to {
        lemma_groups_follow_each_other(groups, order, offsets, part, from, to - 1);
        lemma_total_size_step(groups, order, part, from, to - 1);
    }
}

proof fn lemma_sorted_prefix(
    sections: Seq<InputSortedSection>,
    offsets: Map<u32, u64>,
    count: int,
    earlier: int,
)
    requires
        0 <= earlier <= count <= sections.len(),
        sorted_sections::sorted_after(sections, offsets, count) is Some,
    ensures
        sorted_sections::sorted_after(sections, offsets, earlier) is Some,
        ({
            let (addresses, after) = sorted_sections::sorted_after(sections, offsets, count)->0;
            let (first, before) = sorted_sections::sorted_after(sections, offsets, earlier)->0;
            &&& addresses.len() == count
            &&& first.len() == earlier
            &&& forall|i: int| 0 <= i < earlier ==> #[trigger] addresses[i] == first[i]
            &&& forall|part: PartId|
                input_sections::offset_of(before, part) <= #[trigger] input_sections::offset_of(
                    after,
                    part,
                )
        }),
    decreases count,
{
    if count > 0 {
        let section = sections[count - 1];
        section.alignment.lemma_bytes_positive(section.alignment);
        let (_, before) = sorted_sections::sorted_after(sections, offsets, count - 1)->0;
        crate::alignment::lemma_round_up(
            input_sections::offset_of(before, section.part_id) as int,
            section.alignment.bytes(),
        );
        let (_, after) = sorted_sections::sorted_after(sections, offsets, count)->0;
        assert forall|part: PartId|
            input_sections::offset_of(before, part) <= #[trigger] input_sections::offset_of(
                after,
                part,
            ) by {}
        lemma_sorted_prefix(sections, offsets, count - 1, if earlier < count {
            earlier
        } else {
            count - 1
        });
        if earlier < count {
            let (_, first) = sorted_sections::sorted_after(sections, offsets, earlier)->0;
            assert forall|part: PartId|
                input_sections::offset_of(first, part) <= #[trigger] input_sections::offset_of(
                    after,
                    part,
                ) by {
                assert(input_sections::offset_of(before, part) <= input_sections::offset_of(
                    after,
                    part,
                ));
            }
        }
    }
}

/// A sorted section has its own alignment, starts after what is in its part already, and ends before
/// the sections that were sorted after it.
pub proof fn lemma_sorted_sections_follow_each_other(
    sections: Seq<InputSortedSection>,
    offsets: Map<u32, u64>,
    i: int,
    j: int,
)
    requires
        sorted_sections::sorted_after(sections, offsets, sections.len() as int) is Some,
        0 <= i < j < sections.len(),
    ensures
        ({
            let (addresses, after) = sorted_sections::sorted_after(
                sections,
                offsets,
                sections.len() as int,
            )->0;
            &&& addresses.len() == sections.len()
            &&& addresses[i] as int % sections[i].alignment.bytes() == 0
            &&& offsets.contains_key(sections[i].part_id.0) ==> offsets[sections[i].part_id.0]
                <= addresses[i]
            &&& sections[i].part_id == sections[j].part_id ==> addresses[i] + sections[i].size
                <= addresses[j]
            &&& sections[i].part_id == sections[j].part_id && j == i + 1
                ==> placement_laws::is_next_multiple(
                addresses[j] as int,
                addresses[i] + sections[i].size,
                sections[j].alignment.bytes(),
            )
            &&& after.contains_key(sections[j].part_id.0)
            &&& addresses[j] + sections[j].size <= after[sections[j].part_id.0]
        }),
{
    let count = sections.len() as int;
    let one = sections[i];
    let other = sections[j];
    one.alignment.lemma_bytes_positive(other.alignment);
    other.alignment.lemma_bytes_positive(one.alignment);
    lemma_sorted_prefix(sections, offsets, count, i);
    lemma_sorted_prefix(sections, offsets, count, i + 1);
    lemma_sorted_prefix(sections, offsets, count, j);
    lemma_sorted_prefix(sections, offsets, count, j + 1);
    lemma_sorted_prefix(sections, offsets, i, 0);
    lemma_sorted_prefix(sections, offsets, i + 1, i);
    lemma_sorted_prefix(sections, offsets, j, i + 1);
    lemma_sorted_prefix(sections, offsets, j + 1, j);
    let (_, start) = sorted_sections::sorted_after(sections, offsets, i)->0;
    let (_, middle) = sorted_sections::sorted_after(sections, offsets, j)->0;
    let (_, end) = sorted_sections::sorted_after(sections, offsets, j + 1)->0;
    let (_, after) = sorted_sections::sorted_after(sections, offsets, count)->0;
    crate::alignment::lemma_round_up(
        input_sections::offset_of(start, one.part_id) as int,
        one.alignment.bytes(),
    );
    crate::alignment::lemma_round_up(
        input_sections::offset_of(middle, other.part_id) as int,
        other.alignment.bytes(),
    );
    assert(input_sections::offset_of(offsets, one.part_id) <= input_sections::offset_of(
        start,
        one.part_id,
    ));
    let (_, next) = sorted_sections::sorted_after(sections, offsets, i + 1)->0;
    assert(input_sections::offset_of(next, one.part_id) <= input_sections::offset_of(
        middle,
        one.part_id,
    ));
    assert(input_sections::offset_of(end, other.part_id) <= input_sections::offset_of(
        after,
        other.part_id,
    ));
    lemma_sorted_parts(sections, offsets, count, j);
}

proof fn lemma_sorted_parts(
    sections: Seq<InputSortedSection>,
    offsets: Map<u32, u64>,
    count: int,
    i: int,
)
    requires
        0 <= i < count <= sections.len(),
        sorted_sections::sorted_after(sections, offsets, count) is Some,
    ensures
        (sorted_sections::sorted_after(sections, offsets, count)->0).1.contains_key(
            sections[i].part_id.0,
        ),
    decreases count,
{
    if i < count - 1 {
        lemma_sorted_parts(sections, offsets, count - 1, i);
    }
}

/// A file that is not loaded keeps its symbols through layout, and every other file stays the file
/// that it was. What a plugin has read is not loaded.
pub proof fn lemma_files_keep_their_symbols(file: ResolvedFile)
    ensures
        match file {
            ResolvedFile::Object(object) => file.layout_state() == FileState::Object(object),
            ResolvedFile::NotLoaded(range) => file.layout_state() == FileState::NotLoaded(range),
            ResolvedFile::LtoInput(range) => file.layout_state() == FileState::NotLoaded(range),
            ResolvedFile::Prelude(range) => file.layout_state() is Prelude
                && file.layout_state().spec_symbol_id_range() == range,
            ResolvedFile::Dynamic(range) => file.layout_state() is Dynamic
                && file.layout_state().spec_symbol_id_range() == range,
            ResolvedFile::StubLibrary(range) => file.layout_state() is StubLibrary
                && file.layout_state().spec_symbol_id_range() == range,
            ResolvedFile::LinkerScript(range) => file.layout_state() is LinkerScript
                && file.layout_state().spec_symbol_id_range() == range,
            ResolvedFile::SyntheticSymbols(range) => file.layout_state() is SyntheticSymbols
                && file.layout_state().spec_symbol_id_range() == range,
        },
        file.layout_state().spec_size_steps().symbols <==> !(file is NotLoaded || file is LtoInput),
        file.layout_state().spec_size_steps().own <==> !(file is NotLoaded || file is LtoInput
            || file is StubLibrary),
        FileState::Epilogue.spec_size_steps().own && !FileState::Epilogue.spec_size_steps().symbols,
{
}

/// The number of symbols of a range that are defined where they stand, are bound when the program
/// starts, and have an address in the table of addresses or, if `stubs` is set, a stub.
pub open spec fn entries(
    definitions: Seq<SymbolId>,
    flags: Seq<ValueFlags>,
    start: int,
    count: int,
    stubs: bool,
) -> int
    decreases count,
{
    if count <= 0 {
        0
    } else {
        let at = start + count - 1;
        let needed = flags[at].dynamic && if stubs {
            flags[at].plt
        } else {
            flags[at].got
        };
        entries(definitions, flags, start, count - 1, stubs) + if definitions[at].0 == at && needed {
            1int
        } else {
            0
        }
    }
}

/// Space is reserved for each symbol that needs an address or a stub, where it is defined and nowhere
/// else. An address takes 8 bytes and a stub 12. Nothing else is reserved.
pub proof fn lemma_entries_are_reserved_once(
    definitions: Seq<SymbolId>,
    flags: Seq<ValueFlags>,
    range: SymbolIdRange,
    parts: EntryParts,
    part: u32,
    count: int,
)
    requires
        parts.got.0 != parts.plt.0,
        range.wf(),
        0 <= count <= range.num_symbols,
        range.start_symbol_id.0 + range.num_symbols <= u32::MAX,
    ensures
        group_sizes::symbols_reserve(definitions, flags, range, parts, part, count) == (if part
            == parts.got.0 {
            8 * entries(definitions, flags, range.start_symbol_id.0 as int, count, false)
        } else if part == parts.plt.0 {
            12 * entries(definitions, flags, range.start_symbol_id.0 as int, count, true)
        } else {
            0
        }),
    decreases count,
{
    if count > 0 {
        lemma_entries_are_reserved_once(definitions, flags, range, parts, part, count - 1);
    }
}

/// Files of a group share its parts: what is reserved for one of them is added to what is reserved for
/// the others, and files that are not loaded add nothing.
pub proof fn lemma_files_add_up(
    files: Seq<FileState>,
    definitions: Seq<SymbolId>,
    flags: Seq<ValueFlags>,
    parts: EntryParts,
    part: u32,
    i: int,
)
    requires
        0 <= i < files.len(),
    ensures
        ({
            let range = files[i].spec_symbol_id_range();
            group_sizes::files_reserve(files, definitions, flags, parts, part, i + 1)
                - group_sizes::files_reserve(files, definitions, flags, parts, part, i)
                == if files[i] is NotLoaded || files[i] is Epilogue {
                0
            } else {
                group_sizes::symbols_reserve(
                    definitions,
                    flags,
                    range,
                    parts,
                    part,
                    range.num_symbols as int,
                )
            }
        }),
        group_sizes::files_reserve(files, definitions, flags, parts, part, 0) == 0,
{
}

proof fn lemma_positions_prefix<'data>(
    inputs: Seq<InputSection>,
    offsets: Map<u32, u64>,
    sections: &OutputSections<'data>,
    count: int,
    earlier: int,
)
    requires
        0 <= earlier <= count <= inputs.len(),
        input_sections::positions_after(inputs, offsets, sections, count) is Some,
        forall|part: PartId| #[trigger] sections.alignment_of(part) <= 16,
    ensures
        input_sections::positions_after(inputs, offsets, sections, earlier) is Some,
        ({
            let (positions, after) = input_sections::positions_after(
                inputs,
                offsets,
                sections,
                count,
            )->0;
            let (first, before) = input_sections::positions_after(
                inputs,
                offsets,
                sections,
                earlier,
            )->0;
            &&& positions.len() == count
            &&& first.len() == earlier
            &&& forall|i: int| 0 <= i < earlier ==> #[trigger] positions[i] == first[i]
            &&& forall|part: PartId|
                input_sections::offset_of(before, part) <= #[trigger] input_sections::offset_of(
                    after,
                    part,
                )
        }),
    decreases count,
{
    if count > 0 {
        let input = inputs[count - 1];
        lemma_positions_prefix(inputs, offsets, sections, count - 1, if earlier < count {
            earlier
        } else {
            count - 1
        });
        let (_, before) = input_sections::positions_after(inputs, offsets, sections, count - 1)->0;
        let (_, after) = input_sections::positions_after(inputs, offsets, sections, count)->0;
        if input_sections::placed_section(input.slot) is Some {
            let section = input_sections::placed_section(input.slot)->0;
            let offset = input_sections::offset_of(before, input.part_id);
            let (address, end) = input_sections::advanced(
                offset,
                section,
                input.part_id,
                input.packed,
                sections,
            )->0;
            address_laws::lemma_section_takes_space(
                offset,
                section,
                input.part_id,
                input.packed,
                sections,
                address,
                end,
            );
        }
        assert forall|part: PartId|
            input_sections::offset_of(before, part) <= #[trigger] input_sections::offset_of(
                after,
                part,
            ) by {}
    }
}

/// Loaded sections of an object do not overlap in their part: each starts after what is in the part
/// already, and after the sections of the object before it. Only loaded sections have positions.
pub proof fn lemma_positions_do_not_overlap<'data>(
    inputs: Seq<InputSection>,
    offsets: Map<u32, u64>,
    sections: &OutputSections<'data>,
    i: int,
    j: int,
)
    requires
        input_sections::positions_after(inputs, offsets, sections, inputs.len() as int) is Some,
        forall|part: PartId| #[trigger] sections.alignment_of(part) <= 16,
        0 <= i < j < inputs.len(),
    ensures
        ({
            let (positions, _) = input_sections::positions_after(
                inputs,
                offsets,
                sections,
                inputs.len() as int,
            )->0;
            &&& positions.len() == inputs.len()
            &&& positions[i] is Some <==> inputs[i].slot is Loaded
            &&& positions[j] is Some <==> inputs[j].slot is Loaded
            &&& positions[i] is Some ==> {
                let position = positions[i]->0;
                &&& position.part_id == inputs[i].part_id
                &&& offsets.contains_key(position.part_id.0) ==> offsets[position.part_id.0]
                    <= position.address
                &&& positions[j] is Some && inputs[j].part_id == inputs[i].part_id
                    ==> position.address + inputs[i].slot->Loaded_0.size <= (positions[j]->0).address
            }
        }),
{
    let count = inputs.len() as int;
    lemma_positions_prefix(inputs, offsets, sections, count, i);
    lemma_positions_prefix(inputs, offsets, sections, count, i + 1);
    lemma_positions_prefix(inputs, offsets, sections, count, j);
    lemma_positions_prefix(inputs, offsets, sections, count, j + 1);
    lemma_positions_prefix(inputs, offsets, sections, i, 0);
    lemma_positions_prefix(inputs, offsets, sections, i + 1, i);
    lemma_positions_prefix(inputs, offsets, sections, j, i + 1);
    lemma_positions_prefix(inputs, offsets, sections, j + 1, j);
    lemma_one_position(inputs, offsets, sections, i);
    lemma_one_position(inputs, offsets, sections, j);
    let (_, start) = input_sections::positions_after(inputs, offsets, sections, i)->0;
    let (_, next) = input_sections::positions_after(inputs, offsets, sections, i + 1)->0;
    let (_, middle) = input_sections::positions_after(inputs, offsets, sections, j)->0;
    let part = inputs[i].part_id;
    assert(input_sections::offset_of(offsets, part) <= input_sections::offset_of(start, part));
    assert(input_sections::offset_of(next, part) <= input_sections::offset_of(middle, part));
}

proof fn lemma_one_position<'data>(
    inputs: Seq<InputSection>,
    offsets: Map<u32, u64>,
    sections: &OutputSections<'data>,
    i: int,
)
    requires
        0 <= i < inputs.len(),
        input_sections::positions_after(inputs, offsets, sections, i) is Some,
        input_sections::positions_after(inputs, offsets, sections, i + 1) is Some,
        (input_sections::positions_after(inputs, offsets, sections, i)->0).0.len() == i,
        forall|part: PartId| #[trigger] sections.alignment_of(part) <= 16,
    ensures
        ({
            let (positions, after) = input_sections::positions_after(
                inputs,
                offsets,
                sections,
                i + 1,
            )->0;
            let (_, before) = input_sections::positions_after(inputs, offsets, sections, i)->0;
            let part = inputs[i].part_id;
            &&& positions[i] is Some <==> inputs[i].slot is Loaded
            &&& positions[i] is Some ==> {
                &&& (positions[i]->0).part_id == part
                &&& input_sections::offset_of(before, part) <= (positions[i]->0).address
                &&& (positions[i]->0).address + inputs[i].slot->Loaded_0.size
                    <= input_sections::offset_of(after, part)
            }
        }),
{
    let input = inputs[i];
    let (_, before) = input_sections::positions_after(inputs, offsets, sections, i)->0;
    if input.slot is Loaded {
        let section = input.slot->Loaded_0;
        assert(input.slot == SectionSlot::Loaded(section));
        let offset = input_sections::offset_of(before, input.part_id);
        let (address, end) = input_sections::advanced(
            offset,
            section,
            input.part_id,
            input.packed,
            sections,
        )->0;
        address_laws::lemma_section_takes_space(
            offset,
            section,
            input.part_id,
            input.packed,
            sections,
            address,
            end,
        );
    }
}

} // verus!
