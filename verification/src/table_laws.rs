//! What holds of the tables that groups share, of thunks, and of the order of what is emitted.
use crate::alignment::Alignment;
use crate::compute_layout;
use crate::group_layout;
use crate::group_layout::{FileToPlace, GroupContext, PlacedFile};
use crate::group_tables;
use crate::group_tables::{TableError, TablePart, TableParts};
use crate::input_order;
use crate::input_order::PartInputs;
use crate::input_sections;
use crate::object_layout;
use crate::object_layout::SymbolsView;
use crate::output_order;
use crate::output_order::OrderEvent;
use crate::output_section_id::{OutputSectionId, PartId};
use crate::output_sections::OutputSections;
use crate::record_layout::OutputRecordLayout;
use crate::resolution::Resolution;
use crate::resolution_writer;
use crate::symbol_id::SymbolId;
use vstd::prelude::*;

verus! {

/// Whether a part belongs to one of the first tables.
pub open spec fn is_table_part(tables: Seq<Option<TablePart>>, count: int, part: PartId) -> bool {
    exists|i: int|
        0 <= i < count && (#[trigger] tables[i]) is Some && (tables[i]->0).part_id == part
}

/// Whether no part belongs to two tables.
pub open spec fn tables_differ(tables: Seq<Option<TablePart>>) -> bool {
    forall|i: int, j: int|
        0 <= i < j < tables.len() && (#[trigger] tables[i]) is Some && (#[trigger] tables[j]) is Some
            ==> (tables[i]->0).part_id != (tables[j]->0).part_id
}

/// All tables that groups share.
pub open spec fn all_tables(tables: TableParts) -> Seq<Option<TablePart>> {
    seq![
        tables.symtab_local,
        tables.symtab_global,
        tables.symtab_shndx_local,
        tables.symtab_shndx_global,
        tables.gdb_index,
        tables.strtab,
        tables.dynstr,
    ]
}

spec fn moved_on(
    before: Map<u32, u64>,
    after: Map<u32, u64>,
    sizes: Map<u32, u64>,
    tables: Seq<Option<TablePart>>,
    count: int,
) -> bool {
    forall|part: PartId| #[trigger]
        input_sections::offset_of(after, part) == input_sections::offset_of(before, part) + if is_table_part(
            tables,
            count,
            part,
        ) {
            input_sections::offset_of(sizes, part) as int
        } else {
            0
        }
}

proof fn lemma_tables_move_on(
    tables: Seq<Option<TablePart>>,
    offsets: Map<u32, u64>,
    sizes: Map<u32, u64>,
    count: int,
)
    requires
        0 <= count <= tables.len(),
        tables_differ(tables),
        group_tables::tables_advanced(tables, offsets, sizes, count) is Ok,
    ensures
        moved_on(
            offsets,
            group_tables::tables_advanced(tables, offsets, sizes, count)->Ok_0,
            sizes,
            tables,
            count,
        ),
    decreases count,
{
    let after = group_tables::tables_advanced(tables, offsets, sizes, count)->Ok_0;
    if count > 0 {
        lemma_tables_move_on(tables, offsets, sizes, count - 1);
        let before = group_tables::tables_advanced(tables, offsets, sizes, count - 1)->Ok_0;
        assert forall|part: PartId| #[trigger]
            input_sections::offset_of(after, part) == input_sections::offset_of(offsets, part)
                + if is_table_part(tables, count, part) {
                input_sections::offset_of(sizes, part) as int
            } else {
                0
            } by {
            lemma_one_more_table(tables, count, part);
            assert(input_sections::offset_of(before, part) >= 0);
            if tables[count - 1] is Some && (tables[count - 1]->0).part_id == part {
                if is_table_part(tables, count - 1, part) {
                    let i = choose|i: int|
                        0 <= i < count - 1 && (#[trigger] tables[i]) is Some && (
                        tables[i]->0).part_id == part;
                    assert(tables[i] is Some && tables[count - 1] is Some);
                }
            }
        }
    } else {
        assert forall|part: PartId| #[trigger]
            input_sections::offset_of(after, part) == input_sections::offset_of(offsets, part)
                + if is_table_part(tables, count, part) {
                input_sections::offset_of(sizes, part) as int
            } else {
                0
            } by {}
    }
}

proof fn lemma_one_more_table(tables: Seq<Option<TablePart>>, count: int, part: PartId)
    requires
        0 < count <= tables.len(),
    ensures
        is_table_part(tables, count, part) <==> (is_table_part(tables, count - 1, part) || (
        tables[count - 1] is Some && (tables[count - 1]->0).part_id == part)),
{
    if is_table_part(tables, count, part) {
        let i = choose|i: int|
            0 <= i < count && (#[trigger] tables[i]) is Some && (tables[i]->0).part_id == part;
        if i < count - 1 {
            assert(is_table_part(tables, count - 1, part));
        }
    }
    if is_table_part(tables, count - 1, part) {
        let i = choose|i: int|
            0 <= i < count - 1 && (#[trigger] tables[i]) is Some && (tables[i]->0).part_id == part;
        assert(tables[i] is Some);
    }
}

/// A group takes up as much of each table as it adds to it, so that the next group starts after it.
/// Nothing but tables moves.
pub proof fn lemma_groups_take_up_tables(
    tables: TableParts,
    offsets: Map<u32, u64>,
    sizes: Map<u32, u64>,
    layouts: Seq<OutputRecordLayout>,
    entry_size: u64,
    part: PartId,
)
    requires
        tables_differ(all_tables(tables)),
        entry_size > 0,
        group_tables::group_in_tables(tables, offsets, sizes, layouts, entry_size) is Ok,
    ensures
        ({
            let (_, after) = group_tables::group_in_tables(
                tables,
                offsets,
                sizes,
                layouts,
                entry_size,
            )->Ok_0;
            input_sections::offset_of(after, part) == input_sections::offset_of(offsets, part)
                + if is_table_part(all_tables(tables), 7, part) {
                input_sections::offset_of(sizes, part) as int
            } else {
                0
            }
        }),
{
    let all = all_tables(tables);
    let plain = group_tables::plain_tables(tables);
    assert forall|i: int| 0 <= i < 5 implies plain[i] == #[trigger] all[i] by {}
    assert(tables_differ(plain)) by {
        assert forall|i: int, j: int|
            0 <= i < j < plain.len() && (#[trigger] plain[i]) is Some && (#[trigger] plain[j])
                is Some implies (plain[i]->0).part_id != (plain[j]->0).part_id by {
            assert(all[i] == plain[i] && all[j] == plain[j]);
        }
    }
    let strings = group_tables::table_advanced(tables.strtab, offsets, sizes)->Ok_0;
    lemma_tables_move_on(plain, strings, sizes, 5);
    let symbols = group_tables::tables_advanced(plain, strings, sizes, 5)->Ok_0;
    lemma_one_more_table(all, 7, part);
    lemma_one_more_table(all, 6, part);
    assert(is_table_part(all, 5, part) <==> is_table_part(plain, 5, part)) by {
        if is_table_part(all, 5, part) {
            let i = choose|i: int|
                0 <= i < 5 && (#[trigger] all[i]) is Some && (all[i]->0).part_id == part;
            assert(plain[i] is Some);
        }
        if is_table_part(plain, 5, part) {
            let i = choose|i: int|
                0 <= i < 5 && (#[trigger] plain[i]) is Some && (plain[i]->0).part_id == part;
            assert(all[i] is Some);
        }
    }
    assert(input_sections::offset_of(symbols, part) >= 0);
    if is_table_part(all, 5, part) {
        let i = choose|i: int|
            0 <= i < 5 && (#[trigger] all[i]) is Some && (all[i]->0).part_id == part;
        assert(all[i] is Some && all[5] == tables.strtab && all[6] == tables.dynstr);
    }
    assert(all[5] == tables.strtab && all[6] == tables.dynstr);
}

/// A group starts in a table as far after the start of the table as its part says. The number of its
/// first symbol is how many entries come before.
pub proof fn lemma_groups_start_in_tables(
    tables: TableParts,
    offsets: Map<u32, u64>,
    sizes: Map<u32, u64>,
    layouts: Seq<OutputRecordLayout>,
    entry_size: u64,
)
    requires
        tables_differ(all_tables(tables)),
        entry_size > 0,
        group_tables::group_in_tables(tables, offsets, sizes, layouts, entry_size) is Ok,
    ensures
        ({
            let (starts, _) = group_tables::group_in_tables(
                tables,
                offsets,
                sizes,
                layouts,
                entry_size,
            )->Ok_0;
            &&& tables.strtab matches Some(table) ==> starts.strtab_start_offset
                == input_sections::offset_of(offsets, table.part_id)
                - layouts[table.section_id.0 as int].mem_offset
            &&& tables.strtab is None ==> starts.strtab_start_offset == 0
            &&& tables.symtab_local matches Some(table) ==> ({
                let before = input_sections::offset_of(offsets, table.part_id)
                    - layouts[table.section_id.0 as int].mem_offset;
                before / entry_size as int <= u32::MAX ==> starts.symtab_local_start_index
                    == before / entry_size as int
            })
            &&& tables.symtab_global matches Some(table) ==> ({
                let before = input_sections::offset_of(offsets, table.part_id)
                    - layouts[table.section_id.0 as int].mem_offset;
                before / entry_size as int <= u32::MAX ==> starts.symtab_global_start_index
                    == before / entry_size as int
            })
            &&& tables.dynstr matches Some(table) ==> ({
                let before = input_sections::offset_of(offsets, table.part_id)
                    - layouts[table.section_id.0 as int].mem_offset;
                before <= u32::MAX ==> starts.dynstr_start_offset == before
            })
        }),
{
    if tables.dynstr is Some {
        let all = all_tables(tables);
        let plain = group_tables::plain_tables(tables);
        assert forall|i: int| 0 <= i < 5 implies plain[i] == #[trigger] all[i] by {}
        assert(tables_differ(plain)) by {
            assert forall|i: int, j: int|
                0 <= i < j < plain.len() && (#[trigger] plain[i]) is Some && (#[trigger] plain[j])
                    is Some implies (plain[i]->0).part_id != (plain[j]->0).part_id by {
                assert(all[i] == plain[i] && all[j] == plain[j]);
            }
        }
        let part = (tables.dynstr->0).part_id;
        let strings = group_tables::table_advanced(tables.strtab, offsets, sizes)->Ok_0;
        lemma_tables_move_on(plain, strings, sizes, 5);
        let symbols = group_tables::tables_advanced(plain, strings, sizes, 5)->Ok_0;
        assert(all[6] == tables.dynstr && all[5] == tables.strtab);
        assert(!is_table_part(plain, 5, part)) by {
            if is_table_part(plain, 5, part) {
                let i = choose|i: int|
                    0 <= i < 5 && (#[trigger] plain[i]) is Some && (plain[i]->0).part_id == part;
                assert(all[i] is Some && all[6] is Some);
            }
        }
        assert(input_sections::offset_of(symbols, part) >= 0);
    }
}

proof fn lemma_tables_only_overflow(
    tables: Seq<Option<TablePart>>,
    offsets: Map<u32, u64>,
    sizes: Map<u32, u64>,
    count: int,
)
    ensures
        group_tables::tables_advanced(tables, offsets, sizes, count) matches Err(error) ==> error
            is Overflow,
    decreases count,
{
    if count > 0 {
        lemma_tables_only_overflow(tables, offsets, sizes, count - 1);
    }
}

/// A string table is too large if the strings of a group would start after the first 4 GiB of it.
pub proof fn lemma_string_tables_have_limit(
    tables: TableParts,
    table: TablePart,
    offsets: Map<u32, u64>,
    sizes: Map<u32, u64>,
    layouts: Seq<OutputRecordLayout>,
)
    requires
        tables.strtab == Some(table),
    ensures
        ({
            let start = layouts[table.section_id.0 as int].mem_offset;
            let offset = input_sections::offset_of(offsets, table.part_id);
            let result = group_tables::strings_and_symbols(tables, offsets, sizes, layouts);
            &&& offset < start ==> result == Err::<(u32, Map<u32, u64>), _>(
                TableError::BeforeTable(table.section_id),
            )
            &&& offset - start > u32::MAX ==> result == Err::<(u32, Map<u32, u64>), _>(
                TableError::StringTableTooLarge,
            )
            &&& 0 <= offset - start <= u32::MAX ==> result is Ok || result == Err::<
                (u32, Map<u32, u64>),
                _,
            >(TableError::Overflow)
        }),
{
    let after = group_tables::table_advanced(tables.strtab, offsets, sizes)->Ok_0;
    lemma_tables_only_overflow(group_tables::plain_tables(tables), after, sizes, 5);
}

/// The symbols of a file that is not loaded have no resolutions, and it takes up nothing.
pub proof fn lemma_files_that_are_not_loaded_take_nothing<'a, 'data>(
    file: FileToPlace<'a, 'data>,
    ctx: &GroupContext<'a, 'data>,
    start: SymbolsView,
)
    requires
        file is NotLoaded || file is Epilogue,
    ensures
        group_layout::file_resolutions(file, ctx, start) matches Ok((resolutions, end)) && {
            &&& end == start
            &&& forall|i: int| 0 <= i < resolutions.len() ==> (#[trigger] resolutions[i]) is None
            &&& file is Epilogue ==> resolutions.len() == 0
        },
{
}

/// Libraries and what the linker defines take no dynamic symbol indexes: only objects do.
pub proof fn lemma_only_objects_take_dynamic_indexes<'a, 'data>(
    file: FileToPlace<'a, 'data>,
    ctx: &GroupContext<'a, 'data>,
    start: SymbolsView,
)
    requires
        !(file is Object),
    ensures
        group_layout::file_resolutions(file, ctx, start) matches Ok((_, end))
            ==> end.next_dynamic == start.next_dynamic,
{
}

/// The resolutions of a group are those of its files, one after the other: those of a file start after
/// all resolutions of the files before it.
pub proof fn lemma_resolutions_follow_files(files: Seq<PlacedFile>, count: int, i: int, k: int)
    requires
        0 <= i < count <= files.len(),
        0 <= k < resolution_writer::resolutions_of(files[i]).len(),
    ensures
        ({
            let before = resolution_writer::resolutions_in(files, i);
            let all = resolution_writer::resolutions_in(files, count);
            before.len() + k < all.len() && all[before.len() + k]
                == resolution_writer::resolutions_of(files[i])[k]
        }),
    decreases count,
{
    if i < count - 1 {
        lemma_resolutions_follow_files(files, count - 1, i, k);
    }
}

/// What is written to a group's space is a beginning of its resolutions, and all of them if there is
/// space.
pub proof fn lemma_written_resolutions_fit(resolutions: Seq<Option<Resolution>>, room: int)
    requires
        room >= 0,
    ensures
        ({
            let written = resolution_writer::fitting(resolutions, room);
            &&& written.len() <= room
            &&& written.len() <= resolutions.len()
            &&& written.len() == room || written.len() == resolutions.len()
            &&& forall|i: int| 0 <= i < written.len() ==> written[i] == #[trigger] resolutions[i]
        }),
{
}

/// Thunks follow each other without gaps, in the order of the symbols that they are for.
pub proof fn lemma_thunks_follow_each_other(
    start: u64,
    thunk_size: u64,
    symbols: Seq<SymbolId>,
    count: int,
)
    requires
        0 <= count <= symbols.len(),
        object_layout::thunks_placed(start, thunk_size, symbols, count) is Some,
    ensures
        ({
            let (placed, end) = object_layout::thunks_placed(
                start,
                thunk_size,
                symbols,
                count,
            )->0;
            &&& placed.len() == count
            &&& end == start + count * thunk_size
            &&& forall|i: int|
                0 <= i < count ==> (#[trigger] placed[i]).0 == symbols[i] && placed[i].1 == start + i
                    * thunk_size
        }),
    decreases count,
{
    if count > 0 {
        lemma_thunks_follow_each_other(start, thunk_size, symbols, count - 1);
        assert(count * thunk_size == (count - 1) * thunk_size + thunk_size) by (nonlinear_arith);
    }
}

proof fn lemma_max_input_exponent(inputs: Seq<(Alignment, u64)>)
    ensures
        forall|i: int|
            0 <= i < inputs.len() ==> (#[trigger] inputs[i]).0.exp()
                <= input_order::max_input_exponent(inputs),
    decreases inputs.len(),
{
    if inputs.len() > 0 {
        let front = inputs.drop_last();
        lemma_max_input_exponent(front);
        assert forall|i: int| 0 <= i < inputs.len() implies (#[trigger] inputs[i]).0.exp()
            <= input_order::max_input_exponent(inputs) by {
            if i < front.len() {
                assert(front[i] == inputs[i]);
            }
        }
    }
}

/// A section is aligned for all inputs that go into it in the order of the command line, also by way
/// of sections that are merged into it.
pub proof fn lemma_sections_are_aligned_for_ordered_inputs<'data>(
    parts: Seq<PartInputs>,
    count: int,
    sections: &OutputSections<'data>,
    p: int,
    i: int,
)
    requires
        0 <= p < count <= parts.len(),
        0 <= i < parts[p].inputs@.len(),
        forall|k: int|
            0 <= k < parts.len() ==> input_order::max_input_exponent((#[trigger] parts[k]).inputs@)
                <= 16,
    ensures
        ({
            let id = sections.primary(
                OutputSectionId(sections.platform.section_of(parts[p].part_id.0 as int) as u32),
            ).0 as u64;
            let exponents = input_order::largest_exponents(parts, count, sections);
            exponents.contains_key(id) && parts[p].inputs@[i].0.exp() <= exponents[id]
        }),
    decreases count,
{
    assert(input_order::max_input_exponent(parts[count - 1].inputs@) <= 16);
    lemma_max_input_exponent(parts[p].inputs@);
    if p < count - 1 {
        lemma_sections_are_aligned_for_ordered_inputs(parts, count - 1, sections, p, i);
    }
}

proof fn lemma_last_emitted<'data>(sections: &OutputSections<'data>, end: int)
    requires
        0 <= end <= u32::MAX,
    ensures
        match sections.last_emitted_before(end) {
            Some(id) => id.0 < end && sections.emitted(id.0 as int) && forall|i: int|
                id.0 < i < end ==> !#[trigger] sections.emitted(i),
            None => forall|i: int| 0 <= i < end ==> !#[trigger] sections.emitted(i),
        },
    decreases end,
{
    if end > 0 {
        lemma_last_emitted(sections, end - 1);
    }
}

proof fn lemma_first_emitted<'data>(sections: &OutputSections<'data>, start: int)
    requires
        0 <= start,
        sections.output_section_indexes@.len() <= u32::MAX,
    ensures
        match sections.first_emitted_from(start) {
            Some(id) => start <= id.0 && sections.emitted(id.0 as int) && forall|i: int|
                start <= i < id.0 ==> !#[trigger] sections.emitted(i),
            None => forall|i: int| start <= i ==> !#[trigger] sections.emitted(i),
        },
    decreases sections.output_section_indexes@.len() - start,
{
    if start < sections.output_section_indexes@.len() {
        lemma_first_emitted(sections, start + 1);
    }
}

/// The sections before and after one are the nearest that are in the output. The file header is not
/// among them.
pub proof fn lemma_neighbours_are_nearest<'data>(
    sections: &OutputSections<'data>,
    id: OutputSectionId,
)
    requires
        sections.output_section_indexes@.len() <= u32::MAX,
    ensures
        sections.last_emitted_before(id.0 as int) matches Some(previous) ==> {
            &&& previous.0 < id.0
            &&& previous.0 != 1
            &&& sections.index_in_output(previous.0 as int) is Some
            &&& forall|i: int|
                previous.0 < i < id.0 && i != 1 ==> (#[trigger] sections.index_in_output(i)) is None
        },
        sections.last_emitted_before(id.0 as int) is None ==> forall|i: int|
            0 <= i < id.0 && i != 1 ==> (#[trigger] sections.index_in_output(i)) is None,
        sections.first_emitted_from(id.0 + 1) matches Some(following) ==> {
            &&& following.0 > id.0
            &&& following.0 != 1
            &&& sections.index_in_output(following.0 as int) is Some
            &&& forall|i: int|
                id.0 < i < following.0 && i != 1 ==> (#[trigger] sections.index_in_output(i))
                    is None
        },
        sections.first_emitted_from(id.0 + 1) is None ==> forall|i: int|
            id.0 < i && i != 1 ==> (#[trigger] sections.index_in_output(i)) is None,
{
    lemma_last_emitted(sections, id.0 as int);
    lemma_first_emitted(sections, id.0 + 1);
    assert forall|i: int| i != 1 && (#[trigger] sections.index_in_output(i)) is Some implies sections.emitted(
        i,
    ) by {}
}

proof fn lemma_last_unlisted<'data>(
    entries: Seq<(PartId, u64)>,
    count: int,
    events: Seq<OrderEvent<'data>>,
    sections: &OutputSections<'data>,
)
    requires
        0 <= count <= entries.len(),
    ensures
        compute_layout::last_unlisted(entries, count, events, sections) is None ==> forall|i: int|
            0 <= i < count && (#[trigger] entries[i]).1 > 0 ==> exists|e: int|
                0 <= e < events.len() && output_order::emitted_section(#[trigger] events[e])
                    == Some(
                    OutputSectionId(
                        sections.platform.section_of(entries[i].0.0 as int) as u32,
                    ),
                ),
        compute_layout::last_unlisted(entries, count, events, sections) matches Some(id)
            ==> forall|e: int|
            0 <= e < events.len() ==> output_order::emitted_section(#[trigger] events[e]) != Some(
                id,
            ),
    decreases count,
{
    if count > 0 {
        lemma_last_unlisted(entries, count - 1, events, sections);
    }
}

/// If no section is reported, every part with contents belongs to a section that is emitted. A section
/// that is reported is not emitted.
pub proof fn lemma_contents_are_emitted<'data>(
    entries: Seq<(PartId, u64)>,
    events: Seq<OrderEvent<'data>>,
    sections: &OutputSections<'data>,
)
    ensures
        compute_layout::last_unlisted(entries, entries.len() as int, events, sections) is None
            ==> forall|i: int|
            0 <= i < entries.len() && (#[trigger] entries[i]).1 > 0 ==> exists|e: int|
                0 <= e < events.len() && output_order::emitted_section(#[trigger] events[e])
                    == Some(
                    OutputSectionId(
                        sections.platform.section_of(entries[i].0.0 as int) as u32,
                    ),
                ),
        compute_layout::last_unlisted(entries, entries.len() as int, events, sections) matches Some(
            id,
        ) ==> forall|e: int|
            0 <= e < events.len() ==> output_order::emitted_section(#[trigger] events[e]) != Some(
                id,
            ),
{
    lemma_last_unlisted(entries, entries.len() as int, events, sections);
}

/// The group after another one takes the dynamic symbol index after the last that the files of the
/// other one have taken. Tables take none.
pub proof fn lemma_groups_take_dynamic_indexes<'a, 'data>(
    files: Seq<FileToPlace<'a, 'data>>,
    sizes: Map<u32, u64>,
    ctx: &GroupContext<'a, 'data>,
    start: SymbolsView,
    end: SymbolsView,
)
    requires
        group_layout::group_placed(files, sizes, ctx, start) matches Ok((_, after)) && after == end,
    ensures
        group_layout::group_resolutions(files, ctx, start, files.len() as int) matches Ok((_, after))
            && end.next_dynamic == after.next_dynamic,
{
}

/// A file of a group takes what the files before it have left.
pub proof fn lemma_files_follow_each_other<'a, 'data>(
    files: Seq<FileToPlace<'a, 'data>>,
    ctx: &GroupContext<'a, 'data>,
    start: SymbolsView,
    i: int,
)
    requires
        0 <= i < files.len(),
        group_layout::group_resolutions(files, ctx, start, i + 1) is Ok,
    ensures
        ({
            let (before, left) = group_layout::group_resolutions(files, ctx, start, i)->Ok_0;
            let (after, end) = group_layout::group_resolutions(files, ctx, start, i + 1)->Ok_0;
            &&& group_layout::group_resolutions(files, ctx, start, i) is Ok
            &&& after.drop_last() == before
            &&& group_layout::file_resolutions(files[i], ctx, left) matches Ok((own, taken))
                && after.last() == own && end == taken
        }),
        group_layout::group_resolutions(files, ctx, start, 0) matches Ok((none, begin))
            && none.len() == 0 && begin == start,
{
    let (before, _) = group_layout::group_resolutions(files, ctx, start, i)->Ok_0;
    let (after, _) = group_layout::group_resolutions(files, ctx, start, i + 1)->Ok_0;
    assert(after.drop_last() =~= before);
}

} // verus!
