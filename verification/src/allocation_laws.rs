//! What is reserved is what is taken up.
use crate::group_layout;
use crate::group_layout::{FileToPlace, GroupContext, InternalSymbol};
use crate::group_sizes;
use crate::groups::{FileState, ObjectState};
use crate::input_sections;
use crate::input_sections::{InputSection, UnloadedSection};
use crate::internal_symbols;
use crate::object_layout;
use crate::object_layout::{SectionContext, SymbolInputs, SymbolsView};
use crate::output_section_id::{OutputSectionId, PartId};
use crate::output_sections::OutputSections;
use crate::resolution;
use crate::resolution::EntryParts;
use crate::section_loading;
use crate::section_loading::{CommonGroupState, LoadError, LoadedSection, SectionHeaderInfo};
use crate::symbol_id::{SymbolId, SymbolIdRange};
use crate::value_flags::ValueFlags;
use vstd::prelude::*;

verus! {

/// Whether a symbol needs entries.
pub open spec fn needs_entries(flags: ValueFlags) -> bool {
    flags.got || flags.plt
}

/// Whether only dynamic symbols need entries, and what needs a stub needs an entry of the global
/// offset table too.
pub open spec fn entries_regular(flags: ValueFlags) -> bool {
    &&& flags.plt ==> flags.got
    &&& flags.got ==> flags.dynamic
}

/// Whether that is so for all symbols of a range.
pub open spec fn range_regular(flags: Seq<ValueFlags>, range: SymbolIdRange) -> bool {
    forall|i: int|
        0 <= i < range.num_symbols ==> entries_regular(flags[(#[trigger] range.id_at(i)).0 as int])
}

/// Whether nothing but the entries of its symbols goes from an object into a part, and only symbols
/// that are given an address need entries.
pub open spec fn object_leaves_alone(
    object: ObjectState,
    flags: Seq<ValueFlags>,
    part: PartId,
) -> bool {
    &&& forall|i: int|
        0 <= i < object.inputs@.len() ==> (#[trigger] object.inputs@[i]).part_id != part
    &&& forall|i: int|
        0 <= i < object.symbols@.len() ==> {
            &&& (#[trigger] object.symbols@[i]).common matches Some(common) ==> common.part_id
                != part
            &&& object.symbols@[i].mapping ==> !needs_entries(
                flags[object.symbol_id_range.id_at(i).0 as int],
            )
        }
}

/// Whether nothing but the entries of its symbols goes from a file into a part, and only symbols
/// that are given an address need entries.
pub open spec fn file_leaves_alone<'a, 'data>(
    file: FileToPlace<'a, 'data>,
    ctx: &GroupContext<'a, 'data>,
    part: PartId,
) -> bool {
    match file {
        FileToPlace::Object { object, thunks, .. } => {
            &&& object_leaves_alone(*object, ctx.flags@, part)
            &&& thunks matches Some(thunks) ==> thunks.part_id != part
            &&& range_regular(ctx.flags@, object.symbol_id_range)
        },
        FileToPlace::Library(range) => range_regular(ctx.flags@, range),
        FileToPlace::Internal { symbol_id_range, symbols } => {
            &&& range_regular(ctx.flags@, symbol_id_range)
            &&& forall|i: int|
                0 <= i < symbols@.len() && needs_entries(
                    ctx.flags@[symbol_id_range.id_at(i).0 as int],
                ) ==> (#[trigger] symbols@[i]).has_name && internal_symbols::placement_value(
                    &ctx.internal,
                    symbols@[i].placement,
                ) is Some
        },
        _ => true,
    }
}

/// What is reserved in a part for the entries of the symbols of a file.
pub open spec fn file_reserve<'a, 'data>(
    file: FileToPlace<'a, 'data>,
    ctx: &GroupContext<'a, 'data>,
    part: PartId,
) -> int {
    match file {
        FileToPlace::Object { object, .. } => range_reserve(object.symbol_id_range, ctx, part),
        FileToPlace::Library(range) => range_reserve(range, ctx, part),
        FileToPlace::Internal { symbol_id_range, .. } => range_reserve(symbol_id_range, ctx, part),
        _ => 0,
    }
}

/// What is reserved in a part for the entries of the symbols of a range.
pub open spec fn range_reserve<'a, 'data>(
    range: SymbolIdRange,
    ctx: &GroupContext<'a, 'data>,
    part: PartId,
) -> int {
    group_sizes::symbols_reserve(
        ctx.definitions@,
        ctx.flags@,
        range,
        ctx.parts,
        part.0,
        range.num_symbols as int,
    )
}

/// What is reserved in a part for the entries of the symbols of the first `count` files.
pub open spec fn group_reserve<'a, 'data>(
    files: Seq<FileToPlace<'a, 'data>>,
    ctx: &GroupContext<'a, 'data>,
    part: PartId,
    count: int,
) -> int
    decreases count,
{
    if count <= 0 {
        0
    } else {
        group_reserve(files, ctx, part, count - 1) + file_reserve(files[count - 1], ctx, part)
    }
}

proof fn lemma_sections_leave_alone<'a, 'data>(
    inputs: Seq<InputSection>,
    ctx: &SectionContext<'a, 'data>,
    offsets: Map<u32, u64>,
    count: int,
    part: PartId,
)
    requires
        0 <= count <= inputs.len(),
        forall|i: int| 0 <= i < inputs.len() ==> (#[trigger] inputs[i]).part_id != part,
    ensures
        object_layout::sections_after(inputs, ctx, offsets, count) matches Some(s)
            ==> input_sections::offset_of(s.offsets, part) == input_sections::offset_of(
            offsets,
            part,
        ),
    decreases count,
{
    if count > 0 {
        lemma_sections_leave_alone(inputs, ctx, offsets, count - 1, part);
        assert(inputs[count - 1].part_id != part);
    }
}

proof fn lemma_object_takes(
    object: ObjectState,
    inputs: SymbolInputs,
    flags: Seq<ValueFlags>,
    definitions: Seq<SymbolId>,
    start: SymbolsView,
    count: int,
    part: PartId,
)
    requires
        0 <= count <= object.symbols@.len(),
        object.symbols@.len() == object.symbol_id_range.num_symbols,
        inputs.parts.got != inputs.parts.plt,
        object_leaves_alone(object, flags, part),
        range_regular(flags, object.symbol_id_range),
    ensures
        object_layout::symbols_after(object, inputs, flags, definitions, start, count) matches Ok((
            _,
            end,
        )) ==> input_sections::offset_of(end.offsets, part) == input_sections::offset_of(
            start.offsets,
            part,
        ) + group_sizes::symbols_reserve(
            definitions,
            flags,
            object.symbol_id_range,
            inputs.parts,
            part.0,
            count,
        ),
    decreases count,
{
    if count > 0 {
        lemma_object_takes(object, inputs, flags, definitions, start, count - 1, part);
        if let Ok((_, before)) = object_layout::symbols_after(
            object,
            inputs,
            flags,
            definitions,
            start,
            count - 1,
        ) {
            let index = count - 1;
            let id = object.symbol_id_range.id_at(index);
            let symbol_flags = flags[id.0 as int];
            assert(entries_regular(symbol_flags));
            assert(object.symbols@[index].common matches Some(common) ==> common.part_id != part);
            if let Ok((Some(value), offsets)) = object_layout::symbol_value(
                object,
                inputs,
                index,
                before.offsets,
            ) {
                assert(input_sections::offset_of(offsets, part) == input_sections::offset_of(
                    before.offsets,
                    part,
                ));
                if let Ok((dynamic_index, _)) = object_layout::dynamic_index_taken(
                    symbol_flags,
                    before.next_dynamic,
                ) {
                    resolution::lemma_reserved_space_is_taken(
                        symbol_flags,
                        value,
                        dynamic_index,
                        offsets,
                        inputs.parts,
                        part,
                    );
                }
            }
        }
    }
}

proof fn lemma_library_takes(
    range: SymbolIdRange,
    flags: Seq<ValueFlags>,
    definitions: Seq<SymbolId>,
    offsets: Map<u32, u64>,
    parts: EntryParts,
    count: int,
    part: PartId,
)
    requires
        0 <= count <= range.num_symbols,
        parts.got != parts.plt,
        range_regular(flags, range),
    ensures
        internal_symbols::library_resolutions(
            range,
            flags,
            definitions,
            offsets,
            parts,
            count,
        ) matches Ok((_, end)) ==> input_sections::offset_of(end, part)
            == input_sections::offset_of(offsets, part) + group_sizes::symbols_reserve(
            definitions,
            flags,
            range,
            parts,
            part.0,
            count,
        ),
    decreases count,
{
    if count > 0 {
        lemma_library_takes(range, flags, definitions, offsets, parts, count - 1, part);
        if let Ok((_, before)) = internal_symbols::library_resolutions(
            range,
            flags,
            definitions,
            offsets,
            parts,
            count - 1,
        ) {
            let id = range.id_at(count - 1);
            assert(entries_regular(flags[id.0 as int]));
            resolution::lemma_reserved_space_is_taken(
                flags[id.0 as int],
                0,
                None,
                before,
                parts,
                part,
            );
        }
    }
}

proof fn lemma_internal_takes<'a, 'data>(
    range: SymbolIdRange,
    symbols: Seq<InternalSymbol<'data>>,
    ctx: &GroupContext<'a, 'data>,
    offsets: Map<u32, u64>,
    count: int,
    part: PartId,
)
    requires
        0 <= count <= range.num_symbols,
        symbols.len() == range.num_symbols,
        ctx.parts.got != ctx.parts.plt,
        range_regular(ctx.flags@, range),
        forall|i: int|
            0 <= i < symbols.len() && needs_entries(ctx.flags@[range.id_at(i).0 as int]) ==> (
            #[trigger] symbols[i]).has_name && internal_symbols::placement_value(
                &ctx.internal,
                symbols[i].placement,
            ) is Some,
    ensures
        group_layout::internal_resolutions(range, symbols, ctx, offsets, count) matches Ok((
            _,
            end,
        )) ==> input_sections::offset_of(end, part) == input_sections::offset_of(offsets, part)
            + group_sizes::symbols_reserve(
            ctx.definitions@,
            ctx.flags@,
            range,
            ctx.parts,
            part.0,
            count,
        ),
    decreases count,
{
    if count > 0 {
        lemma_internal_takes(range, symbols, ctx, offsets, count - 1, part);
        if let Ok((_, before)) = group_layout::internal_resolutions(
            range,
            symbols,
            ctx,
            offsets,
            count - 1,
        ) {
            let id = range.id_at(count - 1);
            let symbol = symbols[count - 1];
            assert(entries_regular(ctx.flags@[id.0 as int]));
            if let Some(value) = internal_symbols::placement_value(
                &ctx.internal,
                symbol.placement,
            ) {
                resolution::lemma_reserved_space_is_taken(
                    ctx.flags@[id.0 as int],
                    value,
                    None,
                    before,
                    ctx.parts,
                    part,
                );
            }
        }
    }
}

proof fn lemma_file_takes<'a, 'data>(
    file: FileToPlace<'a, 'data>,
    ctx: &GroupContext<'a, 'data>,
    start: SymbolsView,
    part: PartId,
)
    requires
        ctx.parts.got != ctx.parts.plt,
        group_layout::file_wf(file, ctx),
        file_leaves_alone(file, ctx, part),
    ensures
        group_layout::file_resolutions(file, ctx, start) matches Ok((_, end))
            ==> input_sections::offset_of(end.offsets, part) == input_sections::offset_of(
            start.offsets,
            part,
        ) + file_reserve(file, ctx, part),
{
    match file {
        FileToPlace::Object { object, merged_strings, .. } => {
            lemma_sections_leave_alone(
                object.inputs@,
                &ctx.sections,
                start.offsets,
                object.inputs@.len() as int,
                part,
            );
            if let Some(s) = object_layout::sections_after(
                object.inputs@,
                &ctx.sections,
                start.offsets,
                object.inputs@.len() as int,
            ) {
                lemma_object_takes(
                    *object,
                    SymbolInputs {
                        section_resolutions: s.resolutions,
                        merged_strings: merged_strings@,
                        parts: ctx.parts,
                    },
                    ctx.flags@,
                    ctx.definitions@,
                    SymbolsView { offsets: s.offsets, next_dynamic: start.next_dynamic },
                    object.symbols@.len() as int,
                    part,
                );
            }
        },
        FileToPlace::Library(range) => {
            lemma_library_takes(
                range,
                ctx.flags@,
                ctx.definitions@,
                start.offsets,
                ctx.parts,
                range.num_symbols as int,
                part,
            );
        },
        FileToPlace::Internal { symbol_id_range, symbols } => {
            lemma_internal_takes(
                symbol_id_range,
                symbols@,
                ctx,
                start.offsets,
                symbol_id_range.num_symbols as int,
                part,
            );
        },
        _ => {},
    }
}

/// The files of a group take up in a part what was reserved there for the entries of their symbols,
/// neither more nor less. This is about parts that hold nothing else.
pub proof fn lemma_group_takes_what_is_reserved<'a, 'data>(
    files: Seq<FileToPlace<'a, 'data>>,
    ctx: &GroupContext<'a, 'data>,
    start: SymbolsView,
    count: int,
    part: PartId,
)
    requires
        ctx.parts.got != ctx.parts.plt,
        0 <= count <= files.len(),
        forall|i: int|
            0 <= i < files.len() ==> group_layout::file_wf(#[trigger] files[i], ctx)
                && file_leaves_alone(files[i], ctx, part),
    ensures
        group_layout::group_resolutions(files, ctx, start, count) matches Ok((_, end))
            ==> input_sections::offset_of(end.offsets, part) == input_sections::offset_of(
            start.offsets,
            part,
        ) + group_reserve(files, ctx, part, count),
    decreases count,
{
    if count > 0 {
        lemma_group_takes_what_is_reserved(files, ctx, start, count - 1, part);
        assert(file_leaves_alone(files[count - 1], ctx, part));
        if let Ok((_, before)) = group_layout::group_resolutions(files, ctx, start, count - 1) {
            lemma_file_takes(files[count - 1], ctx, before, part);
        }
    }
}

/// Whether a file that is laid out is the one whose sizes were computed.
pub open spec fn same_file<'a, 'data>(state: FileState, file: FileToPlace<'a, 'data>) -> bool {
    match file {
        FileToPlace::Object { object, .. } => state == FileState::Object(*object),
        FileToPlace::Library(range) => state == FileState::Dynamic(range) || state
            == FileState::StubLibrary(range),
        FileToPlace::Internal { symbol_id_range, .. } => state == FileState::Prelude(
            symbol_id_range,
        ) || state == FileState::SyntheticSymbols(symbol_id_range) || state
            == FileState::LinkerScript(symbol_id_range),
        FileToPlace::NotLoaded(range) => state == FileState::NotLoaded(range),
        FileToPlace::Epilogue => state == FileState::Epilogue,
    }
}

proof fn lemma_reserves_agree<'a, 'data>(
    states: Seq<FileState>,
    files: Seq<FileToPlace<'a, 'data>>,
    ctx: &GroupContext<'a, 'data>,
    part: PartId,
    count: int,
)
    requires
        0 <= count <= files.len(),
        states.len() == files.len(),
        forall|i: int| 0 <= i < files.len() ==> same_file(#[trigger] states[i], files[i]),
    ensures
        group_sizes::files_reserve(
            states,
            ctx.definitions@,
            ctx.flags@,
            ctx.parts,
            part.0,
            count,
        ) == group_reserve(files, ctx, part, count),
    decreases count,
{
    if count > 0 {
        lemma_reserves_agree(states, files, ctx, part, count - 1);
        assert(same_file(states[count - 1], files[count - 1]));
    }
}

/// Sizes and layout agree: in a part that holds nothing but entries of symbols, laying out a group
/// moves on by what the computation of its sizes has added.
pub proof fn lemma_sizes_match_layout<'a, 'data>(
    states: Seq<FileState>,
    files: Seq<FileToPlace<'a, 'data>>,
    ctx: &GroupContext<'a, 'data>,
    start: SymbolsView,
    part: PartId,
)
    requires
        ctx.parts.got != ctx.parts.plt,
        states.len() == files.len(),
        forall|i: int| 0 <= i < files.len() ==> same_file(#[trigger] states[i], files[i]),
        forall|i: int|
            0 <= i < files.len() ==> group_layout::file_wf(#[trigger] files[i], ctx)
                && file_leaves_alone(files[i], ctx, part),
    ensures
        group_layout::group_resolutions(files, ctx, start, files.len() as int) matches Ok((_, end))
            ==> input_sections::offset_of(end.offsets, part) == input_sections::offset_of(
            start.offsets,
            part,
        ) + group_sizes::files_reserve(
            states,
            ctx.definitions@,
            ctx.flags@,
            ctx.parts,
            part.0,
            files.len() as int,
        ),
{
    lemma_reserves_agree(states, files, ctx, part, files.len() as int);
    lemma_group_takes_what_is_reserved(files, ctx, start, files.len() as int, part);
}

/// What a section takes up in a part.
pub open spec fn input_takes<'data>(
    input: InputSection,
    sections: &OutputSections<'data>,
    part: PartId,
) -> int {
    match input_sections::placed_section(input.slot) {
        Some(section) if input.part_id == part => match input_sections::capacity_of(
            section,
            input.part_id,
            input.packed,
            sections,
        ) {
            Some(capacity) => capacity as int,
            None => 0,
        },
        _ => 0,
    }
}

/// What the first `count` sections of an object take up in a part.
pub open spec fn inputs_take<'data>(
    inputs: Seq<InputSection>,
    sections: &OutputSections<'data>,
    part: PartId,
    count: int,
) -> int
    decreases count,
{
    if count <= 0 {
        0
    } else {
        inputs_take(inputs, sections, part, count - 1) + input_takes(
            inputs[count - 1],
            sections,
            part,
        )
    }
}

/// Giving the sections of an object their addresses moves a part on by what they take up there,
/// unless inputs are placed in the order of the command line.
pub proof fn lemma_sections_take_their_space<'a, 'data>(
    inputs: Seq<InputSection>,
    ctx: &SectionContext<'a, 'data>,
    offsets: Map<u32, u64>,
    count: int,
    part: PartId,
)
    requires
        0 <= count <= inputs.len(),
        !ctx.sections.info(
            OutputSectionId(ctx.sections.platform.section_of(part.0 as int) as u32),
        ).input_order,
    ensures
        object_layout::sections_after(inputs, ctx, offsets, count) matches Some(s)
            ==> input_sections::offset_of(s.offsets, part) == input_sections::offset_of(
            offsets,
            part,
        ) + inputs_take(inputs, ctx.sections, part, count),
    decreases count,
{
    if count > 0 {
        lemma_sections_take_their_space(inputs, ctx, offsets, count - 1, part);
    }
}

proof fn lemma_slot_takes<'data>(
    before: Seq<InputSection>,
    after: Seq<InputSection>,
    sections: &OutputSections<'data>,
    part: PartId,
    index: int,
    count: int,
)
    requires
        0 <= count <= before.len(),
        0 <= index < before.len(),
        after.len() == before.len(),
        forall|i: int| 0 <= i < before.len() && i != index ==> #[trigger] after[i] == before[i],
    ensures
        inputs_take(after, sections, part, count) == inputs_take(before, sections, part, count)
            + if index < count {
            input_takes(after[index], sections, part) - input_takes(before[index], sections, part)
        } else {
            0
        },
    decreases count,
{
    if count > 0 {
        lemma_slot_takes(before, after, sections, part, index, count - 1);
    }
}

/// Loading a section adds to the sizes of the parts what the sections of its object take up more
/// than before. Sections that were placed before cannot be loaded again.
pub proof fn lemma_loading_reserves<'data>(
    before: ObjectState,
    after: ObjectState,
    common_before: CommonGroupState,
    common_after: CommonGroupState,
    unloaded: UnloadedSection,
    section_index: int,
    header: SectionHeaderInfo,
    zero_sized_content: bool,
    thunk_part: Option<PartId>,
    sections: &OutputSections<'data>,
    result: Result<LoadedSection, LoadError>,
    part: PartId,
)
    requires
        0 <= section_index < before.inputs@.len(),
        input_sections::placed_section(before.inputs@[section_index].slot) is None,
        section_loading::section_loaded(
            before,
            after,
            common_before,
            common_after,
            unloaded,
            section_index,
            header,
            zero_sized_content,
            thunk_part,
            sections,
            result,
        ),
    ensures
        input_sections::offset_of(common_after.view().mem_sizes, part) - inputs_take(
            after.inputs@,
            sections,
            part,
            after.inputs@.len() as int,
        ) == input_sections::offset_of(common_before.view().mem_sizes, part) - inputs_take(
            before.inputs@,
            sections,
            part,
            before.inputs@.len() as int,
        ),
{
    if result is Ok {
        lemma_slot_takes(
            before.inputs@,
            after.inputs@,
            sections,
            part,
            section_index,
            before.inputs@.len() as int,
        );
    }
}

} // verus!
