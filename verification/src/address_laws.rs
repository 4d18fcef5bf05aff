//! The addresses of sections and symbols.
use crate::expression_eval::SymbolValue;
use crate::groups::{ObjectState, SymbolSection};
use crate::input_sections;
use crate::input_sections::{InputSection, InputSectionPosition, Section, SectionSlot};
use crate::object_layout;
use crate::object_layout::{SectionContext, SectionsView, SframeSection, SymbolInputs, SymbolsView};
use crate::output_section_id::{OutputSectionId, PartId};
use crate::output_sections::OutputSections;
use crate::placement_laws;
use crate::relax_deltas;
use crate::resolution;
use crate::resolution::{EntryParts, Resolution, ResolutionError};
use crate::symbol_addresses;
use crate::symbol_addresses::EarlySymbolError;
use crate::symbol_id::SymbolId;
use crate::value_flags::ValueFlags;
use vstd::prelude::*;

verus! {

/// How many bytes are deleted at offsets below the given one.
pub open spec fn bytes_below(deltas: Seq<(u64, u32)>, offset: u64) -> int
    decreases deltas.len(),
{
    if deltas.len() == 0 {
        0
    } else {
        bytes_below(deltas.drop_last(), offset) + (if deltas.last().0 < offset {
            deltas.last().1 as int
        } else {
            0
        })
    }
}

proof fn lemma_bytes_below(deltas: Seq<(u64, u32)>, offset: u64, count: int)
    requires
        0 <= count <= deltas.len(),
    ensures
        relax_deltas::deleted_before(deltas, offset, count) == bytes_below(
            deltas.take(count),
            offset,
        ),
        bytes_below(deltas.take(count), offset) >= 0,
    decreases count,
{
    if count > 0 {
        lemma_bytes_below(deltas, offset, count - 1);
        assert(deltas.take(count).drop_last() =~= deltas.take(count - 1));
    }
}

/// An offset in the output is the offset in the input without the bytes that were deleted before it.
pub proof fn lemma_output_offset_skips_deleted(deltas: Seq<(u64, u32)>, offset: u64)
    ensures
        relax_deltas::output_offset(deltas, offset) matches Some(output) ==> output == offset
            - bytes_below(deltas, offset),
        relax_deltas::output_offset(deltas, offset) is None <==> bytes_below(deltas, offset)
            > offset,
{
    lemma_bytes_below(deltas, offset, deltas.len() as int);
    assert(deltas.take(deltas.len() as int) =~= deltas);
}

/// Offsets keep their order when bytes are deleted: what comes after a byte that is kept stays after
/// it, and two offsets come closer by what is deleted between them.
pub proof fn lemma_deleting_keeps_distances(deltas: Seq<(u64, u32)>, a: u64, b: u64)
    requires
        a <= b,
    ensures
        bytes_below(deltas, a) <= bytes_below(deltas, b),
        (forall|i: int|
            0 <= i < deltas.len() ==> (#[trigger] deltas[i]).0 < a || deltas[i].0 >= b)
            ==> bytes_below(deltas, a) == bytes_below(deltas, b),
    decreases deltas.len(),
{
    if deltas.len() > 0 {
        lemma_deleting_keeps_distances(deltas.drop_last(), a, b);
        if forall|i: int|
            0 <= i < deltas.len() ==> (#[trigger] deltas[i]).0 < a || deltas[i].0 >= b {
            assert forall|i: int| 0 <= i < deltas.len() - 1 implies (
            #[trigger] deltas.drop_last()[i]).0 < a || deltas.drop_last()[i].0 >= b by {
                assert(deltas[i].0 < a || deltas[i].0 >= b);
            }
            assert(deltas[deltas.len() - 1].0 < a || deltas[deltas.len() - 1].0 >= b);
        }
    }
}

/// What relaxation has deleted from a section of an object.
pub open spec fn deleted_from(object: ObjectState, section: int) -> Seq<(u64, u32)> {
    if 0 <= section < object.relax_deltas@.len() {
        object.relax_deltas@[section].deltas@
    } else {
        Seq::empty()
    }
}

/// The address of something in a section is the address of the section plus its offset in the input,
/// without the bytes that were deleted before it.
pub proof fn lemma_address_after_deletion(
    object: ObjectState,
    section: int,
    section_address: u64,
    input_offset: u64,
)
    ensures
        ({
            let address = section_address + input_offset - bytes_below(
                deleted_from(object, section),
                input_offset,
            );
            symbol_addresses::address_in_section(object, section, section_address, input_offset)
                matches Some(result) ==> result == address
        }),
        symbol_addresses::address_in_section(object, section, section_address, input_offset)
            is None <==> bytes_below(deleted_from(object, section), input_offset) > input_offset
            || section_address + input_offset - bytes_below(
            deleted_from(object, section),
            input_offset,
        ) > u64::MAX,
{
    lemma_output_offset_skips_deleted(deleted_from(object, section), input_offset);
}

/// Deleting bytes before something lowers its address by as many bytes; deleting them at or after it
/// leaves it where it is.
pub proof fn lemma_deleting_lowers_addresses(
    before: ObjectState,
    after: ObjectState,
    section: int,
    section_address: u64,
    input_offset: u64,
    at: u64,
    bytes: u32,
)
    requires
        deleted_from(after, section) == deleted_from(before, section).push((at, bytes)),
        symbol_addresses::address_in_section(before, section, section_address, input_offset) is Some,
        symbol_addresses::address_in_section(after, section, section_address, input_offset) is Some,
    ensures
        ({
            let old_address = symbol_addresses::address_in_section(
                before,
                section,
                section_address,
                input_offset,
            )->0;
            let new_address = symbol_addresses::address_in_section(
                after,
                section,
                section_address,
                input_offset,
            )->0;
            &&& at < input_offset ==> new_address == old_address - bytes
            &&& at >= input_offset ==> new_address == old_address
        }),
{
    lemma_address_after_deletion(before, section, section_address, input_offset);
    lemma_address_after_deletion(after, section, section_address, input_offset);
    let old_deltas = deleted_from(before, section);
    assert(old_deltas.push((at, bytes)).drop_last() =~= old_deltas);
}

/// A symbol in a section that has a position is as far behind the start of the section as its offset
/// says, without what was deleted in between. An absolute symbol has its own value. Other symbols
/// have no address yet.
pub proof fn lemma_symbol_address(
    object: ObjectState,
    positions: Seq<Option<InputSectionPosition>>,
    index: int,
)
    requires
        0 <= index < object.symbols@.len(),
    ensures
        ({
            let symbol = object.symbols@[index];
            let result = symbol_addresses::symbol_address(object, positions, index);
            &&& symbol.section matches SymbolSection::InSection(section) ==> {
                let known = section < positions.len() && positions[section as int] is Some
                    && symbol.offset_in_section is Some;
                &&& !known ==> result == Some(None::<u64>)
                &&& known ==> {
                    let start = positions[section as int]->0.address;
                    let offset = symbol.offset_in_section->0;
                    let deleted = bytes_below(deleted_from(object, section as int), offset);
                    &&& result is None <==> deleted > offset || start + offset - deleted
                        > u64::MAX
                    &&& result matches Some(address) ==> address matches Some(address) && address
                        == start + offset - deleted
                }
            }
            &&& symbol.section is NoSection && symbol.absolute ==> result == Some(
                Some(symbol.value),
            )
            &&& symbol.section is NoSection && !symbol.absolute ==> result == Some(None::<u64>)
            &&& symbol.section is Unreadable ==> result == Some(None::<u64>)
        }),
{
    let symbol = object.symbols@[index];
    if let SymbolSection::InSection(section) = symbol.section {
        if section < positions.len() && positions[section as int] is Some
            && symbol.offset_in_section is Some {
            lemma_address_after_deletion(
                object,
                section as int,
                positions[section as int]->0.address,
                symbol.offset_in_section->0,
            );
        }
    }
}

/// Recording the addresses of the symbols of an object gives every symbol of it that is its own
/// definition its address, and changes no address of any other symbol.
pub proof fn lemma_symbols_are_recorded(
    addresses: Seq<u64>,
    object: ObjectState,
    positions: Seq<Option<InputSectionPosition>>,
    definitions: Seq<SymbolId>,
    count: int,
    recorded: Seq<u64>,
    other: int,
)
    requires
        0 <= count <= object.symbol_id_range.num_symbols,
        object.symbol_id_range.start_symbol_id.0 + object.symbol_id_range.num_symbols
            <= addresses.len(),
        addresses.len() <= u32::MAX,
        0 <= other < addresses.len(),
        symbol_addresses::object_symbols(addresses, object, positions, definitions, count) == Some(
            recorded,
        ),
    ensures
        recorded.len() == addresses.len(),
        ({
            let index = other - object.symbol_id_range.start_symbol_id.0;
            let own = 0 <= index < count && index < object.symbols@.len()
                && definitions[other] == SymbolId(other as u32);
            &&& !own ==> recorded[other] == addresses[other]
            &&& own ==> match symbol_addresses::symbol_address(object, positions, index) {
                Some(Some(address)) => recorded[other] == address,
                Some(None) => recorded[other] == addresses[other],
                None => false,
            }
        }),
    decreases count,
{
    if count > 0 {
        let before = symbol_addresses::object_symbols(
            addresses,
            object,
            positions,
            definitions,
            count - 1,
        )->0;
        lemma_symbols_are_recorded(
            addresses,
            object,
            positions,
            definitions,
            count - 1,
            before,
            other,
        );
    }
}

/// Before parts have addresses, the value of a symbol in a section is relative to the part of the
/// section: the offset of the section in it plus that of the symbol, without what was deleted.
pub proof fn lemma_early_value(
    object: ObjectState,
    positions: Seq<Option<InputSectionPosition>>,
    index: int,
)
    requires
        0 <= index < object.symbols@.len(),
    ensures
        ({
            let symbol = object.symbols@[index];
            let result = symbol_addresses::early_value(object, positions, index);
            &&& symbol.section is NoSection && symbol.absolute ==> result == Ok::<
                _,
                EarlySymbolError,
            >(SymbolValue::Absolute(symbol.value))
            &&& symbol.section is NoSection && !symbol.absolute ==> result is Err
            &&& symbol.section is Unreadable ==> result is Err
            &&& symbol.section matches SymbolSection::InSection(section) ==> {
                let known = section < positions.len() && positions[section as int] is Some
                    && symbol.offset_in_section is Some;
                &&& !known ==> result is Err
                &&& known ==> {
                    let position = positions[section as int]->0;
                    let offset = symbol.offset_in_section->0;
                    let deleted = bytes_below(deleted_from(object, section as int), offset);
                    result matches Ok(value) ==> value == (SymbolValue::PartRelative {
                        part_id: position.part_id,
                        offset: (position.address + offset - deleted) as u64,
                    }) && 0 <= position.address + offset - deleted <= u64::MAX
                }
            }
        }),
{
    let symbol = object.symbols@[index];
    if let SymbolSection::InSection(section) = symbol.section {
        if section < positions.len() && positions[section as int] is Some
            && symbol.offset_in_section is Some {
            lemma_address_after_deletion(
                object,
                section as int,
                positions[section as int]->0.address,
                symbol.offset_in_section->0,
            );
        }
    }
}

/// The final value of a symbol: in a section, where the section is plus the offset without what was
/// deleted; of a common symbol, the next free space of its part, which it takes up; of any other
/// symbol, the value that its file gives. Only common symbols take up space.
pub proof fn lemma_final_value(
    object: ObjectState,
    ctx: SymbolInputs,
    index: int,
    offsets: Map<u32, u64>,
    value: Option<u64>,
    after: Map<u32, u64>,
)
    requires
        0 <= index < object.symbols@.len(),
        object_layout::symbol_value(object, ctx, index, offsets) == Ok::<_, ResolutionError>(
            (value, after),
        ),
    ensures
        ({
            let symbol = object.symbols@[index];
            &&& !(symbol.section is Unreadable)
            &&& symbol.section matches SymbolSection::InSection(section) ==> {
                let start = ctx.section_resolutions[section as int].address;
                &&& after == offsets
                &&& start != u64::MAX ==> {
                    let offset = symbol.offset_in_section->0;
                    &&& symbol.offset_in_section is Some
                    &&& value matches Some(value) && value == start + offset - bytes_below(
                        deleted_from(object, section as int),
                        offset,
                    )
                }
                &&& start == u64::MAX ==> value == ctx.merged_strings[index] && (value is None
                    ==> symbol.mapping)
            }
            &&& symbol.section is NoSection && symbol.common is None ==> value == Some(
                symbol.value,
            ) && after == offsets
            &&& symbol.section is NoSection ==> (symbol.common matches Some(common) ==> {
                let start = if offsets.contains_key(common.part_id.0) {
                    offsets[common.part_id.0]
                } else {
                    0
                };
                &&& value == Some(start)
                &&& after == offsets.insert(common.part_id.0, (start + common.size) as u64)
                &&& start + common.size <= u64::MAX
            })
        }),
{
    let symbol = object.symbols@[index];
    if let SymbolSection::InSection(section) = symbol.section {
        let start = ctx.section_resolutions[section as int].address;
        if start != u64::MAX && symbol.offset_in_section is Some {
            lemma_address_after_deletion(
                object,
                section as int,
                start,
                symbol.offset_in_section->0,
            );
        }
    }
}

/// Symbols end up where their addresses were computed to be while bytes were deleted, if their
/// sections do.
pub proof fn lemma_final_value_is_computed_address(
    object: ObjectState,
    positions: Seq<Option<InputSectionPosition>>,
    ctx: SymbolInputs,
    index: int,
    offsets: Map<u32, u64>,
    section: usize,
    address: u64,
)
    requires
        0 <= index < object.symbols@.len(),
        object.symbols@[index].section == SymbolSection::InSection(section),
        section < positions.len(),
        positions[section as int] is Some,
        ctx.section_resolutions[section as int].address == positions[section as int]->0.address,
        ctx.section_resolutions[section as int].address != u64::MAX,
        symbol_addresses::symbol_address(object, positions, index) == Some(Some(address)),
    ensures
        object_layout::symbol_value(object, ctx, index, offsets) == Ok::<_, ResolutionError>(
            (Some(address), offsets),
        ),
{
}

/// A symbol gets a resolution if and only if something needs it and it is the definition in use, its
/// value is known and nothing fails. A symbol that is not dynamic has no dynamic index, one that is
/// takes the next index.
pub proof fn lemma_symbol_resolution(
    object: ObjectState,
    ctx: SymbolInputs,
    index: int,
    flags: ValueFlags,
    canonical: bool,
    s: SymbolsView,
)
    ensures
        ({
            let result = object_layout::symbol_resolved(object, ctx, index, flags, canonical, s);
            let needed = flags.direct || flags.got || flags.plt || flags.got_tls_offset
                || flags.got_tls_module || flags.got_tls_descriptor || flags.export_dynamic;
            &&& !(needed && canonical) ==> result == Ok::<_, ResolutionError>((None::<Resolution>, s))
            &&& needed && canonical ==> (result matches Ok((resolution, after)) ==> {
                let value = object_layout::symbol_value(object, ctx, index, s.offsets);
                &&& value is Ok
                &&& resolution is Some <==> value->Ok_0.0 is Some
                &&& resolution matches Some(resolution) ==> {
                    &&& resolution.flags == flags
                    &&& flags.dynamic ==> resolution.dynamic_symbol_index == s.next_dynamic
                        && s.next_dynamic is Some && after.next_dynamic == Some(
                        (s.next_dynamic->0 + 1) as u32,
                    ) && s.next_dynamic->0 > 0
                    &&& !flags.dynamic ==> resolution.dynamic_symbol_index is None
                        && after.next_dynamic == s.next_dynamic
                    &&& !flags.got && !flags.plt ==> Some(resolution.raw_value)
                        == value->Ok_0.0
                }
            })
        }),
{
}

/// A symbol that needs a stub stands for its stub, and one that needs an entry only for the entry.
/// Each takes the next free place of its part, and nothing else moves. Other symbols have neither,
/// and keep their value.
pub proof fn lemma_entries_of_symbols(
    flags: ValueFlags,
    raw_value: u64,
    dynamic_symbol_index: Option<u32>,
    offsets: Map<u32, u64>,
    parts: EntryParts,
)
    requires
        parts.got.0 != parts.plt.0,
    ensures
        resolution::resolution_created(flags, raw_value, dynamic_symbol_index, offsets, parts)
            matches Ok((created, after)) ==> {
            let got = if offsets.contains_key(parts.got.0) {
                offsets[parts.got.0]
            } else {
                0
            };
            let plt = if offsets.contains_key(parts.plt.0) {
                offsets[parts.plt.0]
            } else {
                0
            };
            &&& created.flags == flags
            &&& created.dynamic_symbol_index == dynamic_symbol_index
            &&& created.plt_address == (if flags.plt {
                Some(plt)
            } else {
                None
            })
            &&& created.got_address == (if flags.plt || flags.got {
                Some(got)
            } else {
                None
            })
            &&& flags.plt ==> created.raw_value == plt && plt != 0 && after.contains_key(
                parts.plt.0,
            ) && after[parts.plt.0] == plt + 12
            &&& flags.got || flags.plt ==> got != 0 && after.contains_key(parts.got.0)
                && after[parts.got.0] == got + 8
            &&& flags.got && !flags.plt ==> created.raw_value == got
            &&& !flags.got && !flags.plt ==> created.raw_value == raw_value && after == offsets
            &&& forall|other: u32|
                other != parts.got.0 && other != parts.plt.0 && offsets.contains_key(other)
                    ==> #[trigger] after[other] == offsets[other] && after.contains_key(other)
        },
{
}

/// A section of an input takes up its size, rounded up to a multiple of the alignment of its part,
/// from the next free offset on. Inputs that are placed in the order of the command line are aligned
/// themselves and take up just their size, and so do those of packed parts.
pub proof fn lemma_section_takes_space<'data>(
    offset: u64,
    section: Section,
    part_id: PartId,
    packed: bool,
    sections: &OutputSections<'data>,
    address: u64,
    end: u64,
)
    requires
        sections.alignment_of(part_id) <= 16,
        input_sections::advanced(offset, section, part_id, packed, sections) == Some(
            (address, end),
        ),
    ensures
        ({
            let id = OutputSectionId(sections.platform.section_of(part_id.0 as int) as u32);
            &&& offset <= address
            &&& address + section.size <= end
            &&& sections.info(id).input_order ==> end == address + section.size
                && placement_laws::is_next_multiple(
                address as int,
                offset as int,
                section.alignment.bytes(),
            )
            &&& !sections.info(id).input_order ==> address == offset
            &&& !sections.info(id).input_order && packed ==> end == offset + section.size
            &&& !sections.info(id).input_order && !packed ==> placement_laws::is_next_multiple(
                end - address,
                section.size as int,
                vstd::arithmetic::power2::pow2(sections.alignment_of(part_id)) as int,
            )
        }),
{
    let exponent = sections.alignment_of(part_id);
    crate::alignment::Alignment::lemma_exp_of(exponent);
    placement_laws::lemma_up_goes_to_next_multiple(section.alignment, offset);
    placement_laws::lemma_up_goes_to_next_multiple(
        crate::alignment::Alignment::of_exp(exponent),
        section.size,
    );
}

/// Every section of an object gets the address that its slot calls for: a sorted one has got it
/// before, exception frames have a common one, and one that is loaded goes where its part has got to
/// and moves the part on. All others have none, and move nothing.
pub proof fn lemma_section_addresses<'a, 'data>(
    s: SectionsView,
    ctx: &SectionContext<'a, 'data>,
    input: InputSection,
    t: SectionsView,
)
    requires
        object_layout::section_step(s, ctx, input) == Some(t),
    ensures
        t.resolutions.len() == s.resolutions.len() + 1,
        t.resolutions.drop_last() == s.resolutions,
        ({
            let address = t.resolutions.last().address;
            &&& input.slot matches SectionSlot::Sorted(sorted) ==> address == sorted.address
                && t.offsets == s.offsets
            &&& input.slot is FrameData ==> address == ctx.frame_data_base && t.offsets
                == s.offsets
            &&& input.slot is Loaded || input.slot is LoadedDebugInfo ==> {
                let before = if s.offsets.contains_key(input.part_id.0) {
                    s.offsets[input.part_id.0]
                } else {
                    0
                };
                &&& before <= address
                &&& t.offsets.contains_key(input.part_id.0)
                &&& address <= t.offsets[input.part_id.0]
                &&& t.offsets == s.offsets.insert(input.part_id.0, t.offsets[input.part_id.0])
            }
            &&& !(input.slot is Loaded || input.slot is LoadedDebugInfo || input.slot is Sorted
                || input.slot is FrameData) ==> address == u64::MAX && t.offsets == s.offsets
        }),
{
    assert(t.resolutions.drop_last() =~= s.resolutions);
    if let Some(section) = input_sections::placed_section(input.slot) {
        placement_laws::lemma_up_goes_to_next_multiple(
            section.alignment,
            input_sections::offset_of(s.offsets, input.part_id),
        );
    }
}

/// The range that a section takes up in the `.sframe` section is as long as the section and starts as
/// far from the start of the `.sframe` section.
pub proof fn lemma_sframe_ranges(
    sframe: Option<SframeSection>,
    id: OutputSectionId,
    address: u64,
    size: u64,
)
    ensures
        object_layout::sframe_range(sframe, id, address, size) matches Some(range) ==> {
            &&& range is Some <==> (sframe matches Some(sframe) && sframe.id == id)
            &&& range matches Some((start, end)) ==> sframe->0.start + start == address && end
                - start == size
        },
        object_layout::sframe_range(sframe, id, address, size) is None ==> (sframe matches Some(
            sframe,
        ) && sframe.id == id && (address < sframe.start || address - sframe.start + size
            > u64::MAX)),
{
}

} // verus!
