//! The final addresses of the sections and symbols of an object file.
use crate::groups::{ObjectState, ObjectSymbol, SymbolSection};
use crate::input_sections;
use crate::input_sections::{advance_section_offset, InputSection, Section, SectionSlot};
use crate::layout_state;
use crate::output_section_id::{OutputSectionId, PartId};
use crate::output_section_part_map::OutputSectionPartMap;
use crate::output_sections::OutputSections;
use crate::resolution;
use crate::resolution::{
    create_resolution, EntryParts, Resolution, ResolutionError, SectionResolution,
};
use crate::symbol_addresses;
use crate::symbol_id::SymbolId;
use crate::value_flags::ValueFlags;
use vstd::prelude::*;

verus! {

/// The `.sframe` section of the output.
#[derive(Clone, Copy, Debug, PartialEq, Eq, Structural)]
pub struct SframeSection {
    pub id: OutputSectionId,
    pub start: u64,
}

/// What the addresses of sections depend on besides the object.
pub struct SectionContext<'a, 'data> {
    pub sections: &'a OutputSections<'data>,
    pub sframe: Option<SframeSection>,
    /// The address that exception frames are relative to.
    pub frame_data_base: u64,
}

/// The addresses of sections, the ranges of the `.sframe` section that they take up, and the
/// offsets after them.
pub struct SectionsView {
    pub resolutions: Seq<SectionResolution>,
    pub sframe_ranges: Seq<(u64, u64)>,
    pub offsets: Map<u32, u64>,
}

/// The range of the `.sframe` section that a section takes up, if it is in there. `None` if the
/// section starts before it.
pub open spec fn sframe_range(
    sframe: Option<SframeSection>,
    id: OutputSectionId,
    address: u64,
    size: u64,
) -> Option<Option<(u64, u64)>> {
    match sframe {
        Some(sframe) if sframe.id == id => if address < sframe.start {
            None
        } else {
            match layout_state::plus((address - sframe.start) as u64, size) {
                None => None,
                Some(end) => Some(Some(((address - sframe.start) as u64, end))),
            }
        },
        _ => Some(None),
    }
}

/// Gives a section its address.
pub open spec fn section_step<'a, 'data>(
    s: SectionsView,
    ctx: &SectionContext<'a, 'data>,
    input: InputSection,
) -> Option<SectionsView> {
    match input.slot {
        SectionSlot::Sorted(sorted) => Some(
            SectionsView {
                resolutions: s.resolutions.push(SectionResolution { address: sorted.address }),
                ..s
            },
        ),
        SectionSlot::FrameData(_) => Some(
            SectionsView {
                resolutions: s.resolutions.push(SectionResolution { address: ctx.frame_data_base }),
                ..s
            },
        ),
        _ => match input_sections::placed_section(input.slot) {
            None => Some(
                SectionsView {
                    resolutions: s.resolutions.push(SectionResolution { address: u64::MAX }),
                    ..s
                },
            ),
            Some(section) => match input_sections::advanced(
                input_sections::offset_of(s.offsets, input.part_id),
                section,
                input.part_id,
                input.packed,
                ctx.sections,
            ) {
                None => None,
                Some((address, end)) => match sframe_range(
                    if input.slot is Loaded {
                        ctx.sframe
                    } else {
                        None
                    },
                    OutputSectionId(
                        ctx.sections.platform.section_of(input.part_id.0 as int) as u32,
                    ),
                    address,
                    section.size,
                ) {
                    None => None,
                    Some(range) => Some(
                        SectionsView {
                            resolutions: s.resolutions.push(SectionResolution { address }),
                            sframe_ranges: match range {
                                Some(range) => s.sframe_ranges.push(range),
                                None => s.sframe_ranges,
                            },
                            offsets: s.offsets.insert(input.part_id.0, end),
                        },
                    ),
                },
            },
        },
    }
}

/// Gives the first `count` sections of an object their addresses. `None` if an address is not a
/// 64-bit number.
pub open spec fn sections_after<'a, 'data>(
    inputs: Seq<InputSection>,
    ctx: &SectionContext<'a, 'data>,
    offsets: Map<u32, u64>,
    count: int,
) -> Option<SectionsView>
    decreases count,
{
    if count <= 0 {
        Some(SectionsView { resolutions: Seq::empty(), sframe_ranges: Seq::empty(), offsets })
    } else {
        match sections_after(inputs, ctx, offsets, count - 1) {
            None => None,
            Some(before) => section_step(before, ctx, inputs[count - 1]),
        }
    }
}

proof fn lemma_sections_none<'a, 'data>(
    inputs: Seq<InputSection>,
    ctx: &SectionContext<'a, 'data>,
    offsets: Map<u32, u64>,
    count: int,
    total: int,
)
    requires
        0 <= count <= total,
        sections_after(inputs, ctx, offsets, count) is None,
    ensures
        sections_after(inputs, ctx, offsets, total) is None,
    decreases total - count,
{
    if count < total {
        lemma_sections_none(inputs, ctx, offsets, count + 1, total);
    }
}

fn find_sframe_range(
    sframe: Option<SframeSection>,
    id: OutputSectionId,
    address: u64,
    size: u64,
) -> (range: Option<Option<(u64, u64)>>)
    ensures
        range == sframe_range(sframe, id, address, size),
{
    match sframe {
        Some(sframe) => {
            if sframe.id.0 != id.0 {
                return Some(None);
            }
            if address < sframe.start {
                return None;
            }
            let start: u64 = address - sframe.start;
            match start.checked_add(size) {
                Some(end) => Some(Some((start, end))),
                None => None,
            }
        },
        None => Some(None),
    }
}

/// The sections of an object with their addresses.
#[derive(Debug)]
pub struct ObjectSections {
    pub section_resolutions: Vec<SectionResolution>,
    /// Ranges relative to the start of the `.sframe` output section.
    pub sframe_ranges: Vec<(u64, u64)>,
}

fn place_section<'a, 'data>(
    placed: &mut ObjectSections,
    offsets: &mut OutputSectionPartMap<u64>,
    ctx: &SectionContext<'a, 'data>,
    input: InputSection,
) -> (done: bool)
    requires
        ctx.sections.wf(),
        ctx.sections.platform.section_of(input.part_id.0 as int) < ctx.sections.count(),
        old(offsets).wf(),
    ensures
        final(offsets).wf(),
        final(offsets).dense() == old(offsets).dense(),
        match section_step(
            SectionsView {
                resolutions: old(placed).section_resolutions@,
                sframe_ranges: old(placed).sframe_ranges@,
                offsets: old(offsets)@,
            },
            ctx,
            input,
        ) {
            Some(s) => {
                &&& done
                &&& final(placed).section_resolutions@ == s.resolutions
                &&& final(placed).sframe_ranges@ == s.sframe_ranges
                &&& final(offsets)@ == s.offsets
            },
            None => !done,
        },
{
    let section: Section = match input.slot {
        SectionSlot::Sorted(sorted) => {
            placed.section_resolutions.push(SectionResolution { address: sorted.address });
            return true;
        },
        SectionSlot::FrameData(_) => {
            placed.section_resolutions.push(SectionResolution { address: ctx.frame_data_base });
            return true;
        },
        SectionSlot::Loaded(section) => section,
        SectionSlot::LoadedDebugInfo(section) => section,
        _ => {
            placed.section_resolutions.push(SectionResolution::none());
            return true;
        },
    };
    match advance_section_offset(
        offsets.get(input.part_id),
        section,
        input.part_id,
        input.packed,
        ctx.sections,
    ) {
        Some((address, end)) => {
            let sframe: Option<SframeSection> = match input.slot {
                SectionSlot::Loaded(_) => ctx.sframe,
                _ => None,
            };
            let id: OutputSectionId = input.part_id.output_section_id(&ctx.sections.platform);
            match find_sframe_range(sframe, id, address, section.size) {
                Some(Some(range)) => {
                    placed.sframe_ranges.push(range);
                },
                Some(None) => {},
                None => {
                    return false;
                },
            }
            offsets.set(input.part_id, end);
            placed.section_resolutions.push(SectionResolution { address });
            true
        },
        None => false,
    }
}

/// Gives the sections of an object their addresses. Those that were not loaded have none. `None`
/// if an address is not a 64-bit number.
pub fn resolve_sections<'a, 'data>(
    inputs: &Vec<InputSection>,
    ctx: &SectionContext<'a, 'data>,
    offsets: &mut OutputSectionPartMap<u64>,
) -> (result: Option<ObjectSections>)
    requires
        ctx.sections.wf(),
        input_sections::inputs_wf(inputs@, ctx.sections),
        old(offsets).wf(),
    ensures
        final(offsets).wf(),
        final(offsets).dense() == old(offsets).dense(),
        match (result, sections_after(inputs@, ctx, old(offsets)@, inputs@.len() as int)) {
            (Some(placed), Some(s)) => {
                &&& placed.section_resolutions@ == s.resolutions
                &&& placed.sframe_ranges@ == s.sframe_ranges
                &&& final(offsets)@ == s.offsets
                &&& placed.section_resolutions@.len() == inputs@.len()
            },
            (None, None) => true,
            _ => false,
        },
{
    let ghost before = offsets@;
    let mut placed = ObjectSections {
        section_resolutions: Vec::new(),
        sframe_ranges: Vec::new(),
    };
    let mut i: usize = 0;
    while i < inputs.len()
        invariant
            i <= inputs@.len(),
            ctx.sections.wf(),
            input_sections::inputs_wf(inputs@, ctx.sections),
            before == old(offsets)@,
            offsets.wf(),
            offsets.dense() == old(offsets).dense(),
            placed.section_resolutions@.len() == i,
            sections_after(inputs@, ctx, before, i as int) == Some(
                (SectionsView {
                    resolutions: placed.section_resolutions@,
                    sframe_ranges: placed.sframe_ranges@,
                    offsets: offsets@,
                }),
            ),
        decreases inputs@.len() - i,
    {
        if !place_section(&mut placed, offsets, ctx, inputs[i]) {
            proof {
                lemma_sections_none(inputs@, ctx, before, i + 1, inputs@.len() as int);
            }
            return None;
        }
        i = i + 1;
    }
    Some(placed)
}

/// Sections get the addresses that were computed for them before symbols were looked at: what an
/// object takes up is the same in both passes.
pub proof fn lemma_resolutions_match_positions<'a, 'data>(
    inputs: Seq<InputSection>,
    ctx: &SectionContext<'a, 'data>,
    offsets: Map<u32, u64>,
    count: int,
)
    requires
        0 <= count <= inputs.len(),
        ctx.sframe is None,
    ensures
        match (
            sections_after(inputs, ctx, offsets, count),
            input_sections::positions_after(inputs, offsets, ctx.sections, count),
        ) {
            (Some(s), Some((positions, after))) => {
                &&& s.offsets == after
                &&& s.resolutions.len() == count
                &&& positions.len() == count
                &&& forall|i: int|
                    0 <= i < count && (#[trigger] positions[i]) is Some ==> s.resolutions[i].address
                        == positions[i]->0.address
            },
            (None, None) => true,
            _ => false,
        },
    decreases count,
{
    if count > 0 {
        lemma_resolutions_match_positions(inputs, ctx, offsets, count - 1);
    }
}

/// What the addresses of symbols depend on besides the object.
pub struct SymbolContext<'a> {
    pub section_resolutions: &'a Vec<SectionResolution>,
    /// For each symbol, the address of the merged string that it names.
    pub merged_strings: &'a Vec<Option<u64>>,
    pub parts: EntryParts,
}

/// What the addresses of symbols depend on, as mathematical objects.
pub struct SymbolInputs {
    pub section_resolutions: Seq<SectionResolution>,
    pub merged_strings: Seq<Option<u64>>,
    pub parts: EntryParts,
}

impl<'a> SymbolContext<'a> {
    pub open spec fn inputs(&self) -> SymbolInputs {
        SymbolInputs {
            section_resolutions: self.section_resolutions@,
            merged_strings: self.merged_strings@,
            parts: self.parts,
        }
    }
}

/// What the symbols of an object take up.
pub struct SymbolsView {
    pub offsets: Map<u32, u64>,
    /// The next dynamic symbol index. `None` if the output has no dynamic symbols.
    pub next_dynamic: Option<u32>,
}

/// The value of a symbol and the offsets after it. A symbol that marks where code or data starts
/// has no value if its section has no address. Common symbols are allocated.
pub open spec fn symbol_value(
    object: ObjectState,
    ctx: SymbolInputs,
    index: int,
    offsets: Map<u32, u64>,
) -> Result<(Option<u64>, Map<u32, u64>), ResolutionError> {
    let symbol = object.symbols@[index];
    match symbol.section {
        SymbolSection::Unreadable => Err(ResolutionError::Unreadable),
        SymbolSection::InSection(section) => match ctx.section_resolutions[section as int].spec_address() {
            Some(address) => match symbol.offset_in_section {
                None => Err(ResolutionError::Unreadable),
                Some(input_offset) => match symbol_addresses::address_in_section(
                    object,
                    section as int,
                    address,
                    input_offset,
                ) {
                    None => Err(ResolutionError::Overflow),
                    Some(value) => Ok((Some(value), offsets)),
                },
            },
            None => match ctx.merged_strings[index] {
                Some(address) => Ok((Some(address), offsets)),
                None => if symbol.mapping {
                    Ok((None, offsets))
                } else {
                    Err(ResolutionError::SectionNotLoaded(section))
                },
            },
        },
        SymbolSection::NoSection => match symbol.common {
            Some(common) => {
                let address = input_sections::offset_of(offsets, common.part_id);
                match layout_state::plus(address, common.size) {
                    None => Err(ResolutionError::Overflow),
                    Some(end) => Ok((Some(address), offsets.insert(common.part_id.0, end))),
                }
            },
            None => Ok((Some(symbol.value), offsets)),
        },
    }
}

/// Takes the next dynamic symbol index, if the symbol is dynamic.
pub open spec fn dynamic_index_taken(flags: ValueFlags, next: Option<u32>) -> Result<
    (Option<u32>, Option<u32>),
    ResolutionError,
> {
    if !flags.dynamic {
        Ok((None, next))
    } else {
        match next {
            None => Err(ResolutionError::NoDynamicSymbols),
            Some(index) => if index == 0 {
                Err(ResolutionError::DynamicSymbolIndexZero)
            } else if index == u32::MAX {
                Err(ResolutionError::Overflow)
            } else {
                Ok((Some(index), Some((index + 1) as u32)))
            },
        }
    }
}

/// The resolution of a symbol of an object, and what is taken up after it. A symbol that nothing
/// needs, or that is not the definition in use, has none.
pub open spec fn symbol_resolved(
    object: ObjectState,
    ctx: SymbolInputs,
    index: int,
    flags: ValueFlags,
    canonical: bool,
    s: SymbolsView,
) -> Result<(Option<Resolution>, SymbolsView), ResolutionError> {
    if !flags.spec_has_resolution() || !canonical {
        Ok((None, s))
    } else {
        match symbol_value(object, ctx, index, s.offsets) {
            Err(error) => Err(error),
            Ok((None, offsets)) => Ok((None, SymbolsView { offsets, ..s })),
            Ok((Some(value), offsets)) => match dynamic_index_taken(flags, s.next_dynamic) {
                Err(error) => Err(error),
                Ok((dynamic_index, next_dynamic)) => match resolution::resolution_created(
                    flags,
                    value,
                    dynamic_index,
                    offsets,
                    ctx.parts,
                ) {
                    Err(error) => Err(error),
                    Ok((created, offsets)) => Ok(
                        (Some(created), SymbolsView { offsets, next_dynamic }),
                    ),
                },
            },
        }
    }
}

/// Whether the symbols of an object are in sections that exist.
pub open spec fn symbols_wf(object: ObjectState, ctx: SymbolInputs) -> bool {
    &&& ctx.merged_strings.len() == object.symbols@.len()
    &&& forall|i: int|
        0 <= i < object.symbols@.len() ==> ((#[trigger] object.symbols@[i]).section matches
            SymbolSection::InSection(section) ==> section < ctx.section_resolutions.len())
}

fn value_of_symbol<'a>(
    object: &ObjectState,
    ctx: &SymbolContext<'a>,
    index: usize,
    offsets: &mut OutputSectionPartMap<u64>,
) -> (value: Result<Option<u64>, ResolutionError>)
    requires
        symbols_wf(*object, ctx.inputs()),
        index < object.symbols@.len(),
        old(offsets).wf(),
    ensures
        final(offsets).wf(),
        final(offsets).dense() == old(offsets).dense(),
        match (value, symbol_value(*object, ctx.inputs(), index as int, old(offsets)@)) {
            (Ok(value), Ok((expected, after))) => value == expected && final(offsets)@ == after,
            (Err(error), Err(expected)) => error == expected,
            _ => false,
        },
{
    let symbol: ObjectSymbol = object.symbols[index];
    match symbol.section {
        SymbolSection::Unreadable => Err(ResolutionError::Unreadable),
        SymbolSection::InSection(section) => {
            assert(object.symbols@[index as int].section is InSection);
            match ctx.section_resolutions[section].address() {
                Some(address) => match symbol.offset_in_section {
                    Some(input_offset) => match object.address_in_section(
                        section,
                        address,
                        input_offset,
                    ) {
                        Some(value) => Ok(Some(value)),
                        None => Err(ResolutionError::Overflow),
                    },
                    None => Err(ResolutionError::Unreadable),
                },
                None => match ctx.merged_strings[index] {
                    Some(address) => Ok(Some(address)),
                    None => if symbol.mapping {
                        Ok(None)
                    } else {
                        Err(ResolutionError::SectionNotLoaded(section))
                    },
                },
            }
        },
        SymbolSection::NoSection => match symbol.common {
            Some(common) => {
                let address: u64 = offsets.get(common.part_id);
                match address.checked_add(common.size) {
                    Some(_) => {
                        offsets.increment(common.part_id, common.size);
                        Ok(Some(address))
                    },
                    None => Err(ResolutionError::Overflow),
                }
            },
            None => Ok(Some(symbol.value)),
        },
    }
}

fn take_dynamic_index(flags: ValueFlags, next: &mut Option<u32>) -> (index: Result<
    Option<u32>,
    ResolutionError,
>)
    ensures
        match (index, dynamic_index_taken(flags, *old(next))) {
            (Ok(index), Ok((expected, after))) => index == expected && *final(next) == after,
            (Err(error), Err(expected)) => error == expected,
            _ => false,
        },
{
    if !flags.dynamic {
        return Ok(None);
    }
    match *next {
        None => Err(ResolutionError::NoDynamicSymbols),
        Some(index) => {
            if index == 0 {
                return Err(ResolutionError::DynamicSymbolIndexZero);
            }
            if index == u32::MAX {
                return Err(ResolutionError::Overflow);
            }
            *next = Some(index + 1);
            Ok(Some(index))
        },
    }
}

/// Creates the resolution of a symbol of an object.
pub fn create_symbol_resolution<'a>(
    object: &ObjectState,
    ctx: &SymbolContext<'a>,
    index: usize,
    flags: ValueFlags,
    canonical: bool,
    offsets: &mut OutputSectionPartMap<u64>,
    next_dynamic: &mut Option<u32>,
) -> (result: Result<Option<Resolution>, ResolutionError>)
    requires
        symbols_wf(*object, ctx.inputs()),
        index < object.symbols@.len(),
        old(offsets).wf(),
    ensures
        final(offsets).wf(),
        final(offsets).dense() == old(offsets).dense(),
        match (
            result,
            symbol_resolved(
                *object,
                ctx.inputs(),
                index as int,
                flags,
                canonical,
                SymbolsView { offsets: old(offsets)@, next_dynamic: *old(next_dynamic) },
            ),
        ) {
            (Ok(resolution), Ok((expected, s))) => resolution == expected && final(offsets)@
                == s.offsets && *final(next_dynamic) == s.next_dynamic,
            (Err(error), Err(expected)) => error == expected,
            _ => false,
        },
{
    if !flags.has_resolution() || !canonical {
        return Ok(None);
    }
    let value: u64 = match value_of_symbol(object, ctx, index, offsets) {
        Ok(Some(value)) => value,
        Ok(None) => {
            return Ok(None);
        },
        Err(error) => {
            return Err(error);
        },
    };
    let dynamic_index: Option<u32> = match take_dynamic_index(flags, next_dynamic) {
        Ok(index) => index,
        Err(error) => {
            return Err(error);
        },
    };
    match create_resolution(flags, value, dynamic_index, offsets, ctx.parts) {
        Ok(resolution) => Ok(Some(resolution)),
        Err(error) => Err(error),
    }
}

/// The resolutions of the first `count` symbols of an object, and what is taken up after them.
pub open spec fn symbols_after(
    object: ObjectState,
    ctx: SymbolInputs,
    flags: Seq<ValueFlags>,
    definitions: Seq<SymbolId>,
    s: SymbolsView,
    count: int,
) -> Result<(Seq<Option<Resolution>>, SymbolsView), ResolutionError>
    decreases count,
{
    if count <= 0 {
        Ok((Seq::empty(), s))
    } else {
        match symbols_after(object, ctx, flags, definitions, s, count - 1) {
            Err(error) => Err(error),
            Ok((resolutions, before)) => {
                let id = object.symbol_id_range.id_at(count - 1);
                match symbol_resolved(
                    object,
                    ctx,
                    count - 1,
                    flags[id.0 as int],
                    definitions[id.0 as int] == id,
                    before,
                ) {
                    Err(error) => Err(error),
                    Ok((resolution, after)) => Ok((resolutions.push(resolution), after)),
                }
            },
        }
    }
}

proof fn lemma_symbols_error(
    object: ObjectState,
    ctx: SymbolInputs,
    flags: Seq<ValueFlags>,
    definitions: Seq<SymbolId>,
    s: SymbolsView,
    count: int,
    total: int,
)
    requires
        0 <= count <= total,
        symbols_after(object, ctx, flags, definitions, s, count) is Err,
    ensures
        symbols_after(object, ctx, flags, definitions, s, total) == symbols_after(
            object,
            ctx,
            flags,
            definitions,
            s,
            count,
        ),
    decreases total - count,
{
    if count < total {
        lemma_symbols_error(object, ctx, flags, definitions, s, count + 1, total);
    }
}

/// Creates the resolutions of the symbols of an object. `flags` and `definitions` say for each
/// symbol ID what is needed of it and which symbol defines it.
pub fn resolve_symbols<'a>(
    object: &ObjectState,
    ctx: &SymbolContext<'a>,
    flags: &Vec<ValueFlags>,
    definitions: &Vec<SymbolId>,
    offsets: &mut OutputSectionPartMap<u64>,
    next_dynamic: &mut Option<u32>,
) -> (result: Result<Vec<Option<Resolution>>, ResolutionError>)
    requires
        symbols_wf(*object, ctx.inputs()),
        old(offsets).wf(),
        object.symbols@.len() <= object.symbol_id_range.num_symbols,
        object.symbol_id_range.wf(),
        object.symbol_id_range.start_symbol_id.0 + object.symbol_id_range.num_symbols
            <= flags@.len(),
        flags@.len() == definitions@.len(),
    ensures
        final(offsets).wf(),
        final(offsets).dense() == old(offsets).dense(),
        match (
            result,
            symbols_after(
                *object,
                ctx.inputs(),
                flags@,
                definitions@,
                SymbolsView { offsets: old(offsets)@, next_dynamic: *old(next_dynamic) },
                object.symbols@.len() as int,
            ),
        ) {
            (Ok(resolutions), Ok((expected, s))) => resolutions@ == expected && final(offsets)@
                == s.offsets && *final(next_dynamic) == s.next_dynamic,
            (Err(error), Err(expected)) => error == expected,
            _ => false,
        },
{
    let ghost start = SymbolsView { offsets: offsets@, next_dynamic: *next_dynamic };
    let mut resolutions: Vec<Option<Resolution>> = Vec::new();
    let mut i: usize = 0;
    while i < object.symbols.len()
        invariant
            i <= object.symbols@.len(),
            symbols_wf(*object, ctx.inputs()),
            offsets.wf(),
            offsets.dense() == old(offsets).dense(),
            object.symbols@.len() <= object.symbol_id_range.num_symbols,
            object.symbol_id_range.wf(),
            object.symbol_id_range.start_symbol_id.0 + object.symbol_id_range.num_symbols
                <= flags@.len(),
            flags@.len() == definitions@.len(),
            start == (SymbolsView { offsets: old(offsets)@, next_dynamic: *old(next_dynamic) }),
            symbols_after(*object, ctx.inputs(), flags@, definitions@, start, i as int) == Ok::<
                _,
                ResolutionError,
            >(
                (
                    resolutions@,
                    SymbolsView { offsets: offsets@, next_dynamic: *next_dynamic },
                ),
            ),
        decreases object.symbols@.len() - i,
    {
        let id: SymbolId = object.symbol_id_range.input_to_id(i);
        let canonical: bool = definitions[id.as_usize()].0 == id.0;
        match create_symbol_resolution(
            object,
            ctx,
            i,
            flags[id.as_usize()],
            canonical,
            offsets,
            next_dynamic,
        ) {
            Ok(resolution) => {
                resolutions.push(resolution);
            },
            Err(error) => {
                proof {
                    lemma_symbols_error(
                        *object,
                        ctx.inputs(),
                        flags@,
                        definitions@,
                        start,
                        i + 1,
                        object.symbols@.len() as int,
                    );
                }
                return Err(error);
            },
        }
        i = i + 1;
    }
    Ok(resolutions)
}

/// Where the thunks of a block go: one after the other. `None` if an address is not a 64-bit
/// number.
pub open spec fn thunks_placed(
    start: u64,
    thunk_size: u64,
    symbols: Seq<SymbolId>,
    count: int,
) -> Option<(Seq<(SymbolId, u64)>, u64)>
    decreases count,
{
    if count <= 0 {
        Some((Seq::empty(), start))
    } else {
        match thunks_placed(start, thunk_size, symbols, count - 1) {
            None => None,
            Some((placed, address)) => match layout_state::plus(address, thunk_size) {
                None => None,
                Some(end) => Some((placed.push((symbols[count - 1], address)), end)),
            },
        }
    }
}

proof fn lemma_thunks_none(
    start: u64,
    thunk_size: u64,
    symbols: Seq<SymbolId>,
    count: int,
    total: int,
)
    requires
        0 <= count <= total,
        thunks_placed(start, thunk_size, symbols, count) is None,
    ensures
        thunks_placed(start, thunk_size, symbols, total) is None,
    decreases total - count,
{
    if count < total {
        lemma_thunks_none(start, thunk_size, symbols, count + 1, total);
    }
}

/// Assigns addresses to the thunks of a block, for the object that writes them.
pub fn assign_thunk_addresses(
    offsets: &mut OutputSectionPartMap<u64>,
    part_id: PartId,
    thunk_size: u64,
    symbols: &Vec<SymbolId>,
) -> (addresses: Option<Vec<(SymbolId, u64)>>)
    requires
        old(offsets).wf(),
    ensures
        final(offsets).wf(),
        final(offsets).dense() == old(offsets).dense(),
        match (
            addresses,
            thunks_placed(
                old(offsets).value(part_id.0),
                thunk_size,
                symbols@,
                symbols@.len() as int,
            ),
        ) {
            (Some(addresses), Some((expected, end))) => addresses@ == expected && final(offsets)@
                == old(offsets)@.insert(part_id.0, end),
            (None, None) => true,
            _ => false,
        },
{
    let start: u64 = offsets.get(part_id);
    let mut address: u64 = start;
    let mut addresses: Vec<(SymbolId, u64)> = Vec::new();
    let mut i: usize = 0;
    while i < symbols.len()
        invariant
            i <= symbols@.len(),
            start == old(offsets).value(part_id.0),
            *offsets == *old(offsets),
            offsets.wf(),
            thunks_placed(start, thunk_size, symbols@, i as int) == Some((addresses@, address)),
        decreases symbols@.len() - i,
    {
        match address.checked_add(thunk_size) {
            Some(end) => {
                addresses.push((symbols[i], address));
                address = end;
            },
            None => {
                proof {
                    lemma_thunks_none(
                        start,
                        thunk_size,
                        symbols@,
                        i + 1,
                        symbols@.len() as int,
                    );
                }
                return None;
            },
        }
        i = i + 1;
    }
    offsets.set(part_id, address);
    Some(addresses)
}

/// Thunks that an object writes.
pub struct OwnedThunks<'a> {
    pub part_id: PartId,
    pub thunk_size: u64,
    pub symbols: &'a Vec<SymbolId>,
}

/// An object with the addresses of its sections and symbols.
#[derive(Debug)]
pub struct ObjectLayout {
    pub sections: ObjectSections,
    pub resolutions: Vec<Option<Resolution>>,
    pub thunk_addresses: Vec<(SymbolId, u64)>,
}

/// The addresses of the thunks that an object writes, and the offsets after them.
pub open spec fn thunks_after<'a>(thunks: Option<OwnedThunks<'a>>, offsets: Map<u32, u64>) -> Option<
    (Seq<(SymbolId, u64)>, Map<u32, u64>),
> {
    match thunks {
        Some(thunks) if thunks.symbols@.len() > 0 => match thunks_placed(
            input_sections::offset_of(offsets, thunks.part_id),
            thunks.thunk_size,
            thunks.symbols@,
            thunks.symbols@.len() as int,
        ) {
            None => None,
            Some((placed, end)) => Some((placed, offsets.insert(thunks.part_id.0, end))),
        },
        _ => Some((Seq::empty(), offsets)),
    }
}

/// Whether an object has been laid out as it should be: first its sections, then its symbols, then
/// the thunks that it writes.
pub open spec fn is_final_layout<'a, 'data>(
    result: Result<ObjectLayout, ResolutionError>,
    object: ObjectState,
    ctx: &SectionContext<'a, 'data>,
    merged_strings: Seq<Option<u64>>,
    parts: EntryParts,
    flags: Seq<ValueFlags>,
    definitions: Seq<SymbolId>,
    thunks: Option<OwnedThunks<'a>>,
    start: SymbolsView,
    end: SymbolsView,
) -> bool {
    match sections_after(object.inputs@, ctx, start.offsets, object.inputs@.len() as int) {
        None => result == Err::<ObjectLayout, _>(ResolutionError::Overflow),
        Some(s) => match symbols_after(
            object,
            SymbolInputs { section_resolutions: s.resolutions, merged_strings, parts },
            flags,
            definitions,
            SymbolsView { offsets: s.offsets, next_dynamic: start.next_dynamic },
            object.symbols@.len() as int,
        ) {
            Err(error) => result == Err::<ObjectLayout, _>(error),
            Ok((resolutions, after)) => match thunks_after(thunks, after.offsets) {
                None => result == Err::<ObjectLayout, _>(ResolutionError::Overflow),
                Some((thunk_addresses, offsets)) => {
                    &&& result matches Ok(layout)
                    &&& layout.sections.section_resolutions@ == s.resolutions
                    &&& layout.sections.sframe_ranges@ == s.sframe_ranges
                    &&& layout.resolutions@ == resolutions
                    &&& layout.thunk_addresses@ == thunk_addresses
                    &&& end == SymbolsView { offsets, next_dynamic: after.next_dynamic }
                },
            },
        },
    }
}

/// Lays out an object: gives addresses to its sections, its symbols and the thunks that it writes.
pub fn finalise_layout<'a, 'data>(
    object: &ObjectState,
    ctx: &SectionContext<'a, 'data>,
    merged_strings: &Vec<Option<u64>>,
    parts: EntryParts,
    flags: &Vec<ValueFlags>,
    definitions: &Vec<SymbolId>,
    thunks: Option<OwnedThunks<'a>>,
    offsets: &mut OutputSectionPartMap<u64>,
    next_dynamic: &mut Option<u32>,
) -> (result: Result<ObjectLayout, ResolutionError>)
    requires
        ctx.sections.wf(),
        input_sections::inputs_wf(object.inputs@, ctx.sections),
        old(offsets).wf(),
        merged_strings@.len() == object.symbols@.len(),
        forall|i: int|
            0 <= i < object.symbols@.len() ==> ((#[trigger] object.symbols@[i]).section matches
                SymbolSection::InSection(section) ==> section < object.inputs@.len()),
        object.symbols@.len() <= object.symbol_id_range.num_symbols,
        object.symbol_id_range.wf(),
        object.symbol_id_range.start_symbol_id.0 + object.symbol_id_range.num_symbols
            <= flags@.len(),
        flags@.len() == definitions@.len(),
    ensures
        final(offsets).wf(),
        final(offsets).dense() == old(offsets).dense(),
        is_final_layout(
            result,
            *object,
            ctx,
            merged_strings@,
            parts,
            flags@,
            definitions@,
            thunks,
            SymbolsView { offsets: old(offsets)@, next_dynamic: *old(next_dynamic) },
            SymbolsView { offsets: final(offsets)@, next_dynamic: *final(next_dynamic) },
        ),
{
    let sections: ObjectSections = match resolve_sections(&object.inputs, ctx, offsets) {
        Some(sections) => sections,
        None => {
            return Err(ResolutionError::Overflow);
        },
    };
    let symbol_ctx = SymbolContext {
        section_resolutions: &sections.section_resolutions,
        merged_strings,
        parts,
    };
    let resolutions: Vec<Option<Resolution>> = match resolve_symbols(
        object,
        &symbol_ctx,
        flags,
        definitions,
        offsets,
        next_dynamic,
    ) {
        Ok(resolutions) => resolutions,
        Err(error) => {
            return Err(error);
        },
    };
    let thunk_addresses: Vec<(SymbolId, u64)> = match thunks {
        Some(thunks) => {
            if thunks.symbols.len() > 0 {
                match assign_thunk_addresses(
                    offsets,
                    thunks.part_id,
                    thunks.thunk_size,
                    thunks.symbols,
                ) {
                    Some(addresses) => addresses,
                    None => {
                        return Err(ResolutionError::Overflow);
                    },
                }
            } else {
                Vec::new()
            }
        },
        None => Vec::new(),
    };
    Ok(ObjectLayout { sections, resolutions, thunk_addresses })
}

} // verus!
