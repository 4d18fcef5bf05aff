//! The addresses of symbols before the layout is final.
use crate::expression_eval::SymbolValue;
use crate::groups::{FileState, GroupState, ObjectState, ObjectSymbol, SymbolSection};
use crate::groups;
use crate::input_sections::{InputSectionPosition, SectionSlot};
use crate::layout_state;
use crate::output_section_id::{OutputSectionId, PartId};
use crate::output_section_map::OutputSectionMap;
use crate::output_section_part_map::OutputSectionPartMap;
use crate::output_sections::OutputSections;
use crate::record_layout::OutputRecordLayout;
use crate::relax_deltas;
use crate::section_positions;
use crate::section_positions::compute_input_section_positions;
use crate::stable_order;
use crate::symbol_id::SymbolId;
use crate::value_flags::ValueFlags;
use vstd::prelude::*;

verus! {

/// Stands for the address of a symbol whose address is not known.
pub const SYMBOL_ADDRESS_UNRESOLVED: u64 = 0xffff_ffff_ffff_ffff;

/// What relaxation knows of a symbol.
#[derive(Clone, Copy, Debug, PartialEq, Eq, Structural)]
pub struct RelaxSymbolInfo {
    pub output_address: u64,
    pub is_interposable: bool,
}

/// The addresses of all symbols.
#[derive(Debug)]
pub struct SymbolOutputInfos {
    pub addresses: Vec<u64>,
}

/// Why the value of a symbol is not known early.
#[derive(Clone, Copy, Debug, PartialEq, Eq, Structural)]
pub enum EarlySymbolError {
    /// The object file is malformed.
    Unreadable,
    /// The symbol is in no section and is not absolute.
    NoAddress,
    /// The section is sorted among others.
    SortedSection(usize),
    /// The section has no early layout.
    NoEarlyLayout,
    Overflow,
}

/// Why the address of a symbol is not known while sections are laid out.
#[derive(Clone, Copy, Debug, PartialEq, Eq, Structural)]
pub enum SymbolLayoutError {
    /// The object file is malformed.
    Unreadable,
    NotInOutputSection,
    /// The section of the symbol has not been laid out yet.
    UsedTooEarly,
    Overflow,
}

impl SymbolOutputInfos {
    /// What relaxation may know of a symbol: its address, if that is known, and whether it may be
    /// interposed.
    pub fn resolve(&self, symbol_id: SymbolId, flags: &Vec<ValueFlags>) -> (info: Option<
        RelaxSymbolInfo,
    >)
        requires
            symbol_id.0 < self.addresses@.len() ==> symbol_id.0 < flags@.len(),
        ensures
            info == (if symbol_id.0 < self.addresses@.len() && self.addresses@[symbol_id.0 as int]
                != SYMBOL_ADDRESS_UNRESOLVED {
                Some(
                    RelaxSymbolInfo {
                        output_address: self.addresses@[symbol_id.0 as int],
                        is_interposable: !flags@[symbol_id.0 as int].non_interposable,
                    },
                )
            } else {
                None::<RelaxSymbolInfo>
            }),
    {
        let index: usize = symbol_id.as_usize();
        if index >= self.addresses.len() {
            return None;
        }
        let address: u64 = self.addresses[index];
        if address == SYMBOL_ADDRESS_UNRESOLVED {
            return None;
        }
        Some(
            RelaxSymbolInfo {
                output_address: address,
                is_interposable: flags[index].is_interposable(),
            },
        )
    }
}

/// What relaxation has deleted from a section.
pub open spec fn deltas_of(object: ObjectState, section: int) -> Seq<(u64, u32)> {
    if 0 <= section < object.relax_deltas@.len() {
        object.relax_deltas@[section].deltas@
    } else {
        Seq::empty()
    }
}

/// The position of a section, if it has one.
pub open spec fn position_of(
    positions: Seq<Option<InputSectionPosition>>,
    section: int,
) -> Option<InputSectionPosition> {
    if 0 <= section < positions.len() {
        positions[section]
    } else {
        None
    }
}

/// An address in a section: where the section is, and how far the offset in the input is from
/// there after relaxation.
pub open spec fn address_in_section(
    object: ObjectState,
    section: int,
    section_address: u64,
    input_offset: u64,
) -> Option<u64> {
    match relax_deltas::output_offset(deltas_of(object, section), input_offset) {
        None => None,
        Some(offset) => layout_state::plus(section_address, offset),
    }
}

/// The address of a symbol of an object. The outer option is `None` if the address is not a 64-bit
/// number, the inner one if the address is not known.
pub open spec fn symbol_address(
    object: ObjectState,
    positions: Seq<Option<InputSectionPosition>>,
    index: int,
) -> Option<Option<u64>> {
    let symbol = object.symbols@[index];
    match symbol.section {
        SymbolSection::InSection(section) => match (
            position_of(positions, section as int),
            symbol.offset_in_section,
        ) {
            (Some(position), Some(input_offset)) => match address_in_section(
                object,
                section as int,
                position.address,
                input_offset,
            ) {
                None => None,
                Some(address) => Some(Some(address)),
            },
            _ => Some(None),
        },
        SymbolSection::NoSection => if symbol.absolute {
            Some(Some(symbol.value))
        } else {
            Some(None)
        },
        SymbolSection::Unreadable => Some(None),
    }
}

/// Records the address of one symbol, if the symbol is the definition that is in use.
pub open spec fn symbol_step(
    addresses: Seq<u64>,
    object: ObjectState,
    positions: Seq<Option<InputSectionPosition>>,
    definitions: Seq<SymbolId>,
    index: int,
) -> Option<Seq<u64>> {
    let id = object.symbol_id_range.id_at(index);
    if index >= object.symbols@.len() || definitions[id.0 as int] != id {
        Some(addresses)
    } else {
        match symbol_address(object, positions, index) {
            None => None,
            Some(None) => Some(addresses),
            Some(Some(address)) => Some(addresses.update(id.0 as int, address)),
        }
    }
}

/// The addresses after the first `count` symbols of an object have been recorded.
pub open spec fn object_symbols(
    addresses: Seq<u64>,
    object: ObjectState,
    positions: Seq<Option<InputSectionPosition>>,
    definitions: Seq<SymbolId>,
    count: int,
) -> Option<Seq<u64>>
    decreases count,
{
    if count <= 0 {
        Some(addresses)
    } else {
        match object_symbols(addresses, object, positions, definitions, count - 1) {
            None => None,
            Some(before) => symbol_step(before, object, positions, definitions, count - 1),
        }
    }
}

/// The addresses after the symbols of the first `count` files of a group have been recorded.
pub open spec fn group_symbols(
    addresses: Seq<u64>,
    files: Seq<FileState>,
    positions: Seq<Seq<Option<InputSectionPosition>>>,
    definitions: Seq<SymbolId>,
    count: int,
) -> Option<Seq<u64>>
    decreases count,
{
    if count <= 0 {
        Some(addresses)
    } else {
        match group_symbols(addresses, files, positions, definitions, count - 1) {
            None => None,
            Some(before) => match files[count - 1] {
                FileState::Object(object) => object_symbols(
                    before,
                    object,
                    positions[count - 1],
                    definitions,
                    object.symbol_id_range.num_symbols as int,
                ),
                _ => Some(before),
            },
        }
    }
}

/// The contents of lists of lists of lists.
pub open spec fn deep_views<T>(lists: Seq<Vec<Vec<T>>>) -> Seq<Seq<Seq<T>>> {
    Seq::new(lists.len(), |i: int| section_positions::views(lists[i]@))
}

/// The addresses after the symbols of the first `count` groups have been recorded.
pub open spec fn all_symbols(
    addresses: Seq<u64>,
    groups: Seq<GroupState>,
    positions: Seq<Seq<Seq<Option<InputSectionPosition>>>>,
    definitions: Seq<SymbolId>,
    count: int,
) -> Option<Seq<u64>>
    decreases count,
{
    if count <= 0 {
        Some(addresses)
    } else {
        match all_symbols(addresses, groups, positions, definitions, count - 1) {
            None => None,
            Some(before) => group_symbols(
                before,
                groups[count - 1].files@,
                positions[count - 1],
                definitions,
                groups[count - 1].files@.len() as int,
            ),
        }
    }
}

/// Whether the symbols of a file have IDs below a number.
pub open spec fn symbols_below(file: FileState, num_symbols: int) -> bool {
    file matches FileState::Object(object) ==> object.symbol_id_range.start_symbol_id.0
        + object.symbol_id_range.num_symbols <= num_symbols
}

/// Whether all symbols have IDs below a number.
pub open spec fn all_symbols_below(groups: Seq<GroupState>, num_symbols: int) -> bool {
    forall|g: int, f: int|
        #![trigger groups[g].files@[f]]
        0 <= g < groups.len() && 0 <= f < groups[g].files@.len() ==> symbols_below(
            groups[g].files@[f],
            num_symbols,
        )
}

proof fn lemma_object_symbols_none(
    addresses: Seq<u64>,
    object: ObjectState,
    positions: Seq<Option<InputSectionPosition>>,
    definitions: Seq<SymbolId>,
    count: int,
    total: int,
)
    requires
        0 <= count <= total,
        object_symbols(addresses, object, positions, definitions, count) is None,
    ensures
        object_symbols(addresses, object, positions, definitions, total) is None,
    decreases total - count,
{
    if count < total {
        lemma_object_symbols_none(addresses, object, positions, definitions, count + 1, total);
    }
}

proof fn lemma_group_symbols_none(
    addresses: Seq<u64>,
    files: Seq<FileState>,
    positions: Seq<Seq<Option<InputSectionPosition>>>,
    definitions: Seq<SymbolId>,
    count: int,
    total: int,
)
    requires
        0 <= count <= total,
        group_symbols(addresses, files, positions, definitions, count) is None,
    ensures
        group_symbols(addresses, files, positions, definitions, total) is None,
    decreases total - count,
{
    if count < total {
        lemma_group_symbols_none(addresses, files, positions, definitions, count + 1, total);
    }
}

proof fn lemma_all_symbols_none(
    addresses: Seq<u64>,
    groups: Seq<GroupState>,
    positions: Seq<Seq<Seq<Option<InputSectionPosition>>>>,
    definitions: Seq<SymbolId>,
    count: int,
    total: int,
)
    requires
        0 <= count <= total,
        all_symbols(addresses, groups, positions, definitions, count) is None,
    ensures
        all_symbols(addresses, groups, positions, definitions, total) is None,
    decreases total - count,
{
    if count < total {
        lemma_all_symbols_none(addresses, groups, positions, definitions, count + 1, total);
    }
}

fn find_position(positions: &Vec<Option<InputSectionPosition>>, section: usize) -> (position: Option<
    InputSectionPosition,
>)
    ensures
        position == position_of(positions@, section as int),
{
    if section < positions.len() {
        positions[section]
    } else {
        None
    }
}

impl ObjectState {
    /// An address in a section of the object.
    pub fn address_in_section(
        &self,
        section: usize,
        section_address: u64,
        input_offset: u64,
    ) -> (address: Option<u64>)
        ensures
            address == address_in_section(*self, section as int, section_address, input_offset),
    {
        let offset: u64 = if section < self.relax_deltas.len() {
            match self.relax_deltas[section].input_to_output(input_offset) {
                Some(offset) => offset,
                None => {
                    return None;
                },
            }
        } else {
            proof {
                relax_deltas::lemma_output_offset(Seq::empty(), input_offset);
            }
            input_offset
        };
        section_address.checked_add(offset)
    }

    fn address_of_symbol(
        &self,
        positions: &Vec<Option<InputSectionPosition>>,
        index: usize,
    ) -> (address: Option<Option<u64>>)
        requires
            index < self.symbols@.len(),
        ensures
            address == symbol_address(*self, positions@, index as int),
    {
        let symbol: ObjectSymbol = self.symbols[index];
        match symbol.section {
            SymbolSection::InSection(section) => match (
                find_position(positions, section),
                symbol.offset_in_section,
            ) {
                (Some(position), Some(input_offset)) => match self.address_in_section(
                    section,
                    position.address,
                    input_offset,
                ) {
                    Some(address) => Some(Some(address)),
                    None => None,
                },
                _ => Some(None),
            },
            SymbolSection::NoSection => if symbol.absolute {
                Some(Some(symbol.value))
            } else {
                Some(None)
            },
            SymbolSection::Unreadable => Some(None),
        }
    }
}

fn record_object_symbols(
    addresses: &mut Vec<u64>,
    object: &ObjectState,
    positions: &Vec<Option<InputSectionPosition>>,
    definitions: &Vec<SymbolId>,
) -> (done: bool)
    requires
        definitions@.len() == old(addresses)@.len(),
        old(addresses)@.len() <= u32::MAX,
        object.symbol_id_range.start_symbol_id.0 + object.symbol_id_range.num_symbols <= old(
            addresses,
        )@.len(),
    ensures
        final(addresses)@.len() == old(addresses)@.len(),
        match object_symbols(
            old(addresses)@,
            *object,
            positions@,
            definitions@,
            object.symbol_id_range.num_symbols as int,
        ) {
            Some(expected) => done && final(addresses)@ == expected,
            None => !done,
        },
{
    let ghost before = addresses@;
    let count: usize = object.symbol_id_range.len();
    let mut i: usize = 0;
    while i < count
        invariant
            i <= count,
            count == object.symbol_id_range.num_symbols,
            before == old(addresses)@,
            before.len() <= u32::MAX,
            addresses@.len() == before.len(),
            definitions@.len() == before.len(),
            object.symbol_id_range.start_symbol_id.0 + count <= before.len(),
            object_symbols(before, *object, positions@, definitions@, i as int) == Some(addresses@),
        decreases count - i,
    {
        if i < object.symbols.len() {
            let id: SymbolId = object.symbol_id_range.input_to_id(i);
            if definitions[id.as_usize()].0 == id.0 {
                match object.address_of_symbol(positions, i) {
                    Some(Some(address)) => {
                        addresses.set(id.as_usize(), address);
                    },
                    Some(None) => {},
                    None => {
                        proof {
                            lemma_object_symbols_none(
                                before,
                                *object,
                                positions@,
                                definitions@,
                                i + 1,
                                count as int,
                            );
                        }
                        return false;
                    },
                }
            }
        }
        i = i + 1;
    }
    true
}

fn record_group_symbols(
    addresses: &mut Vec<u64>,
    files: &Vec<FileState>,
    positions: &Vec<Vec<Option<InputSectionPosition>>>,
    definitions: &Vec<SymbolId>,
) -> (done: bool)
    requires
        definitions@.len() == old(addresses)@.len(),
        old(addresses)@.len() <= u32::MAX,
        positions@.len() == files@.len(),
        forall|f: int|
            0 <= f < files@.len() ==> symbols_below(
                #[trigger] files@[f],
                old(addresses)@.len() as int,
            ),
    ensures
        final(addresses)@.len() == old(addresses)@.len(),
        match group_symbols(
            old(addresses)@,
            files@,
            section_positions::views(positions@),
            definitions@,
            files@.len() as int,
        ) {
            Some(expected) => done && final(addresses)@ == expected,
            None => !done,
        },
{
    let ghost before = addresses@;
    let mut i: usize = 0;
    while i < files.len()
        invariant
            i <= files@.len(),
            before == old(addresses)@,
            before.len() <= u32::MAX,
            addresses@.len() == before.len(),
            definitions@.len() == before.len(),
            positions@.len() == files@.len(),
            forall|f: int|
                0 <= f < files@.len() ==> symbols_below(#[trigger] files@[f], before.len() as int),
            group_symbols(
                before,
                files@,
                section_positions::views(positions@),
                definitions@,
                i as int,
            ) == Some(addresses@),
        decreases files@.len() - i,
    {
        assert(symbols_below(files@[i as int], before.len() as int));
        match &files[i] {
            FileState::Object(object) => {
                if !record_object_symbols(addresses, object, &positions[i], definitions) {
                    proof {
                        lemma_group_symbols_none(
                            before,
                            files@,
                            section_positions::views(positions@),
                            definitions@,
                            i + 1,
                            files@.len() as int,
                        );
                    }
                    return false;
                }
            },
            _ => {},
        }
        i = i + 1;
    }
    true
}

fn unresolved(count: usize) -> (addresses: Vec<u64>)
    ensures
        addresses@ == Seq::new(count as nat, |i: int| SYMBOL_ADDRESS_UNRESOLVED),
{
    let mut addresses: Vec<u64> = Vec::new();
    while addresses.len() < count
        invariant
            addresses@.len() <= count,
            addresses@ == Seq::new(addresses@.len(), |i: int| SYMBOL_ADDRESS_UNRESOLVED),
        decreases count - addresses@.len(),
    {
        addresses.push(SYMBOL_ADDRESS_UNRESOLVED);
    }
    addresses
}

/// Computes the addresses of all symbols from the positions of the sections. Symbols that are not
/// the definition in use, or whose section has no position, stay unresolved. `None` if an address
/// is not a 64-bit number.
pub fn compute_symbol_addresses(
    groups: &Vec<GroupState>,
    positions: &Vec<Vec<Vec<Option<InputSectionPosition>>>>,
    definitions: &Vec<SymbolId>,
) -> (infos: Option<SymbolOutputInfos>)
    requires
        definitions@.len() <= u32::MAX,
        positions@.len() == groups@.len(),
        forall|g: int|
            0 <= g < groups@.len() ==> (#[trigger] positions@[g])@.len() == groups@[g].files@.len(),
        all_symbols_below(groups@, definitions@.len() as int),
    ensures
        match (
            infos,
            all_symbols(
                Seq::new(definitions@.len(), |i: int| SYMBOL_ADDRESS_UNRESOLVED),
                groups@,
                deep_views(positions@),
                definitions@,
                groups@.len() as int,
            ),
        ) {
            (Some(infos), Some(expected)) => infos.addresses@ == expected && infos.addresses@.len()
                == definitions@.len(),
            (None, None) => true,
            _ => false,
        },
{
    let mut addresses: Vec<u64> = unresolved(definitions.len());
    let ghost before = addresses@;
    let mut g: usize = 0;
    while g < groups.len()
        invariant
            g <= groups@.len(),
            before == Seq::new(definitions@.len(), |i: int| SYMBOL_ADDRESS_UNRESOLVED),
            definitions@.len() <= u32::MAX,
            addresses@.len() == definitions@.len(),
            positions@.len() == groups@.len(),
            forall|g: int|
                0 <= g < groups@.len() ==> (#[trigger] positions@[g])@.len()
                    == groups@[g].files@.len(),
            all_symbols_below(groups@, definitions@.len() as int),
            all_symbols(before, groups@, deep_views(positions@), definitions@, g as int) == Some(
                addresses@,
            ),
        decreases groups@.len() - g,
    {
        assert forall|f: int| 0 <= f < groups@[g as int].files@.len() implies symbols_below(
            #[trigger] groups@[g as int].files@[f],
            definitions@.len() as int,
        ) by {}
        assert(positions@[g as int]@.len() == groups@[g as int].files@.len());
        if !record_group_symbols(&mut addresses, &groups[g].files, &positions[g], definitions) {
            proof {
                lemma_all_symbols_none(
                    before,
                    groups@,
                    deep_views(positions@),
                    definitions@,
                    g + 1,
                    groups@.len() as int,
                );
            }
            return None;
        }
        g = g + 1;
    }
    Some(SymbolOutputInfos { addresses })
}

/// Where each part of the output starts.
pub fn starting_memory_offsets(part_layouts: &OutputSectionPartMap<OutputRecordLayout>) -> (offsets:
    OutputSectionPartMap<u64>)
    requires
        part_layouts.wf(),
    ensures
        offsets.wf(),
        offsets.dense() == part_layouts.dense(),
        forall|id: u32|
            #![trigger offsets.value(id)]
            offsets.value(id) == part_layouts.value(id).mem_offset,
{
    let start = |part_id: PartId, layout: OutputRecordLayout| -> (offset: u64)
        ensures
            offset == layout.mem_offset,
    {
        layout.mem_offset
    };
    part_layouts.map(start)
}

/// Whether all loaded input sections have 64-bit addresses.
pub open spec fn positions_exist<'data>(
    groups: Seq<GroupState>,
    order: Seq<usize>,
    offsets: OutputSectionPartMap<u64>,
    sections: &OutputSections<'data>,
) -> bool {
    &&& groups::ends_fit(groups, order, offsets)
    &&& forall|k: int|
        0 <= k < order.len() ==> #[trigger] section_positions::ordered_group_positions(
            groups,
            order,
            offsets,
            sections,
            k,
        ) is Some
}

/// Whether the positions are those of all loaded input sections.
pub open spec fn has_positions<'data>(
    groups: Seq<GroupState>,
    order: Seq<usize>,
    offsets: OutputSectionPartMap<u64>,
    sections: &OutputSections<'data>,
    positions: Seq<Seq<Seq<Option<InputSectionPosition>>>>,
) -> bool {
    &&& positions.len() == groups.len()
    &&& forall|k: int|
        0 <= k < order.len() ==> {
            &&& section_positions::ordered_group_positions(groups, order, offsets, sections, k)
                matches Some((expected, _))
            &&& positions[#[trigger] order[k] as int] == expected
        }
}

/// Whether the address of a symbol is not a 64-bit number.
pub open spec fn symbols_overflow<'data>(
    groups: Seq<GroupState>,
    order: Seq<usize>,
    offsets: OutputSectionPartMap<u64>,
    sections: &OutputSections<'data>,
    definitions: Seq<SymbolId>,
) -> bool {
    exists|positions: Seq<Seq<Seq<Option<InputSectionPosition>>>>| #[trigger]
        has_positions(groups, order, offsets, sections, positions) && all_symbols(
            Seq::new(definitions.len(), |i: int| SYMBOL_ADDRESS_UNRESOLVED),
            groups,
            positions,
            definitions,
            groups.len() as int,
        ) is None
}

/// Whether `result` holds the positions of all loaded input sections and the addresses of all
/// symbols. It is `None` if and only if one of them is not a 64-bit number.
pub open spec fn addresses_computed<'data>(
    groups: Seq<GroupState>,
    part_layouts: OutputSectionPartMap<OutputRecordLayout>,
    definitions: Seq<SymbolId>,
    sections: &OutputSections<'data>,
    result: Option<(Seq<Seq<Seq<Option<InputSectionPosition>>>>, Seq<u64>)>,
) -> bool {
    &&& result matches Some((positions, addresses)) ==> all_symbols(
        Seq::new(definitions.len(), |i: int| SYMBOL_ADDRESS_UNRESOLVED),
        groups,
        positions,
        definitions,
        groups.len() as int,
    ) == Some(addresses)
    &&& exists|offsets: OutputSectionPartMap<u64>|
        {
            &&& #[trigger] starts_of_parts(offsets, part_layouts)
            &&& forall|order: Seq<usize>| #[trigger]
                stable_order::is_stable_order(order, groups::group_keys(groups)) ==> match result {
                    Some((positions, _)) => groups::ends_fit(groups, order, offsets)
                        && has_positions(groups, order, offsets, sections, positions),
                    None => !positions_exist(groups, order, offsets, sections)
                        || symbols_overflow(groups, order, offsets, sections, definitions),
                }
        }
}

/// The positions and addresses in the result of a computation.
pub open spec fn computed_view(
    result: Option<(Vec<Vec<Vec<Option<InputSectionPosition>>>>, SymbolOutputInfos)>,
) -> Option<(Seq<Seq<Seq<Option<InputSectionPosition>>>>, Seq<u64>)> {
    match result {
        Some((positions, infos)) => Some((deep_views(positions@), infos.addresses@)),
        None => None,
    }
}

/// Computes the position of every loaded input section and the address of every symbol. `None` if
/// an address is not a 64-bit number.
pub fn compute_section_and_symbol_addresses<'data>(
    groups: &Vec<GroupState>,
    part_layouts: &OutputSectionPartMap<OutputRecordLayout>,
    definitions: &Vec<SymbolId>,
    sections: &OutputSections<'data>,
) -> (result: Option<(Vec<Vec<Vec<Option<InputSectionPosition>>>>, SymbolOutputInfos)>)
    requires
        sections.wf(),
        part_layouts.wf(),
        groups::sizes_wf(groups@, part_layouts.dense()),
        section_positions::files_wf(groups@, sections),
        definitions@.len() <= u32::MAX,
        all_symbols_below(groups@, definitions@.len() as int),
    ensures
        addresses_computed(
            groups@,
            *part_layouts,
            definitions@,
            sections,
            computed_view(result),
        ),
        result matches Some((positions, infos)) ==> {
            &&& positions@.len() == groups@.len()
            &&& forall|g: int|
                0 <= g < groups@.len() ==> (#[trigger] positions@[g])@.len()
                    == groups@[g].files@.len()
            &&& infos.addresses@.len() == definitions@.len()
        },
{
    let offsets: OutputSectionPartMap<u64> = starting_memory_offsets(part_layouts);
    let ghost starts = offsets;
    assert(starts_of_parts(starts, *part_layouts));
    match compute_input_section_positions(groups, offsets, sections) {
        Some(positions) => {
            proof {
                assert forall|order: Seq<usize>| #[trigger]
                    stable_order::is_stable_order(
                        order,
                        groups::group_keys(groups@),
                    ) implies has_positions(
                    groups@,
                    order,
                    starts,
                    sections,
                    deep_views(positions@),
                ) by {}
            }
            match compute_symbol_addresses(groups, &positions, definitions) {
                Some(infos) => Some((positions, infos)),
                None => None,
            }
        },
        None => None,
    }
}

/// Whether a map holds where each part of the output starts.
pub open spec fn starts_of_parts(
    offsets: OutputSectionPartMap<u64>,
    part_layouts: OutputSectionPartMap<OutputRecordLayout>,
) -> bool {
    &&& offsets.wf()
    &&& offsets.dense() == part_layouts.dense()
    &&& forall|id: u32|
        #![trigger offsets.value(id)]
        offsets.value(id) == part_layouts.value(id).mem_offset
}

/// The value of a symbol of an object relative to the part that its section is in.
pub open spec fn early_value(
    object: ObjectState,
    positions: Seq<Option<InputSectionPosition>>,
    index: int,
) -> Result<SymbolValue, EarlySymbolError> {
    if index >= object.symbols@.len() {
        Err(EarlySymbolError::Unreadable)
    } else {
        let symbol = object.symbols@[index];
        match symbol.section {
            SymbolSection::Unreadable => Err(EarlySymbolError::Unreadable),
            SymbolSection::NoSection => if symbol.absolute {
                Ok(SymbolValue::Absolute(symbol.value))
            } else {
                Err(EarlySymbolError::NoAddress)
            },
            SymbolSection::InSection(section) => match position_of(positions, section as int) {
                None => if section < object.inputs@.len() && object.inputs@[section as int].slot is Sorted {
                    Err(EarlySymbolError::SortedSection(section))
                } else {
                    Err(EarlySymbolError::NoEarlyLayout)
                },
                Some(position) => match symbol.offset_in_section {
                    None => Err(EarlySymbolError::Unreadable),
                    Some(input_offset) => match address_in_section(
                        object,
                        section as int,
                        position.address,
                        input_offset,
                    ) {
                        None => Err(EarlySymbolError::Overflow),
                        Some(offset) => Ok(
                            SymbolValue::PartRelative { part_id: position.part_id, offset },
                        ),
                    },
                },
            },
        }
    }
}

/// The value of a symbol before parts have addresses: absolute, or relative to the part that its
/// section is in.
pub fn resolve_early_object_symbol(
    canonical_id: SymbolId,
    object: &ObjectState,
    positions: &Vec<Option<InputSectionPosition>>,
) -> (value: Result<SymbolValue, EarlySymbolError>)
    requires
        object.symbol_id_range.spec_contains(canonical_id),
    ensures
        value == early_value(
            *object,
            positions@,
            canonical_id.0 - object.symbol_id_range.start_symbol_id.0,
        ),
{
    let index: usize = canonical_id.to_input(object.symbol_id_range);
    if index >= object.symbols.len() {
        return Err(EarlySymbolError::Unreadable);
    }
    let symbol: ObjectSymbol = object.symbols[index];
    match symbol.section {
        SymbolSection::Unreadable => Err(EarlySymbolError::Unreadable),
        SymbolSection::NoSection => if symbol.absolute {
            Ok(SymbolValue::Absolute(symbol.value))
        } else {
            Err(EarlySymbolError::NoAddress)
        },
        SymbolSection::InSection(section) => match find_position(positions, section) {
            None => {
                if section < object.inputs.len() {
                    if let SectionSlot::Sorted(_) = object.inputs[section].slot {
                        return Err(EarlySymbolError::SortedSection(section));
                    }
                }
                Err(EarlySymbolError::NoEarlyLayout)
            },
            Some(position) => match symbol.offset_in_section {
                None => Err(EarlySymbolError::Unreadable),
                Some(input_offset) => match object.address_in_section(
                    section,
                    position.address,
                    input_offset,
                ) {
                    None => Err(EarlySymbolError::Overflow),
                    Some(offset) => Ok(
                        SymbolValue::PartRelative { part_id: position.part_id, offset },
                    ),
                },
            },
        },
    }
}

/// The address of a symbol, given the layouts of the sections so far. A section that has no size,
/// address or file offset has not been laid out.
pub open spec fn address_in_layout(
    symbol: ObjectSymbol,
    section_id: Option<OutputSectionId>,
    layouts: Seq<OutputRecordLayout>,
) -> Result<u64, SymbolLayoutError> {
    if symbol.absolute {
        Ok(symbol.value)
    } else {
        match symbol.section {
            SymbolSection::Unreadable => Err(SymbolLayoutError::Unreadable),
            SymbolSection::NoSection => Ok(symbol.value),
            SymbolSection::InSection(_) => match symbol.offset_in_section {
                None => Err(SymbolLayoutError::Unreadable),
                Some(offset) => match section_id {
                    None => Err(SymbolLayoutError::NotInOutputSection),
                    Some(id) => {
                        let layout = layouts[id.0 as int];
                        if layout.mem_size == 0 && layout.mem_offset == 0 && layout.file_offset == 0 {
                            Err(SymbolLayoutError::UsedTooEarly)
                        } else if layout.mem_offset + offset > u64::MAX {
                            Err(SymbolLayoutError::Overflow)
                        } else {
                            Ok((layout.mem_offset + offset) as u64)
                        }
                    },
                },
            },
        }
    }
}

/// The address of a symbol while sections are laid out. `section_id` is the output section that
/// its part is in; `None` if it is in none.
pub fn object_symbol_address_in_layout(
    symbol: ObjectSymbol,
    section_id: Option<OutputSectionId>,
    section_layouts: &OutputSectionMap<OutputRecordLayout>,
) -> (address: Result<u64, SymbolLayoutError>)
    requires
        section_id matches Some(id) ==> id.0 < section_layouts@.len(),
    ensures
        address == address_in_layout(symbol, section_id, section_layouts@),
{
    if symbol.absolute {
        return Ok(symbol.value);
    }
    match symbol.section {
        SymbolSection::Unreadable => {
            return Err(SymbolLayoutError::Unreadable);
        },
        SymbolSection::NoSection => {
            return Ok(symbol.value);
        },
        SymbolSection::InSection(_) => {},
    }
    let offset: u64 = match symbol.offset_in_section {
        Some(offset) => offset,
        None => {
            return Err(SymbolLayoutError::Unreadable);
        },
    };
    let id: OutputSectionId = match section_id {
        Some(id) => id,
        None => {
            return Err(SymbolLayoutError::NotInOutputSection);
        },
    };
    let layout: OutputRecordLayout = *section_layouts.get(id);
    if layout.mem_size == 0 && layout.mem_offset == 0 && layout.file_offset == 0 {
        return Err(SymbolLayoutError::UsedTooEarly);
    }
    match layout.mem_offset.checked_add(offset) {
        Some(address) => Ok(address),
        None => Err(SymbolLayoutError::Overflow),
    }
}

} // verus!
