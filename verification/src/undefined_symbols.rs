//! Symbols that no input defines.
use crate::bytes::{bytes_start_with, copy_bytes};
use crate::hash_maps::NameMap;
use crate::internal_symbols::SymbolPlacement;
use crate::output_kind::OutputKind;
use crate::output_section_id::OutputSectionId;
use crate::output_sections;
use crate::output_sections::{OutputSections, SectionIdentity};
use crate::stable_order;
use crate::symbol_id::SymbolId;
use crate::symbol_resolution;
use crate::symbol_resolution::{apply_visibility, SymbolName, UndefinedSymbol, Visibility};
use crate::value_flags::ValueFlags;
use vstd::prelude::*;
use vstd::slice::slice_subrange;

verus! {

/// A symbol that marks the start or the end of a section because something refers to it.
#[derive(Clone, Copy, Debug)]
pub struct SyntheticSymbol<'data> {
    pub name: &'data [u8],
    pub placement: SymbolPlacement<'data>,
    pub symbol_id: SymbolId,
}

/// The symbols of all files.
pub struct SymbolTable<'data> {
    /// The symbols that names without versions stand for.
    pub names: NameMap,
    /// The definition of each symbol.
    pub definitions: Vec<SymbolId>,
    /// What is known of each symbol.
    pub flags: Vec<ValueFlags>,
    pub synthetic: Vec<SyntheticSymbol<'data>>,
}

/// What inputs say about the symbols that they refer to.
pub struct References<'a> {
    /// The visibility of each reference.
    pub visibilities: &'a Vec<Visibility>,
    /// Whether each reference is weak.
    pub weak: &'a Vec<bool>,
    /// For each file of each group, whether it is loaded.
    pub loaded: &'a Vec<Vec<bool>>,
}

/// There are too many symbols to number them.
#[derive(Clone, Copy, Debug, PartialEq, Eq, Structural)]
pub struct OutOfSymbolIds;

/// The symbols of all files, and which of them have been chosen to stand for a name.
pub ghost struct Canonical<'data> {
    pub chosen: Map<Seq<u8>, u64>,
    pub chosen_versioned: Map<Seq<u8>, u64>,
    pub names: Map<Seq<u8>, u64>,
    pub definitions: Seq<SymbolId>,
    pub flags: Seq<ValueFlags>,
    pub synthetic: Seq<SyntheticSymbol<'data>>,
}

/// The prefix of symbols that mark the start of a section: `__start_`.
pub open spec fn start_prefix() -> Seq<u8> {
    seq![0x5fu8, 0x5f, 0x73, 0x74, 0x61, 0x72, 0x74, 0x5f]
}

/// The prefix of symbols that mark the end of a section: `__stop_`.
pub open spec fn stop_prefix() -> Seq<u8> {
    seq![0x5fu8, 0x5f, 0x73, 0x74, 0x6f, 0x70, 0x5f]
}

pub open spec fn has_prefix(name: Seq<u8>, prefix: Seq<u8>) -> bool {
    prefix.len() <= name.len() && name.take(prefix.len() as int) == prefix
}

/// The section that the rest of a symbol's name stands for.
pub open spec fn section_named<'data>(
    sections: &OutputSections<'data>,
    name: Seq<u8>,
) -> Option<OutputSectionId> {
    if sections.platform.identity_from_name {
        sections.recorded(output_sections::name_key(name))
    } else {
        None
    }
}

/// What a name stands for if it marks the start or the end of a section.
pub open spec fn start_stop<'data>(
    sections: &OutputSections<'data>,
    name: Seq<u8>,
) -> Option<SymbolPlacement<'data>> {
    if has_prefix(name, start_prefix()) {
        match section_named(sections, name.skip(8)) {
            Some(id) => Some(SymbolPlacement::SectionStart(id)),
            None => None,
        }
    } else if has_prefix(name, stop_prefix()) {
        match section_named(sections, name.skip(7)) {
            Some(id) => Some(SymbolPlacement::SectionEnd(id)),
            None => None,
        }
    } else {
        None
    }
}

fn find_section<'data>(sections: &OutputSections<'data>, name: &'data [u8]) -> (found: Option<
    OutputSectionId,
>)
    requires
        sections.wf(),
    ensures
        found == section_named(sections, name@),
{
    if !sections.platform.identity_from_name {
        return None;
    }
    let identity: SectionIdentity<'data> = SectionIdentity::from_name(name);
    sections.custom_identity_to_id(&identity)
}

fn find_start_stop<'data>(sections: &OutputSections<'data>, name: &'data [u8]) -> (found: Option<
    SymbolPlacement<'data>,
>)
    requires
        sections.wf(),
    ensures
        found == start_stop(sections, name@),
{
    let start: [u8; 8] = [0x5f, 0x5f, 0x73, 0x74, 0x61, 0x72, 0x74, 0x5f];
    let stop: [u8; 7] = [0x5f, 0x5f, 0x73, 0x74, 0x6f, 0x70, 0x5f];
    assert(start@ =~= start_prefix());
    assert(stop@ =~= stop_prefix());
    if bytes_start_with(name, start.as_slice()) {
        let rest: &'data [u8] = slice_subrange(name, 8, name.len());
        assert(rest@ =~= name@.skip(8));
        match find_section(sections, rest) {
            Some(id) => Some(SymbolPlacement::SectionStart(id)),
            None => None,
        }
    } else if bytes_start_with(name, stop.as_slice()) {
        let rest: &'data [u8] = slice_subrange(name, 7, name.len());
        assert(rest@ =~= name@.skip(7));
        match find_section(sections, rest) {
            Some(id) => Some(SymbolPlacement::SectionEnd(id)),
            None => None,
        }
    } else {
        None
    }
}

impl<'data> Canonical<'data> {
    /// Whether all symbols that anything refers to exist.
    pub open spec fn wf(self) -> bool {
        &&& self.flags.len() == self.definitions.len()
        &&& self.definitions.len() <= u32::MAX
        &&& forall|i: int|
            0 <= i < self.definitions.len() ==> (#[trigger] self.definitions[i]).0
                < self.definitions.len()
        &&& forall|name: Seq<u8>| #[trigger]
            self.names.contains_key(name) ==> self.names[name] < self.definitions.len()
        &&& forall|name: Seq<u8>| #[trigger]
            self.chosen.contains_key(name) ==> self.chosen[name] < self.definitions.len()
        &&& forall|name: Seq<u8>| #[trigger]
            self.chosen_versioned.contains_key(name) ==> self.chosen_versioned[name]
                < self.definitions.len()
    }

    /// Hides the definition that a name stands for as much as a reference asks for.
    pub open spec fn hidden(self, name: Seq<u8>, visibility: Visibility) -> Canonical<'data> {
        if visibility is Default || !self.names.contains_key(name) {
            self
        } else {
            let definition = self.definitions[self.names[name] as int].0 as int;
            Canonical {
                flags: self.flags.update(
                    definition,
                    symbol_resolution::with_visibility(self.flags[definition], visibility),
                ),
                ..self
            }
        }
    }

    /// The given symbol has the given definition.
    pub open spec fn defined(self, symbol: SymbolId, definition: SymbolId) -> Canonical<'data> {
        Canonical { definitions: self.definitions.update(symbol.0 as int, definition), ..self }
    }

    /// The given symbol stands for a name.
    pub open spec fn with_chosen(self, name: Seq<u8>, symbol: SymbolId) -> Canonical<'data> {
        Canonical { chosen: self.chosen.insert(name, symbol.0 as u64), ..self }
    }

    /// A symbol for the start or the end of a section has been added.
    pub open spec fn with_synthetic(
        self,
        name: &'data [u8],
        placement: SymbolPlacement<'data>,
        new_flags: ValueFlags,
    ) -> Canonical<'data> {
        let id = SymbolId(self.definitions.len() as u32);
        Canonical {
            names: self.names.insert(name@, id.0 as u64),
            definitions: self.definitions.push(id),
            flags: self.flags.push(new_flags),
            synthetic: self.synthetic.push(SyntheticSymbol { name, placement, symbol_id: id }),
            ..self
        }
    }
}

/// Whether a reference that nothing defines is left to be resolved at run time.
pub open spec fn stays_dynamic(visibility: Visibility, output_kind: OutputKind, weak: bool) -> bool {
    visibility is Default && (output_kind is SharedObject || (!(output_kind is StaticExecutable)
        && weak))
}

/// What is known after an undefined symbol is the first one with its name. It stands for the name,
/// unless the name marks the start or the end of a section.
pub open spec fn first_of_name<'data>(
    before: Canonical<'data>,
    symbol: SymbolId,
    name: &'data [u8],
    visibility: Visibility,
    weak: bool,
    sections: &OutputSections<'data>,
    output_kind: OutputKind,
    synthetic_flags: ValueFlags,
) -> Option<Canonical<'data>> {
    match start_stop(sections, name@) {
        Some(placement) => if before.definitions.len() >= u32::MAX {
            None
        } else {
            let added = before.with_synthetic(name, placement, synthetic_flags);
            let id = SymbolId(before.definitions.len() as u32);
            Some(added.with_chosen(name@, id).defined(symbol, id))
        },
        None => {
            let index = symbol.0 as int;
            let marked = Canonical {
                flags: before.flags.update(
                    index,
                    if stays_dynamic(visibility, output_kind, weak) {
                        ValueFlags { dynamic: true, ..before.flags[index] }
                    } else {
                        ValueFlags { non_interposable: true, ..before.flags[index] }
                    },
                ),
                ..before
            };
            Some(
                marked.hidden(name@, visibility).with_chosen(name@, symbol).defined(
                    symbol,
                    symbol,
                ),
            )
        },
    }
}

/// What is known after another undefined symbol with a name. It has the definition of the first.
pub open spec fn another_of_name<'data>(
    before: Canonical<'data>,
    symbol: SymbolId,
    name: Seq<u8>,
    visibility: Visibility,
) -> Canonical<'data> {
    let definition = before.definitions[before.chosen[name] as int];
    before.defined(symbol, definition).hidden(name, visibility)
}

/// What is known after an undefined symbol whose name has a version.
pub open spec fn versioned<'data>(
    before: Canonical<'data>,
    symbol: SymbolId,
    name: Seq<u8>,
) -> Canonical<'data> {
    if before.chosen_versioned.contains_key(name) {
        before.defined(symbol, SymbolId(before.chosen_versioned[name] as u32))
    } else {
        Canonical {
            chosen_versioned: before.chosen_versioned.insert(name, symbol.0 as u64),
            ..before
        }
    }
}

/// Whether the file that would define a symbol is loaded after all.
pub open spec fn is_defined<'a, 'data>(
    undefined: UndefinedSymbol<'data>,
    references: References<'a>,
) -> bool {
    match undefined.ignore_if_loaded {
        Some(file) => references.loaded@[file.spec_group()]@[file.spec_file()],
        None => false,
    }
}

/// What is known after one more undefined symbol.
pub open spec fn canonical_step<'a, 'data>(
    before: Canonical<'data>,
    undefined: UndefinedSymbol<'data>,
    references: References<'a>,
    sections: &OutputSections<'data>,
    output_kind: OutputKind,
    synthetic_flags: ValueFlags,
) -> Option<Canonical<'data>> {
    let id = undefined.symbol_id;
    if is_defined(undefined, references) {
        Some(before)
    } else {
        match undefined.name {
            SymbolName::Unversioned(name) => if before.chosen.contains_key(name@) {
                Some(
                    another_of_name(
                        before,
                        id,
                        name@,
                        references.visibilities@[id.0 as int],
                    ),
                )
            } else {
                first_of_name(
                    before,
                    id,
                    name,
                    references.visibilities@[id.0 as int],
                    references.weak@[id.0 as int],
                    sections,
                    output_kind,
                    synthetic_flags,
                )
            },
            SymbolName::Versioned(name) => Some(versioned(before, id, name@)),
        }
    }
}

/// What is known after the first `count` undefined symbols.
pub open spec fn canonical_after<'a, 'data>(
    initial: Canonical<'data>,
    undefined: Seq<UndefinedSymbol<'data>>,
    references: References<'a>,
    sections: &OutputSections<'data>,
    output_kind: OutputKind,
    synthetic_flags: ValueFlags,
    count: int,
) -> Option<Canonical<'data>>
    decreases count,
{
    if count <= 0 {
        Some(initial)
    } else {
        match canonical_after(
            initial,
            undefined,
            references,
            sections,
            output_kind,
            synthetic_flags,
            count - 1,
        ) {
            None => None,
            Some(before) => canonical_step(
                before,
                undefined[count - 1],
                references,
                sections,
                output_kind,
                synthetic_flags,
            ),
        }
    }
}

proof fn lemma_canonical_none<'a, 'data>(
    initial: Canonical<'data>,
    undefined: Seq<UndefinedSymbol<'data>>,
    references: References<'a>,
    sections: &OutputSections<'data>,
    output_kind: OutputKind,
    synthetic_flags: ValueFlags,
    count: int,
    all: int,
)
    requires
        0 <= count <= all,
        canonical_after(
            initial,
            undefined,
            references,
            sections,
            output_kind,
            synthetic_flags,
            count,
        ) is None,
    ensures
        canonical_after(
            initial,
            undefined,
            references,
            sections,
            output_kind,
            synthetic_flags,
            all,
        ) is None,
    decreases all - count,
{
    if count < all {
        lemma_canonical_none(
            initial,
            undefined,
            references,
            sections,
            output_kind,
            synthetic_flags,
            count + 1,
            all,
        );
    }
}

/// Keys that order symbols from the last to the first.
pub open spec fn reverse_keys(undefined: Seq<UndefinedSymbol>) -> Seq<(u64, u64)> {
    Seq::new(undefined.len(), |i: int| ((u64::MAX - undefined[i].symbol_id.0) as u64, 0u64))
}

/// Undefined symbols in the given order.
pub open spec fn in_order<'data>(
    undefined: Seq<UndefinedSymbol<'data>>,
    order: Seq<usize>,
) -> Seq<UndefinedSymbol<'data>> {
    Seq::new(order.len(), |i: int| undefined[order[i] as int])
}

/// Whether everything that an undefined symbol refers to exists.
pub open spec fn undefined_wf<'a, 'data>(
    undefined: UndefinedSymbol<'data>,
    references: References<'a>,
    symbol_count: int,
) -> bool {
    &&& undefined.symbol_id.0 < symbol_count
    &&& undefined.symbol_id.0 < references.visibilities@.len()
    &&& undefined.symbol_id.0 < references.weak@.len()
    &&& undefined.ignore_if_loaded matches Some(file) ==> file.spec_group()
        < references.loaded@.len() && file.spec_file() < references.loaded@[file.spec_group()]@.len()
}

impl<'data> SymbolTable<'data> {
    /// The symbols, and which of them stand for names.
    pub open spec fn canonical(
        &self,
        chosen: Map<Seq<u8>, u64>,
        chosen_versioned: Map<Seq<u8>, u64>,
    ) -> Canonical<'data> {
        Canonical {
            chosen,
            chosen_versioned,
            names: self.names@,
            definitions: self.definitions@,
            flags: self.flags@,
            synthetic: self.synthetic@,
        }
    }

    fn restrict(&mut self, name: &[u8], visibility: Visibility)
        requires
            old(self).canonical(Map::empty(), Map::empty()).wf(),
        ensures
            final(self).canonical(Map::empty(), Map::empty()).wf(),
            forall|a: Map<Seq<u8>, u64>, b: Map<Seq<u8>, u64>| #[trigger]
                final(self).canonical(a, b) == old(self).canonical(a, b).hidden(
                    name@,
                    visibility,
                ),
    {
        let is_default: bool = match visibility {
            Visibility::Default => true,
            _ => false,
        };
        if is_default {
            return ;
        }
        if let Some(raw) = self.names.get(name) {
            assert(self.canonical(Map::empty(), Map::empty()).names.contains_key(name@));
            let count: usize = self.definitions.len();
            assert(raw < count);
            let definition: SymbolId = self.definitions[raw as usize];
            assert(self.canonical(Map::empty(), Map::empty()).definitions[raw as int].0 < count);
            let index: usize = definition.as_usize();
            let updated: ValueFlags = apply_visibility(self.flags[index], visibility);
            self.flags.set(index, updated);
        }
    }

    fn mark_undefined(
        &mut self,
        symbol: SymbolId,
        visibility: Visibility,
        output_kind: OutputKind,
        weak: bool,
    )
        requires
            symbol.0 < old(self).flags@.len(),
        ensures
            final(self).names@ == old(self).names@,
            final(self).definitions@ == old(self).definitions@,
            final(self).synthetic@ == old(self).synthetic@,
            final(self).flags@ == old(self).flags@.update(
                symbol.0 as int,
                if stays_dynamic(visibility, output_kind, weak) {
                    ValueFlags { dynamic: true, ..old(self).flags@[symbol.0 as int] }
                } else {
                    ValueFlags { non_interposable: true, ..old(self).flags@[symbol.0 as int] }
                },
            ),
    {
        let index: usize = symbol.as_usize();
        let mut updated: ValueFlags = self.flags[index];
        let is_default: bool = match visibility {
            Visibility::Default => true,
            _ => false,
        };
        let is_shared: bool = match output_kind {
            OutputKind::SharedObject => true,
            _ => false,
        };
        let is_static: bool = match output_kind {
            OutputKind::StaticExecutable(_) => true,
            _ => false,
        };
        if is_default && (is_shared || (!is_static && weak)) {
            updated.dynamic = true;
        } else {
            updated.non_interposable = true;
        }
        self.flags.set(index, updated);
    }

    /// Adds a symbol for the start or the end of a section if the name stands for one.
    fn allocate_start_stop_symbol_id(
        &mut self,
        name: &'data [u8],
        sections: &OutputSections<'data>,
        synthetic_flags: ValueFlags,
    ) -> (result: Result<Option<SymbolId>, OutOfSymbolIds>)
        requires
            sections.wf(),
            old(self).canonical(Map::empty(), Map::empty()).wf(),
        ensures
            match start_stop(sections, name@) {
                None => result == Ok::<Option<SymbolId>, OutOfSymbolIds>(None) && *final(self)
                    == *old(self),
                Some(placement) => if old(self).definitions@.len() >= u32::MAX {
                    result is Err
                } else {
                    &&& result == Ok::<Option<SymbolId>, OutOfSymbolIds>(
                        Some(SymbolId(old(self).definitions@.len() as u32)),
                    )
                    &&& final(self).canonical(Map::empty(), Map::empty()).wf()
                    &&& forall|a: Map<Seq<u8>, u64>, b: Map<Seq<u8>, u64>| #[trigger]
                        final(self).canonical(a, b) == old(self).canonical(a, b).with_synthetic(
                            name,
                            placement,
                            synthetic_flags,
                        )
                },
            },
    {
        let placement: SymbolPlacement<'data> = match find_start_stop(sections, name) {
            Some(placement) => placement,
            None => {
                return Ok(None);
            },
        };
        let count: usize = self.definitions.len();
        if count >= u32::MAX as usize {
            return Err(OutOfSymbolIds);
        }
        let symbol_id: SymbolId = SymbolId::new(count as u32);
        self.names.insert(copy_bytes(name), symbol_id.0 as u64);
        self.definitions.push(symbol_id);
        self.flags.push(synthetic_flags);
        let synthetic: SyntheticSymbol<'data> = SyntheticSymbol { name, placement, symbol_id };
        self.synthetic.push(synthetic);
        proof {
            let before = old(self).canonical(Map::empty(), Map::empty());
            let after = self.canonical(Map::empty(), Map::empty());
            assert(after.names == before.names.insert(name@, symbol_id.0 as u64));
            assert forall|i: int| 0 <= i < after.definitions.len() implies (
            #[trigger] after.definitions[i]).0 < after.definitions.len() by {
                if i < before.definitions.len() {
                    assert(before.definitions[i].0 < before.definitions.len());
                }
            }
            assert forall|other: Seq<u8>| #[trigger]
                after.names.contains_key(other) implies after.names[other]
                < after.definitions.len() by {
                if other != name@ {
                    assert(before.names.contains_key(other));
                }
            }
            assert(after.wf());
        }
        Ok(Some(symbol_id))
    }
}

fn check_defined<'a, 'data>(undefined: UndefinedSymbol<'data>, references: &References<'a>) -> (
defined: bool)
    requires
        undefined_wf(undefined, *references, u32::MAX as int + 1),
    ensures
        defined == is_defined(undefined, *references),
{
    match undefined.ignore_if_loaded {
        Some(file) => references.loaded[file.group()][file.file()],
        None => false,
    }
}

fn sort_undefined<'data>(undefined: &Vec<UndefinedSymbol<'data>>) -> (sorted: Vec<
    UndefinedSymbol<'data>,
>)
    ensures
        exists|order: Seq<usize>| #[trigger]
            stable_order::is_stable_order(order, reverse_keys(undefined@)) && sorted@ == in_order(
                undefined@,
                order,
            ),
        sorted@.len() == undefined@.len(),
{
    let mut keys: Vec<(u64, u64)> = Vec::new();
    let mut i: usize = 0;
    while i < undefined.len()
        invariant
            i <= undefined@.len(),
            keys@.len() == i,
            forall|k: int| 0 <= k < i ==> keys@[k] == #[trigger] reverse_keys(undefined@)[k],
        decreases undefined@.len() - i,
    {
        let key: u64 = u64::MAX - undefined[i].symbol_id.0 as u64;
        keys.push((key, 0));
        assert(reverse_keys(undefined@)[i as int] == (key, 0u64));
        i = i + 1;
    }
    assert(keys@ =~= reverse_keys(undefined@));
    let order: Vec<usize> = stable_order::stable_order(&keys);
    let mut sorted: Vec<UndefinedSymbol<'data>> = Vec::new();
    let mut k: usize = 0;
    while k < order.len()
        invariant
            k <= order@.len(),
            keys@.len() == undefined@.len(),
            stable_order::is_stable_order(order@, keys@),
            sorted@.len() == k,
            forall|j: int| 0 <= j < k ==> sorted@[j] == undefined@[order@[j] as int],
        decreases order@.len() - k,
    {
        assert(order@[k as int] < keys@.len());
        sorted.push(undefined[order[k]]);
        k = k + 1;
    }
    assert(sorted@ =~= in_order(undefined@, order@));
    assert(stable_order::is_stable_order(order@, reverse_keys(undefined@)));
    sorted
}

/// Whether a table, together with the symbols that were chosen for names, is what resolving the
/// first `count` undefined symbols leads to.
spec fn reached<'a, 'data>(
    table: SymbolTable<'data>,
    chosen: Map<Seq<u8>, u64>,
    chosen_versioned: Map<Seq<u8>, u64>,
    initial: Canonical<'data>,
    undefined: Seq<UndefinedSymbol<'data>>,
    references: References<'a>,
    sections: &OutputSections<'data>,
    output_kind: OutputKind,
    synthetic_flags: ValueFlags,
    count: int,
) -> bool {
    &&& table.canonical(chosen, chosen_versioned).wf()
    &&& canonical_after(
        initial,
        undefined,
        references,
        sections,
        output_kind,
        synthetic_flags,
        count,
    ) == Some(table.canonical(chosen, chosen_versioned))
}

fn choose_first<'a, 'data>(
    table: &mut SymbolTable<'data>,
    chosen: &mut NameMap,
    Ghost(chosen_versioned): Ghost<Map<Seq<u8>, u64>>,
    symbol: SymbolId,
    name: &'data [u8],
    visibility: Visibility,
    weak: bool,
    sections: &OutputSections<'data>,
    output_kind: OutputKind,
    synthetic_flags: ValueFlags,
) -> (result: Result<(), OutOfSymbolIds>)
    requires
        sections.wf(),
        old(table).canonical(old(chosen)@, chosen_versioned).wf(),
        symbol.0 < old(table).definitions@.len(),
    ensures
        match first_of_name(
            old(table).canonical(old(chosen)@, chosen_versioned),
            symbol,
            name,
            visibility,
            weak,
            sections,
            output_kind,
            synthetic_flags,
        ) {
            None => result is Err,
            Some(after) => {
                &&& result is Ok
                &&& final(table).canonical(final(chosen)@, chosen_versioned) == after
                &&& after.wf()
                &&& after.definitions.len() >= old(table).definitions@.len()
            },
        },
{
    let ghost before = table.canonical(chosen@, chosen_versioned);
    let ghost first_chosen = chosen@;
    let allocated: Option<SymbolId> = match table.allocate_start_stop_symbol_id(
        name,
        sections,
        synthetic_flags,
    ) {
        Ok(allocated) => allocated,
        Err(error) => {
            return Err(error);
        },
    };
    if allocated.is_none() {
        table.mark_undefined(symbol, visibility, output_kind, weak);
        table.restrict(name, visibility);
    }
    let ghost middle = table.canonical(first_chosen, chosen_versioned);
    let symbol_id: SymbolId = match allocated {
        Some(id) => id,
        None => symbol,
    };
    chosen.insert(copy_bytes(name), symbol_id.0 as u64);
    table.definitions.set(symbol.as_usize(), symbol_id);
    assert(table.canonical(chosen@, chosen_versioned) == middle.with_chosen(
        name@,
        symbol_id,
    ).defined(symbol, symbol_id));
    Ok(())
}

fn choose_another<'data>(
    table: &mut SymbolTable<'data>,
    chosen: &NameMap,
    Ghost(chosen_versioned): Ghost<Map<Seq<u8>, u64>>,
    existing: u64,
    symbol: SymbolId,
    name: &'data [u8],
    visibility: Visibility,
)
    requires
        old(table).canonical(chosen@, chosen_versioned).wf(),
        symbol.0 < old(table).definitions@.len(),
        chosen@.contains_key(name@),
        existing == chosen@[name@],
    ensures
        final(table).canonical(chosen@, chosen_versioned) == another_of_name(
            old(table).canonical(chosen@, chosen_versioned),
            symbol,
            name@,
            visibility,
        ),
        final(table).canonical(chosen@, chosen_versioned).wf(),
        final(table).definitions@.len() == old(table).definitions@.len(),
{
    let ghost before = table.canonical(chosen@, chosen_versioned);
    assert(before.chosen.contains_key(name@));
    let count: usize = table.definitions.len();
    assert(existing < count);
    let definition: SymbolId = table.definitions[existing as usize];
    assert(before.definitions[existing as int].0 < count);
    table.definitions.set(symbol.as_usize(), definition);
    assert(table.canonical(chosen@, chosen_versioned) == before.defined(symbol, definition));
    table.restrict(name, visibility);
}

/// Chooses one symbol to stand for all undefined symbols with the same name. Later symbols come
/// first. Names that mark the start or the end of a section get a symbol of their own.
#[verifier::rlimit(40)]
pub fn canonicalise_undefined_symbols<'a, 'data>(
    undefined_symbols: &Vec<UndefinedSymbol<'data>>,
    table: &mut SymbolTable<'data>,
    references: &References<'a>,
    sections: &OutputSections<'data>,
    output_kind: OutputKind,
    synthetic_flags: ValueFlags,
) -> (result: Result<(), OutOfSymbolIds>)
    requires
        sections.wf(),
        old(table).canonical(Map::empty(), Map::empty()).wf(),
        forall|i: int|
            0 <= i < undefined_symbols@.len() ==> undefined_wf(
                #[trigger] undefined_symbols@[i],
                *references,
                old(table).definitions@.len() as int,
            ),
    ensures
        exists|order: Seq<usize>| #[trigger]
            stable_order::is_stable_order(order, reverse_keys(undefined_symbols@)) && (
            match canonical_after(
                old(table).canonical(Map::empty(), Map::empty()),
                in_order(undefined_symbols@, order),
                *references,
                sections,
                output_kind,
                synthetic_flags,
                undefined_symbols@.len() as int,
            ) {
                None => result is Err,
                Some(after) => result is Ok && final(table).canonical(
                    after.chosen,
                    after.chosen_versioned,
                ) == after,
            }),
{
    let sorted: Vec<UndefinedSymbol<'data>> = sort_undefined(undefined_symbols);
    let ghost order = choose|order: Seq<usize>| #[trigger]
        stable_order::is_stable_order(order, reverse_keys(undefined_symbols@)) && sorted@
            == in_order(undefined_symbols@, order);
    let ghost initial = table.canonical(Map::empty(), Map::empty());
    let ghost symbol_count = table.definitions@.len();
    assert forall|i: int| 0 <= i < sorted@.len() implies undefined_wf(
        #[trigger] sorted@[i],
        *references,
        symbol_count as int,
    ) by {
        assert(order[i] < reverse_keys(undefined_symbols@).len());
        assert(sorted@[i] == undefined_symbols@[order[i] as int]);
    }
    let mut chosen: NameMap = NameMap::new();
    let mut chosen_versioned: NameMap = NameMap::new();
    assert(chosen@ =~= Map::empty());
    assert(chosen_versioned@ =~= Map::empty());
    let mut i: usize = 0;
    while i < sorted.len()
        invariant
            i <= sorted@.len(),
            sections.wf(),
            table.definitions@.len() >= symbol_count,
            sorted@ == in_order(undefined_symbols@, order),
            sorted@.len() == undefined_symbols@.len(),
            stable_order::is_stable_order(order, reverse_keys(undefined_symbols@)),
            initial == old(table).canonical(Map::empty(), Map::empty()),
            symbol_count <= u32::MAX,
            forall|i: int|
                0 <= i < sorted@.len() ==> undefined_wf(
                    #[trigger] sorted@[i],
                    *references,
                    symbol_count as int,
                ),
            reached(
                *table,
                chosen@,
                chosen_versioned@,
                initial,
                sorted@,
                *references,
                sections,
                output_kind,
                synthetic_flags,
                i as int,
            ),
        decreases sorted@.len() - i,
    {
        let undefined: UndefinedSymbol<'data> = sorted[i];
        assert(undefined_wf(sorted@[i as int], *references, symbol_count as int));
        let ghost before = table.canonical(chosen@, chosen_versioned@);
        if !check_defined(undefined, references) {
            let index: usize = undefined.symbol_id.as_usize();
            match undefined.name {
                SymbolName::Unversioned(name) => {
                    let visibility: Visibility = references.visibilities[index];
                    match chosen.get(name) {
                        None => {
                            match choose_first(
                                table,
                                &mut chosen,
                                Ghost(chosen_versioned@),
                                undefined.symbol_id,
                                name,
                                visibility,
                                references.weak[index],
                                sections,
                                output_kind,
                                synthetic_flags,
                            ) {
                                Ok(_) => {},
                                Err(error) => {
                                    proof {
                                        lemma_canonical_none(
                                            initial,
                                            sorted@,
                                            *references,
                                            sections,
                                            output_kind,
                                            synthetic_flags,
                                            i + 1,
                                            sorted@.len() as int,
                                        );
                                    }
                                    return Err(error);
                                },
                            }
                        },
                        Some(existing) => {
                            choose_another(
                                table,
                                &chosen,
                                Ghost(chosen_versioned@),
                                existing,
                                undefined.symbol_id,
                                name,
                                visibility,
                            );
                        },
                    }
                },
                SymbolName::Versioned(name) => {
                    match chosen_versioned.get(name) {
                        None => {
                            chosen_versioned.insert(
                                copy_bytes(name),
                                undefined.symbol_id.0 as u64,
                            );
                        },
                        Some(existing) => {
                            assert(before.chosen_versioned.contains_key(name@));
                            table.definitions.set(index, SymbolId::new(existing as u32));
                        },
                    }
                    assert(table.canonical(chosen@, chosen_versioned@) == versioned(
                        before,
                        undefined.symbol_id,
                        name@,
                    ));
                },
            }
        }
        i = i + 1;
    }
    Ok(())
}

} // verus!
