//! Which symbols are exported, copied or reported as undefined.
use crate::bytes::bytes_start_with;
use crate::groups::{ObjectState, ObjectSymbol, SymbolSection};
use crate::input_sections::{InputSection, SectionSlot};
use crate::output_kind::OutputKind;
use crate::section_loading::CommonGroupState;
use crate::output_section_id::PartId;
use crate::symbol_id::SymbolId;
use crate::value_flags::ValueFlags;
use vstd::prelude::*;

verus! {

/// Which symbols of an object are exported.
#[derive(Clone, Copy, Debug, PartialEq, Eq, Structural)]
pub enum ExportSymbolsMode {
    /// Those of the export list.
    Selected,
    All,
}

/// What the arguments say about exporting symbols.
#[derive(Clone, Copy, Debug, PartialEq, Eq, Structural)]
pub struct ExportArgs {
    /// The symbols of archive members like the one in question are exported too.
    pub export_from_archive: bool,
    pub export_all_dynamic_symbols: bool,
    pub has_export_list: bool,
}

/// Which symbols of an object are exported, if any: a shared object exports those of the objects
/// that are not from archives, other outputs with dynamic symbols those that the arguments name.
pub open spec fn export_mode(
    output_kind: OutputKind,
    archive_semantics: bool,
    args: ExportArgs,
) -> Option<ExportSymbolsMode> {
    let needs_dynsym = output_kind is SharedObject || output_kind is DynamicExecutable;
    if output_kind is SharedObject && (!archive_semantics || args.export_from_archive) {
        Some(ExportSymbolsMode::All)
    } else if needs_dynsym && args.export_all_dynamic_symbols {
        Some(ExportSymbolsMode::All)
    } else if needs_dynsym && args.has_export_list {
        Some(ExportSymbolsMode::Selected)
    } else {
        None
    }
}

/// Which symbols of an object are exported, if any.
pub fn export_symbols_mode(
    output_kind: OutputKind,
    archive_semantics: bool,
    args: ExportArgs,
) -> (mode: Option<ExportSymbolsMode>)
    ensures
        mode == export_mode(output_kind, archive_semantics, args),
{
    if matches!(output_kind, OutputKind::SharedObject) && (!archive_semantics
        || args.export_from_archive) {
        return Some(ExportSymbolsMode::All);
    }
    if output_kind.needs_dynsym() && args.export_all_dynamic_symbols {
        return Some(ExportSymbolsMode::All);
    }
    if output_kind.needs_dynsym() && args.has_export_list {
        return Some(ExportSymbolsMode::Selected);
    }
    None
}

/// Whether a definition can be exported: it must be visible, in use, not made local, and on the
/// export list if only those symbols are exported. `listed` is `None` if there is no list, or if
/// the name of the symbol cannot be read.
pub open spec fn global_def_exportable(
    hidden: bool,
    canonical: bool,
    flags: ValueFlags,
    mode: ExportSymbolsMode,
    listed: Option<bool>,
) -> bool {
    &&& !hidden
    &&& canonical
    &&& !flags.downgrade_to_local
    &&& mode is Selected ==> listed != Some(false)
}

pub fn can_export_global_def(
    hidden: bool,
    canonical: bool,
    flags: ValueFlags,
    mode: ExportSymbolsMode,
    listed: Option<bool>,
) -> (exportable: bool)
    ensures
        exportable == global_def_exportable(hidden, canonical, flags, mode, listed),
{
    if hidden || !canonical || flags.downgrade_to_local {
        return false;
    }
    match (mode, listed) {
        (ExportSymbolsMode::Selected, Some(listed)) => listed,
        _ => true,
    }
}

/// Whether a symbol of an object can be exported.
pub open spec fn symbol_exportable(
    symbol: ObjectSymbol,
    canonical: bool,
    flags: ValueFlags,
    mode: ExportSymbolsMode,
    listed: Option<bool>,
) -> bool {
    &&& !symbol.undefined
    &&& !symbol.local
    &&& global_def_exportable(symbol.hidden, canonical, flags, mode, listed)
}

/// Whether a symbol of an object can be exported.
pub fn can_export_symbol(
    symbol: ObjectSymbol,
    canonical: bool,
    flags: ValueFlags,
    mode: ExportSymbolsMode,
    listed: Option<bool>,
) -> (exportable: bool)
    ensures
        exportable == symbol_exportable(symbol, canonical, flags, mode, listed),
{
    if symbol.undefined || symbol.local {
        return false;
    }
    can_export_global_def(symbol.hidden, canonical, flags, mode, listed)
}

/// Whether a symbol is in a section that is left out.
pub open spec fn in_discarded_section(inputs: Seq<InputSection>, symbol: ObjectSymbol) -> bool {
    symbol.section matches SymbolSection::InSection(section) && section < inputs.len()
        && inputs[section as int].slot is Discard
}

/// What exporting a symbol asks for.
#[derive(Clone, Copy, Debug, PartialEq, Eq, Structural)]
pub struct ExportActions {
    pub symbol_id: SymbolId,
    /// Nothing has needed the symbol before, so what it stands for has to be loaded.
    pub load: bool,
    /// The symbol has not been exported before.
    pub define: bool,
}

/// The export of a symbol: what it asks for and the flags of the symbol afterwards. `None` if the
/// symbol cannot be exported.
pub open spec fn export_of(
    inputs: Seq<InputSection>,
    symbol: ObjectSymbol,
    symbol_id: SymbolId,
    canonical: bool,
    flags: ValueFlags,
    mode: ExportSymbolsMode,
    listed: Option<bool>,
) -> Option<(ExportActions, ValueFlags)> {
    if in_discarded_section(inputs, symbol) || !symbol_exportable(
        symbol,
        canonical,
        flags,
        mode,
        listed,
    ) {
        None
    } else {
        Some(
            (
                ExportActions {
                    symbol_id,
                    load: !flags.spec_has_resolution(),
                    define: !flags.export_dynamic,
                },
                ValueFlags { export_dynamic: true, ..flags },
            ),
        )
    }
}

/// Exports a symbol of an object, if that is possible.
pub fn export_dynamic(
    object: &ObjectState,
    symbol: ObjectSymbol,
    symbol_id: SymbolId,
    canonical: bool,
    flags: &mut ValueFlags,
    mode: ExportSymbolsMode,
    listed: Option<bool>,
) -> (actions: Option<ExportActions>)
    ensures
        match export_of(
            object.inputs@,
            symbol,
            symbol_id,
            canonical,
            *old(flags),
            mode,
            listed,
        ) {
            Some((expected, after)) => actions == Some(expected) && *final(flags) == after,
            None => actions is None && *final(flags) == *old(flags),
        },
{
    if let SymbolSection::InSection(section) = symbol.section {
        if section < object.inputs.len() {
            if let SectionSlot::Discard = object.inputs[section].slot {
                return None;
            }
        }
    }
    if !can_export_symbol(symbol, canonical, *flags, mode, listed) {
        return None;
    }
    let mut export: ValueFlags = ValueFlags::empty();
    export.export_dynamic = true;
    let before: ValueFlags = flags.fetch_or(export);
    Some(
        ExportActions {
            symbol_id,
            load: !before.has_resolution(),
            define: !before.export_dynamic,
        },
    )
}

/// What exporting the first `count` symbols of an object asks for, and the flags of all symbols
/// afterwards.
pub open spec fn exports_after(
    object: ObjectState,
    definitions: Seq<SymbolId>,
    flags: Seq<ValueFlags>,
    mode: ExportSymbolsMode,
    listed: Seq<Option<bool>>,
    count: int,
) -> (Seq<ExportActions>, Seq<ValueFlags>)
    decreases count,
{
    if count <= 0 {
        (Seq::empty(), flags)
    } else {
        let (actions, before) = exports_after(
            object,
            definitions,
            flags,
            mode,
            listed,
            count - 1,
        );
        let id = object.symbol_id_range.id_at(count - 1);
        match export_of(
            object.inputs@,
            object.symbols@[count - 1],
            id,
            definitions[id.0 as int] == id,
            before[id.0 as int],
            mode,
            listed[count - 1],
        ) {
            Some((action, after)) => (actions.push(action), before.update(id.0 as int, after)),
            None => (actions, before),
        }
    }
}

/// Exports all symbols of an object that can be exported. `listed` says for each symbol whether it
/// is on the export list.
pub fn load_non_hidden_symbols(
    object: &ObjectState,
    definitions: &Vec<SymbolId>,
    flags: &mut Vec<ValueFlags>,
    mode: ExportSymbolsMode,
    listed: &Vec<Option<bool>>,
) -> (actions: Vec<ExportActions>)
    requires
        object.symbols@.len() <= object.symbol_id_range.num_symbols,
        object.symbol_id_range.wf(),
        object.symbol_id_range.start_symbol_id.0 + object.symbol_id_range.num_symbols <= old(
            flags,
        )@.len(),
        old(flags)@.len() == definitions@.len(),
        listed@.len() == object.symbols@.len(),
    ensures
        (actions@, final(flags)@) == exports_after(
            *object,
            definitions@,
            old(flags)@,
            mode,
            listed@,
            object.symbols@.len() as int,
        ),
{
    let ghost before = flags@;
    let mut actions: Vec<ExportActions> = Vec::new();
    let mut i: usize = 0;
    while i < object.symbols.len()
        invariant
            i <= object.symbols@.len(),
            object.symbols@.len() <= object.symbol_id_range.num_symbols,
            object.symbol_id_range.wf(),
            object.symbol_id_range.start_symbol_id.0 + object.symbol_id_range.num_symbols
                <= flags@.len(),
            flags@.len() == definitions@.len(),
            listed@.len() == object.symbols@.len(),
            before == old(flags)@,
            (actions@, flags@) == exports_after(
                *object,
                definitions@,
                before,
                mode,
                listed@,
                i as int,
            ),
        decreases object.symbols@.len() - i,
    {
        let id: SymbolId = object.symbol_id_range.input_to_id(i);
        let index: usize = id.as_usize();
        let canonical: bool = definitions[index].0 == id.0;
        let mut symbol_flags: ValueFlags = flags[index];
        if let Some(action) = export_dynamic(
            object,
            object.symbols[i],
            id,
            canonical,
            &mut symbol_flags,
            mode,
            listed[i],
        ) {
            flags.set(index, symbol_flags);
            actions.push(action);
        }
        i = i + 1;
    }
    actions
}

/// What the arguments say about unresolved symbols.
#[derive(Clone, Copy, Debug, PartialEq, Eq, Structural)]
pub enum UnresolvedSymbols {
    ReportAll,
    IgnoreAll,
    IgnoreInObjectFiles,
    IgnoreInSharedLibs,
}

/// What the arguments say about undefined symbols.
#[derive(Clone, Copy, Debug, PartialEq, Eq, Structural)]
pub struct UndefinedArgs {
    pub allow_object_undefined: bool,
    pub unresolved_symbols: UnresolvedSymbols,
    pub error_on_unresolved_symbols: bool,
}

/// Whether a reference to a symbol is reported because the symbol is undefined. Undefined symbols
/// are absolute ones, so others need no further checks. `symbol` is `None` if it cannot be read,
/// which is reported elsewhere.
pub open spec fn reports_undefined(
    flags: ValueFlags,
    symbol: Option<ObjectSymbol>,
    args: UndefinedArgs,
    is_undefined: bool,
) -> bool {
    &&& flags.absolute
    &&& symbol matches Some(symbol)
    &&& !args.allow_object_undefined
    &&& !symbol.weak
    &&& !(args.unresolved_symbols is IgnoreAll)
    &&& !(args.unresolved_symbols is IgnoreInObjectFiles)
    &&& is_undefined
}

/// Whether a reference to a symbol is reported because the symbol is undefined.
pub fn should_emit_undefined_error(
    flags: ValueFlags,
    symbol: Option<ObjectSymbol>,
    args: UndefinedArgs,
    is_undefined: bool,
) -> (emit: bool)
    ensures
        emit == reports_undefined(flags, symbol, args, is_undefined),
{
    if !flags.absolute {
        return false;
    }
    match symbol {
        None => {
            return false;
        },
        Some(symbol) => {
            if args.allow_object_undefined || symbol.weak {
                return false;
            }
        },
    }
    match args.unresolved_symbols {
        UnresolvedSymbols::IgnoreAll | UnresolvedSymbols::IgnoreInObjectFiles => false,
        _ => is_undefined,
    }
}

/// What is done about a reference to a symbol.
#[derive(Clone, Copy, Debug, PartialEq, Eq, Structural)]
pub enum UndefinedReport {
    Nothing,
    Error,
    Warning,
}

/// Decides whether a reference to a symbol is an error, a warning or nothing.
pub fn check_for_undefined(
    flags: ValueFlags,
    symbol: Option<ObjectSymbol>,
    args: UndefinedArgs,
    is_undefined: bool,
) -> (report: UndefinedReport)
    ensures
        report == (if !reports_undefined(flags, symbol, args, is_undefined) {
            UndefinedReport::Nothing
        } else if args.error_on_unresolved_symbols {
            UndefinedReport::Error
        } else {
            UndefinedReport::Warning
        }),
{
    if !should_emit_undefined_error(flags, symbol, args, is_undefined) {
        UndefinedReport::Nothing
    } else if args.error_on_unresolved_symbols {
        UndefinedReport::Error
    } else {
        UndefinedReport::Warning
    }
}

/// A symbol that is copied to the symbol table of the output.
#[derive(Clone, Copy, Debug)]
pub struct SymbolCopyInfo<'data> {
    pub name: &'data [u8],
}

/// What the arguments say about the symbol table.
#[derive(Clone, Copy, Debug, PartialEq, Eq, Structural)]
pub struct SymtabArgs {
    pub should_output_partial_object: bool,
    pub discard_none: bool,
}

/// The start of the names of temporary symbols.
pub open spec fn temporary_prefix() -> Seq<u8> {
    // ltmp
    seq![0x6cu8, 0x74, 0x6d, 0x70]
}

/// Whether a symbol is left out unless all symbols are kept: a local one with the name of a
/// temporary.
pub open spec fn default_strippable(symbol: ObjectSymbol, name: Seq<u8>) -> bool {
    symbol.local && name.len() >= 4 && name.take(4) == temporary_prefix()
}

pub fn is_default_strippable(symbol: ObjectSymbol, name: &[u8]) -> (strippable: bool)
    ensures
        strippable == default_strippable(symbol, name@),
{
    let prefix: [u8; 4] = [0x6c, 0x74, 0x6d, 0x70];
    assert(prefix@ =~= temporary_prefix());
    symbol.local && bytes_start_with(name, prefix.as_slice())
}

/// Whether a symbol is copied to the symbol table of the output. `name` is `None` if it cannot be
/// read.
pub open spec fn is_copied(
    inputs: Seq<InputSection>,
    symbol: ObjectSymbol,
    canonical: bool,
    flags: ValueFlags,
    name: Option<&[u8]>,
    strip_by_name: bool,
    args: SymtabArgs,
) -> bool {
    &&& canonical
    &&& !symbol.undefined
    &&& symbol.section matches SymbolSection::InSection(section)
        ==> inputs[section as int].slot.spec_is_loaded()
    &&& symbol.common is Some ==> flags.spec_has_resolution()
    &&& name matches Some(name)
    &&& name@.len() > 0
    &&& args.should_output_partial_object || args.discard_none || !default_strippable(symbol, name@)
    &&& !strip_by_name
}

impl<'data> SymbolCopyInfo<'data> {
    /// Decides whether a symbol is copied to the symbol table of the output. `strip_by_name` says
    /// whether the arguments ask for symbols of this name to be left out.
    pub fn new(
        object: &ObjectState,
        symbol: ObjectSymbol,
        canonical: bool,
        flags: ValueFlags,
        name: Option<&'data [u8]>,
        strip_by_name: bool,
        args: SymtabArgs,
    ) -> (info: Option<SymbolCopyInfo<'data>>)
        requires
            symbol.section matches SymbolSection::InSection(section) ==> section
                < object.inputs@.len(),
        ensures
            match info {
                Some(info) => is_copied(
                    object.inputs@,
                    symbol,
                    canonical,
                    flags,
                    name,
                    strip_by_name,
                    args,
                ) && name == Some(info.name),
                None => !is_copied(
                    object.inputs@,
                    symbol,
                    canonical,
                    flags,
                    name,
                    strip_by_name,
                    args,
                ),
            },
    {
        if !canonical || symbol.undefined {
            return None;
        }
        if let SymbolSection::InSection(section) = symbol.section {
            if !object.inputs[section].slot.is_loaded() {
                return None;
            }
        }
        if symbol.common.is_some() && !flags.has_resolution() {
            return None;
        }
        let name: &'data [u8] = match name {
            Some(name) => name,
            None => {
                return None;
            },
        };
        if name.len() == 0 || (!args.should_output_partial_object && !args.discard_none
            && is_default_strippable(symbol, name)) {
            return None;
        }
        if strip_by_name {
            return None;
        }
        Some(SymbolCopyInfo { name })
    }
}

/// The size of an entry of the symbol table.
pub const SYMTAB_ENTRY_SIZE: u64 = 16;

/// What is known of the names of the symbols of an object.
pub struct SymbolNames<'a, 'data> {
    /// For each symbol, its name. `None` if it cannot be read.
    pub names: &'a Vec<Option<&'data [u8]>>,
    /// For each symbol, whether the arguments ask for symbols of its name to be left out.
    pub strip_by_name: &'a Vec<bool>,
}

/// How many of the first `count` symbols of an object are copied, and the size of their names,
/// each with a zero after it.
pub open spec fn symtab_space<'a, 'data>(
    object: ObjectState,
    names: &SymbolNames<'a, 'data>,
    definitions: Seq<SymbolId>,
    flags: Seq<ValueFlags>,
    args: SymtabArgs,
    count: int,
) -> (int, int)
    decreases count,
{
    if count <= 0 {
        (0, 0)
    } else {
        let (entries, bytes) = symtab_space(object, names, definitions, flags, args, count - 1);
        let id = object.symbol_id_range.id_at(count - 1);
        if is_copied(
            object.inputs@,
            object.symbols@[count - 1],
            definitions[id.0 as int] == id,
            flags[id.0 as int],
            names.names@[count - 1],
            names.strip_by_name@[count - 1],
            args,
        ) {
            (entries + 1, bytes + names.names@[count - 1]->0@.len() + 1)
        } else {
            (entries, bytes)
        }
    }
}

proof fn lemma_symtab_space_grows<'a, 'data>(
    object: ObjectState,
    names: &SymbolNames<'a, 'data>,
    definitions: Seq<SymbolId>,
    flags: Seq<ValueFlags>,
    args: SymtabArgs,
    count: int,
    total: int,
)
    requires
        0 <= count <= total,
    ensures
        0 <= symtab_space(object, names, definitions, flags, args, count).0 <= symtab_space(
            object,
            names,
            definitions,
            flags,
            args,
            total,
        ).0,
        0 <= symtab_space(object, names, definitions, flags, args, count).1 <= symtab_space(
            object,
            names,
            definitions,
            flags,
            args,
            total,
        ).1,
        symtab_space(object, names, definitions, flags, args, count).0 <= count,
    decreases total,
{
    if count < total {
        lemma_symtab_space_grows(object, names, definitions, flags, args, count, total - 1);
    } else if total > 0 {
        lemma_symtab_space_grows(object, names, definitions, flags, args, total - 1, total - 1);
    }
}

/// Whether space for some entries of the symbol table, and for some bytes of names, has been
/// reserved. If their sizes are not 64-bit numbers, nothing has changed.
pub open spec fn symtab_allocated(
    before: CommonGroupState,
    after: CommonGroupState,
    space: (int, int),
    symtab_part: PartId,
    strtab_part: PartId,
    done: bool,
) -> bool {
    let symtab = before.mem_sizes.value(symtab_part.0) + space.0 * SYMTAB_ENTRY_SIZE;
    let strtab = before.mem_sizes.value(strtab_part.0) + space.1;
    &&& done == (symtab <= u64::MAX && strtab <= u64::MAX)
    &&& done ==> after.wf() && after.mem_sizes.dense() == before.mem_sizes.dense()
        && after.mem_sizes@ == before.mem_sizes@.insert(symtab_part.0, symtab as u64).insert(
        strtab_part.0,
        strtab as u64,
    ) && after.section_attributes == before.section_attributes
    &&& !done ==> after == before
}

/// Reserves the space that the symbols of an object take up in the symbol table and in the string
/// table.
pub fn allocate_object_symtab_space<'a, 'data>(
    object: &ObjectState,
    common: &mut CommonGroupState,
    names: &SymbolNames<'a, 'data>,
    definitions: &Vec<SymbolId>,
    flags: &Vec<ValueFlags>,
    args: SymtabArgs,
    symtab_part: PartId,
    strtab_part: PartId,
) -> (done: bool)
    requires
        old(common).wf(),
        symtab_part != strtab_part,
        object.symbols@.len() <= object.symbol_id_range.num_symbols,
        object.symbol_id_range.wf(),
        object.symbol_id_range.start_symbol_id.0 + object.symbol_id_range.num_symbols
            <= flags@.len(),
        flags@.len() == definitions@.len(),
        names.names@.len() == object.symbols@.len(),
        names.strip_by_name@.len() == object.symbols@.len(),
        forall|i: int|
            0 <= i < object.symbols@.len() ==> ((#[trigger] object.symbols@[i]).section matches
                SymbolSection::InSection(section) ==> section < object.inputs@.len()),
    ensures
        symtab_allocated(
            *old(common),
            *final(common),
            symtab_space(
                *object,
                names,
                definitions@,
                flags@,
                args,
                object.symbols@.len() as int,
            ),
            symtab_part,
            strtab_part,
            done,
        ),
{
    let mut entries: u64 = 0;
    let mut bytes: u64 = 0;
    let mut i: usize = 0;
    let ghost total = object.symbols@.len() as int;
    while i < object.symbols.len()
        invariant
            i <= object.symbols@.len(),
            total == object.symbols@.len(),
            total <= u32::MAX,
            *common == *old(common),
            object.symbols@.len() <= object.symbol_id_range.num_symbols,
            object.symbol_id_range.wf(),
            object.symbol_id_range.start_symbol_id.0 + object.symbol_id_range.num_symbols
                <= flags@.len(),
            flags@.len() == definitions@.len(),
            names.names@.len() == object.symbols@.len(),
            names.strip_by_name@.len() == object.symbols@.len(),
            forall|i: int|
                0 <= i < object.symbols@.len() ==> ((#[trigger] object.symbols@[i]).section
                    matches SymbolSection::InSection(section) ==> section < object.inputs@.len()),
            entries <= i,
            (entries as int, bytes as int) == symtab_space(
                *object,
                names,
                definitions@,
                flags@,
                args,
                i as int,
            ),
        decreases object.symbols@.len() - i,
    {
        let id: SymbolId = object.symbol_id_range.input_to_id(i);
        let index: usize = id.as_usize();
        assert(object.symbols@[i as int].section matches SymbolSection::InSection(section)
            ==> section < object.inputs@.len());
        if let Some(info) = SymbolCopyInfo::new(
            object,
            object.symbols[i],
            definitions[index].0 == id.0,
            flags[index],
            names.names[i],
            names.strip_by_name[i],
            args,
        ) {
            proof {
                lemma_symtab_space_grows(
                    *object,
                    names,
                    definitions@,
                    flags@,
                    args,
                    i + 1,
                    total,
                );
            }
            entries = entries + 1;
            let length: u64 = info.name.len() as u64;
            let with_name: Option<u64> = match bytes.checked_add(length) {
                Some(sum) => sum.checked_add(1),
                None => None,
            };
            match with_name {
                Some(sum) => {
                    bytes = sum;
                },
                None => {
                    return false;
                },
            }
        }
        i = i + 1;
    }
    let symtab: u64 = common.mem_sizes.get(symtab_part);
    let strtab: u64 = common.mem_sizes.get(strtab_part);
    let entries_size: u64 = entries * SYMTAB_ENTRY_SIZE;
    if symtab.checked_add(entries_size).is_none() || strtab.checked_add(bytes).is_none() {
        return false;
    }
    common.allocate(symtab_part, entries_size);
    common.allocate(strtab_part, bytes);
    true
}

/// Reserves the space that an object takes up besides its sections and what its symbols need: that
/// of its symbols in the symbol table and in the string table, unless all symbols are left out.
pub fn finalise_object_sizes<'a, 'data>(
    object: &ObjectState,
    common: &mut CommonGroupState,
    names: &SymbolNames<'a, 'data>,
    definitions: &Vec<SymbolId>,
    flags: &Vec<ValueFlags>,
    args: SymtabArgs,
    symtab_part: PartId,
    strtab_part: PartId,
    should_strip_all: bool,
) -> (done: bool)
    requires
        old(common).wf(),
        symtab_part != strtab_part,
        object.symbols@.len() <= object.symbol_id_range.num_symbols,
        object.symbol_id_range.wf(),
        object.symbol_id_range.start_symbol_id.0 + object.symbol_id_range.num_symbols
            <= flags@.len(),
        flags@.len() == definitions@.len(),
        names.names@.len() == object.symbols@.len(),
        names.strip_by_name@.len() == object.symbols@.len(),
        forall|i: int|
            0 <= i < object.symbols@.len() ==> ((#[trigger] object.symbols@[i]).section matches
                SymbolSection::InSection(section) ==> section < object.inputs@.len()),
    ensures
        if should_strip_all {
            done && *final(common) == *old(common)
        } else {
            symtab_allocated(
                *old(common),
                *final(common),
                symtab_space(
                    *object,
                    names,
                    definitions@,
                    flags@,
                    args,
                    object.symbols@.len() as int,
                ),
                symtab_part,
                strtab_part,
                done,
            )
        },
{
    if should_strip_all {
        return true;
    }
    allocate_object_symtab_space(
        object,
        common,
        names,
        definitions,
        flags,
        args,
        symtab_part,
        strtab_part,
    )
}

} // verus!
