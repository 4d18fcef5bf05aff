//! Which symbols are exported, reported and copied.
use crate::groups::{ObjectState, ObjectSymbol, SymbolSection};
use crate::input_sections::InputSection;
use crate::output_kind::OutputKind;
use crate::symbol_id::SymbolId;
use crate::symbol_rules;
use crate::symbol_rules::{
    ExportArgs, ExportSymbolsMode, SymbolNames, SymtabArgs, UndefinedArgs,
};
use crate::value_flags::ValueFlags;
use vstd::prelude::*;

verus! {

/// An output without dynamic symbols exports nothing. A shared object exports everything but what
/// comes from archives; archives and executables need an argument for that. An export list selects
/// symbols only where nothing has all of them exported.
pub proof fn lemma_export_modes(output_kind: OutputKind, archive_semantics: bool, args: ExportArgs)
    ensures
        ({
            let mode = symbol_rules::export_mode(output_kind, archive_semantics, args);
            let dynamic = output_kind is SharedObject || output_kind is DynamicExecutable;
            &&& !dynamic ==> mode is None
            &&& output_kind is SharedObject && !archive_semantics ==> mode == Some(
                ExportSymbolsMode::All,
            )
            &&& output_kind is SharedObject && args.export_from_archive ==> mode == Some(
                ExportSymbolsMode::All,
            )
            &&& dynamic && args.export_all_dynamic_symbols ==> mode == Some(ExportSymbolsMode::All)
            &&& mode == Some(ExportSymbolsMode::Selected) ==> dynamic && args.has_export_list
                && !args.export_all_dynamic_symbols
            &&& dynamic && args.has_export_list ==> mode is Some
            &&& output_kind is DynamicExecutable && !args.export_all_dynamic_symbols
                && !args.has_export_list ==> mode is None
            &&& output_kind is SharedObject && archive_semantics && !args.export_from_archive
                && !args.export_all_dynamic_symbols ==> mode != Some(ExportSymbolsMode::All)
        }),
{
}

/// A symbol that is exported is a visible definition that is in use, is in a section that is kept and
/// has not been made local. If only those of the export list are exported, it is not missing from it.
pub proof fn lemma_exported_symbols_are_visible_definitions(
    inputs: Seq<InputSection>,
    symbol: ObjectSymbol,
    symbol_id: SymbolId,
    canonical: bool,
    flags: ValueFlags,
    mode: ExportSymbolsMode,
    listed: Option<bool>,
)
    ensures
        symbol_rules::export_of(inputs, symbol, symbol_id, canonical, flags, mode, listed) is Some
            <==> {
            &&& !symbol.undefined
            &&& !symbol.local
            &&& !symbol.hidden
            &&& canonical
            &&& !flags.downgrade_to_local
            &&& mode is All || listed != Some(false)
            &&& !(symbol.section matches SymbolSection::InSection(section) && section
                < inputs.len() && inputs[section as int].slot is Discard)
        },
{
}

/// Exporting a symbol marks it as exported and changes nothing else that is known of it. It is defined
/// the first time only, and loaded only if nothing has needed it before; exporting it again does
/// neither.
pub proof fn lemma_symbols_are_exported_once(
    inputs: Seq<InputSection>,
    symbol: ObjectSymbol,
    symbol_id: SymbolId,
    canonical: bool,
    flags: ValueFlags,
    mode: ExportSymbolsMode,
    listed: Option<bool>,
)
    ensures
        symbol_rules::export_of(inputs, symbol, symbol_id, canonical, flags, mode, listed)
            matches Some((actions, after)) ==> {
            &&& actions.symbol_id == symbol_id
            &&& after.export_dynamic
            &&& (ValueFlags { export_dynamic: flags.export_dynamic, ..after }) == flags
            &&& actions.define <==> !flags.export_dynamic
            &&& actions.load ==> actions.define && !flags.direct && !flags.got && !flags.plt
            &&& flags == ValueFlags::none() ==> actions.load
            &&& symbol_rules::export_of(inputs, symbol, symbol_id, canonical, after, mode, listed)
                matches Some((again, same)) && !again.define && !again.load && same == after
        },
{
}

/// Every symbol of an object that can be exported is, and no other symbol is changed.
pub proof fn lemma_objects_export_their_symbols(
    object: ObjectState,
    definitions: Seq<SymbolId>,
    flags: Seq<ValueFlags>,
    mode: ExportSymbolsMode,
    listed: Seq<Option<bool>>,
    count: int,
    other: int,
)
    requires
        0 <= count <= object.symbols@.len(),
        object.symbol_id_range.start_symbol_id.0 + object.symbols@.len() <= flags.len(),
        flags.len() <= u32::MAX,
        0 <= other < flags.len(),
    ensures
        ({
            let (actions, after) = symbol_rules::exports_after(
                object,
                definitions,
                flags,
                mode,
                listed,
                count,
            );
            let index = other - object.symbol_id_range.start_symbol_id.0;
            let exported = 0 <= index < count && symbol_rules::export_of(
                object.inputs@,
                object.symbols@[index],
                SymbolId(other as u32),
                definitions[other] == SymbolId(other as u32),
                flags[other],
                mode,
                listed[index],
            ) is Some;
            &&& after.len() == flags.len()
            &&& actions.len() <= count
            &&& exported ==> after[other] == (ValueFlags { export_dynamic: true, ..flags[other] })
            &&& !exported ==> after[other] == flags[other]
        }),
    decreases count,
{
    if count > 0 {
        lemma_objects_export_their_symbols(
            object,
            definitions,
            flags,
            mode,
            listed,
            count - 1,
            other,
        );
        let id = object.symbol_id_range.start_symbol_id.0 + count - 1;
        lemma_objects_export_their_symbols(
            object,
            definitions,
            flags,
            mode,
            listed,
            count - 1,
            id,
        );
    }
}

/// A reference is reported as undefined only if nothing defines the symbol, it is not weak, and no
/// argument has undefined symbols of objects accepted. One that is all of that is reported.
pub proof fn lemma_undefined_symbols_are_reported(
    flags: ValueFlags,
    symbol: ObjectSymbol,
    args: UndefinedArgs,
    is_undefined: bool,
)
    ensures
        symbol_rules::reports_undefined(flags, Some(symbol), args, is_undefined) <==> {
            &&& is_undefined && flags.absolute
            &&& !symbol.weak
            &&& !args.allow_object_undefined
            &&& args.unresolved_symbols is ReportAll || args.unresolved_symbols is IgnoreInSharedLibs
        },
        !symbol_rules::reports_undefined(flags, None, args, is_undefined),
{
}

/// Whether a name starts like that of a temporary: `ltmp`.
pub open spec fn starts_like_temporary(name: Seq<u8>) -> bool {
    name.len() >= 4 && name[0] == 0x6c && name[1] == 0x74 && name[2] == 0x6d && name[3] == 0x70
}

/// Only local symbols with names of temporaries are left out by default.
pub proof fn lemma_temporaries_are_local(symbol: ObjectSymbol, name: Seq<u8>)
    ensures
        symbol_rules::default_strippable(symbol, name) <==> symbol.local && starts_like_temporary(
            name,
        ),
{
    if name.len() >= 4 && starts_like_temporary(name) {
        assert(name.take(4) =~= symbol_rules::temporary_prefix());
    }
    if name.len() >= 4 && name.take(4) == symbol_rules::temporary_prefix() {
        assert(name[0] == name.take(4)[0] && name[1] == name.take(4)[1] && name[2]
            == name.take(4)[2] && name[3] == name.take(4)[3]);
    }
}

/// The symbol table gets the definitions in use that have a name and whose section is part of the
/// output. Common symbols must be needed, and what the arguments strip is left out. Temporaries are
/// kept if an object is written, or if nothing is discarded.
pub proof fn lemma_copied_symbols(
    inputs: Seq<InputSection>,
    symbol: ObjectSymbol,
    canonical: bool,
    flags: ValueFlags,
    name: Option<&[u8]>,
    strip_by_name: bool,
    args: SymtabArgs,
)
    ensures
        symbol_rules::is_copied(inputs, symbol, canonical, flags, name, strip_by_name, args) <==> {
            &&& canonical && !symbol.undefined && !strip_by_name
            &&& name is Some && name->0@.len() > 0
            &&& !(symbol.section matches SymbolSection::InSection(section) && (
            inputs[section as int].slot is Discard || inputs[section as int].slot is Unloaded))
            &&& symbol.common is None || flags.direct || flags.got || flags.plt
                || flags.got_tls_offset || flags.got_tls_module || flags.got_tls_descriptor
                || flags.export_dynamic
            &&& symbol.local && starts_like_temporary(name->0@) ==> args.discard_none
                || args.should_output_partial_object
        },
{
    if let Some(name) = name {
        lemma_temporaries_are_local(symbol, name@);
    }
}

/// The symbol table has room for each symbol that is copied, and the string table for its name and the
/// zero after it.
pub proof fn lemma_copied_symbols_have_room<'a, 'data>(
    object: ObjectState,
    names: &SymbolNames<'a, 'data>,
    definitions: Seq<SymbolId>,
    flags: Seq<ValueFlags>,
    args: SymtabArgs,
    count: int,
)
    requires
        0 < count,
        object.symbol_id_range.start_symbol_id.0 + count <= u32::MAX,
    ensures
        ({
            let id = object.symbol_id_range.start_symbol_id.0 + count - 1;
            let before = symbol_rules::symtab_space(
                object,
                names,
                definitions,
                flags,
                args,
                count - 1,
            );
            let after = symbol_rules::symtab_space(object, names, definitions, flags, args, count);
            let copied = symbol_rules::is_copied(
                object.inputs@,
                object.symbols@[count - 1],
                definitions[id] == SymbolId(id as u32),
                flags[id],
                names.names@[count - 1],
                names.strip_by_name@[count - 1],
                args,
            );
            &&& copied ==> after.0 - before.0 == 1 && after.1 - before.1
                == names.names@[count - 1]->0@.len() + 1
            &&& !copied ==> after == before
            &&& symbol_rules::symtab_space(object, names, definitions, flags, args, 0) == (0int, 0int)
        }),
{
}

} // verus!
