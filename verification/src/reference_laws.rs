//! What references to symbols lead to.
use crate::file_id::FileId;
use crate::internal_symbols;
use crate::internal_symbols::SymbolPlacement;
use crate::symbol_id::SymbolId;
use crate::symbol_resolution;
use crate::symbol_resolution::{
    LocalSymbol, PreludeSymbol, Progress, ResolvingFile, SymbolFiles, Visibility,
};
use crate::value_flags::ValueFlags;
use vstd::prelude::*;

verus! {

/// A strong reference of a file that is not a shared object has the file of its definition loaded,
/// whether or not that is a shared object. Shared objects load no other shared objects. A reference
/// that is weak, or to a definition of the same file, loads nothing; it is noted as one that stays
/// undefined unless the file of the definition is loaded, except if the linker itself defines it.
pub proof fn lemma_strong_references_load_files<'a, 'data>(
    id: SymbolId,
    symbol: LocalSymbol<'data>,
    file: ResolvingFile,
    files: SymbolFiles<'a>,
    flags: ValueFlags,
)
    requires
        symbol.found is Some,
    ensures
        ({
            let result = symbol_resolution::resolved(id, symbol, file, files, flags);
            let definition = symbol.found->0;
            let target = files.file_ids@[definition.0 as int];
            let dynamic = files.is_dynamic@[definition.0 as int];
            &&& result.definition == Some(definition)
            &&& !symbol.is_weak && target != file.file_id && !file.is_dynamic ==> result.request
                == Some(target)
            &&& !symbol.is_weak && target != file.file_id && !dynamic ==> result.request == Some(
                target,
            )
            &&& file.is_dynamic && dynamic ==> result.request is None
            &&& symbol.is_weak || target == file.file_id ==> result.request is None
            &&& !symbol.is_weak && target != file.file_id ==> result.undefined is None
            &&& (symbol.is_weak || target == file.file_id) && target.0 == 0
                ==> result.undefined is None
            &&& (symbol.is_weak || target == file.file_id) && target.0 != 0 ==> (
            result.undefined matches Some(undefined) && undefined.ignore_if_loaded == Some(target)
                && undefined.name == symbol.name && undefined.symbol_id == id)
        }),
{
}

/// A reference that no definition was found for loads nothing, changes nothing and is noted as
/// undefined whatever is loaded.
pub proof fn lemma_missing_definitions_are_noted<'a, 'data>(
    id: SymbolId,
    symbol: LocalSymbol<'data>,
    file: ResolvingFile,
    files: SymbolFiles<'a>,
    flags: ValueFlags,
)
    requires
        symbol.found is None,
    ensures
        ({
            let result = symbol_resolution::resolved(id, symbol, file, files, flags);
            &&& result.definition is None
            &&& result.request is None
            &&& result.flags == flags
            &&& result.undefined matches Some(undefined) && undefined.ignore_if_loaded is None
                && undefined.name == symbol.name && undefined.symbol_id == id
        }),
{
}

/// A reference from a hidden symbol makes the definition local, one from a protected symbol keeps
/// others from replacing it unless it is in a shared object. A reference never takes a flag away, and
/// what is not intermediate code is remembered to refer to the definition.
pub proof fn lemma_references_mark_definitions(
    flags: ValueFlags,
    visibility: Visibility,
    from_ir: bool,
)
    ensures
        ({
            let after = symbol_resolution::spec_referenced_flags(flags, visibility, from_ir);
            &&& after.has_non_ir_ref <==> flags.has_non_ir_ref || !from_ir
            &&& after.downgrade_to_local <==> flags.downgrade_to_local || visibility is Hidden
            &&& after.non_interposable <==> flags.non_interposable || visibility is Hidden || (
            visibility is Protected && !flags.dynamic)
            &&& after == (ValueFlags {
                has_non_ir_ref: after.has_non_ir_ref,
                downgrade_to_local: after.downgrade_to_local,
                non_interposable: after.non_interposable,
                ..flags
            })
        }),
{
}

/// Whether the symbol at an index of a file is looked up: it has no definition yet, is not the one
/// that stands for no symbol, and is not a hidden one of a shared object.
pub open spec fn is_looked_up(
    definition: SymbolId,
    symbol: LocalSymbol,
    file: ResolvingFile,
    offset: int,
) -> bool {
    &&& definition.0 == 0
    &&& !file.has_null_symbol || offset != 0
    &&& !file.is_dynamic || !(symbol.visibility is Hidden)
}

/// Resolving the symbols of a file gives every symbol that is looked up the definition that was found
/// for it, and has the file of it loaded if the reference is strong. Other symbols keep their
/// definitions. What was asked for before is still asked for, and no flag is lost.
pub proof fn lemma_symbols_are_resolved<'a, 'data>(
    initial: Progress<'data>,
    symbols: Seq<LocalSymbol<'data>>,
    file: ResolvingFile,
    files: SymbolFiles<'a>,
    start: int,
    count: int,
    after: Progress<'data>,
)
    requires
        0 <= count <= symbols.len(),
        symbols.len() == initial.definitions.len(),
        forall|i: int|
            0 <= i < symbols.len() ==> ((#[trigger] symbols[i]).found matches Some(id) ==> id.0
                < initial.flags.len()),
        symbol_resolution::progress_after(initial, symbols, file, files, start, count) == Some(
            after,
        ),
    ensures
        after.definitions.len() == initial.definitions.len(),
        after.flags.len() == initial.flags.len(),
        initial.requests.is_prefix_of(after.requests),
        initial.undefined.is_prefix_of(after.undefined),
        forall|i: int|
            count <= i < symbols.len() ==> #[trigger] after.definitions[i]
                == initial.definitions[i],
        forall|i: int|
            #![trigger symbols[i]]
            0 <= i < count ==> {
                let looked_up = is_looked_up(initial.definitions[i], symbols[i], file, start + i);
                &&& !looked_up || symbols[i].found is None ==> after.definitions[i]
                    == initial.definitions[i]
                &&& looked_up ==> (symbols[i].found matches Some(definition) ==> {
                    let target = files.file_ids@[definition.0 as int];
                    &&& after.definitions[i] == definition
                    &&& !symbols[i].is_weak && target != file.file_id && !file.is_dynamic
                        ==> after.requests.contains(target)
                })
                &&& looked_up && file.check_globals ==> !symbols[i].is_local
            },
    decreases count,
{
    if count > 0 {
        let before = symbol_resolution::progress_after(
            initial,
            symbols,
            file,
            files,
            start,
            count - 1,
        )->0;
        lemma_symbols_are_resolved(initial, symbols, file, files, start, count - 1, before);
        let symbol = symbols[count - 1];
        assert(before.definitions[count - 1] == initial.definitions[count - 1]);
        let flags = match symbol.found {
            Some(id) => before.flags[id.0 as int],
            None => ValueFlags::none(),
        };
        let step = symbol_resolution::resolved(
            file.symbol_id_range.id_at(start + count - 1),
            symbol,
            file,
            files,
            flags,
        );
        assert(before.requests.is_prefix_of(after.requests));
        assert(before.undefined.is_prefix_of(after.undefined));
        assert forall|i: int|
            #![trigger symbols[i]]
            0 <= i < count && is_looked_up(initial.definitions[i], symbols[i], file, start + i)
                && symbols[i].found is Some && !symbols[i].is_weak
                && files.file_ids@[(symbols[i].found->0).0 as int] != file.file_id
                && !file.is_dynamic implies after.requests.contains(
            files.file_ids@[(symbols[i].found->0).0 as int],
        ) by {
            let target = files.file_ids@[(symbols[i].found->0).0 as int];
            if i == count - 1 {
                assert(after.requests.last() == target);
            } else {
                assert(before.requests.contains(target));
                let k = choose|k: int| 0 <= k < before.requests.len() && before.requests[k] == target;
                assert(after.requests[k] == target);
            }
        }
    }
}

/// Every symbol of the given names that exists is referred to by something that is not intermediate
/// code, and its file is loaded. No flag is lost, and nothing else is loaded.
pub proof fn lemma_named_symbols_are_referred_to<'a>(
    names: Seq<Seq<u8>>,
    symbols: Map<Seq<u8>, u64>,
    files: SymbolFiles<'a>,
    flags: Seq<ValueFlags>,
    requests: Seq<FileId>,
    count: int,
)
    requires
        0 <= count <= names.len(),
        symbol_resolution::names_exist(symbols, files, flags.len() as int),
    ensures
        ({
            let (new_flags, new_requests) = symbol_resolution::referred(
                names,
                symbols,
                files,
                flags,
                requests,
                count,
            );
            &&& new_flags.len() == flags.len()
            &&& requests.is_prefix_of(new_requests)
            &&& forall|i: int|
                #![trigger names[i]]
                0 <= i < count && symbols.contains_key(names[i]) ==> {
                    let id = symbols[names[i]] as int;
                    &&& new_flags[id].has_non_ir_ref
                    &&& new_requests.contains(files.file_ids@[id])
                }
            &&& forall|k: int|
                0 <= k < flags.len() ==> {
                    let flag = #[trigger] new_flags[k];
                    flag == flags[k] || flag == (ValueFlags { has_non_ir_ref: true, ..flags[k] })
                }
        }),
    decreases count,
{
    if count > 0 {
        lemma_named_symbols_are_referred_to(names, symbols, files, flags, requests, count - 1);
        let (before_flags, before_requests) = symbol_resolution::referred(
            names,
            symbols,
            files,
            flags,
            requests,
            count - 1,
        );
        let (new_flags, new_requests) = symbol_resolution::referred(
            names,
            symbols,
            files,
            flags,
            requests,
            count,
        );
        assert(before_requests.is_prefix_of(new_requests));
        let name = names[count - 1];
        if symbols.contains_key(name) {
            let id = symbols[name] as int;
            assert(id < flags.len());
            assert(new_requests.last() == files.file_ids@[id]);
        }
        assert forall|i: int|
            #![trigger names[i]]
            0 <= i < count && symbols.contains_key(names[i]) implies {
            let id = symbols[names[i]] as int;
            &&& new_flags[id].has_non_ir_ref
            &&& new_requests.contains(files.file_ids@[id])
        } by {
            let id = symbols[names[i]] as int;
            if i < count - 1 {
                assert(before_requests.contains(files.file_ids@[id]));
                let k = choose|k: int|
                    0 <= k < before_requests.len() && before_requests[k] == files.file_ids@[id];
                assert(new_requests[k] == files.file_ids@[id]);
            }
        }
        assert forall|k: int| 0 <= k < flags.len() implies ({
            let flag = #[trigger] new_flags[k];
            flag == flags[k] || flag == (ValueFlags { has_non_ir_ref: true, ..flags[k] })
        }) by {
            assert(before_flags[k] == flags[k] || before_flags[k] == (ValueFlags {
                has_non_ir_ref: true,
                ..flags[k]
            }));
        }
    }
}

/// The symbols that the arguments ask for get the definition of their name, and its file is loaded.
pub proof fn lemma_forced_symbols_are_defined<'a, 'data>(
    initial: Progress<'data>,
    symbols: Seq<PreludeSymbol<'data>>,
    names: Map<Seq<u8>, u64>,
    files: SymbolFiles<'a>,
    count: int,
)
    requires
        0 <= count <= symbols.len(),
        symbols.len() == initial.definitions.len(),
        files.file_ids@.len() <= u32::MAX,
        symbol_resolution::names_exist(names, files, initial.flags.len() as int),
    ensures
        ({
            let after = symbol_resolution::prelude_progress(initial, symbols, names, files, count);
            &&& after.definitions.len() == initial.definitions.len()
            &&& after.flags.len() == initial.flags.len()
            &&& initial.requests.is_prefix_of(after.requests)
            &&& after.undefined == initial.undefined
            &&& forall|i: int|
                count <= i < symbols.len() ==> #[trigger] after.definitions[i]
                    == initial.definitions[i]
            &&& forall|i: int|
                #![trigger symbols[i]]
                0 <= i < count ==> {
                    let forced = symbols[i].placement is ForceUndefined && names.contains_key(
                        symbols[i].name@,
                    );
                    &&& !forced ==> after.definitions[i] == initial.definitions[i]
                    &&& forced ==> after.definitions[i].0 == names[symbols[i].name@]
                        && after.requests.contains(files.file_ids@[names[symbols[i].name@] as int])
                }
        }),
    decreases count,
{
    if count > 0 {
        lemma_forced_symbols_are_defined(initial, symbols, names, files, count - 1);
        let before = symbol_resolution::prelude_progress(
            initial,
            symbols,
            names,
            files,
            count - 1,
        );
        let after = symbol_resolution::prelude_progress(initial, symbols, names, files, count);
        let symbol = symbols[count - 1];
        if let SymbolPlacement::Redirect(expression) = symbol.placement {
            let referenced = internal_symbols::symbol_names(expression);
            lemma_named_symbols_are_referred_to(
                referenced,
                names,
                files,
                before.flags,
                before.requests,
                referenced.len() as int,
            );
        }
        assert(before.requests.is_prefix_of(after.requests));
        assert forall|i: int|
            #![trigger symbols[i]]
            0 <= i < count && symbols[i].placement is ForceUndefined && names.contains_key(
                symbols[i].name@,
            ) implies after.requests.contains(
            files.file_ids@[names[symbols[i].name@] as int],
        ) by {
            let target = files.file_ids@[names[symbols[i].name@] as int];
            if i == count - 1 {
                assert(names[symbol.name@] < files.file_ids@.len());
                assert(after.requests.last() == target);
            } else {
                let k = choose|k: int| 0 <= k < before.requests.len() && before.requests[k] == target;
                assert(after.requests[k] == target);
            }
        }
        assert forall|i: int|
            #![trigger symbols[i]]
            0 <= i < count && symbols[i].placement is ForceUndefined && names.contains_key(
                symbols[i].name@,
            ) implies after.definitions[i].0 == names[symbols[i].name@] by {
            assert(names[symbols[i].name@] < files.file_ids@.len());
        }
    }
}

} // verus!
