//! What holds of the symbols that are chosen to stand for undefined symbols.
use crate::output_kind::OutputKind;
use crate::output_sections::OutputSections;
use crate::symbol_resolution::{SymbolName, UndefinedSymbol};
use crate::undefined_symbols;
use crate::undefined_symbols::{Canonical, References};
use crate::value_flags::ValueFlags;
use vstd::prelude::*;

verus! {

/// Whether an undefined symbol has a name without a version and stays undefined.
pub open spec fn stays_undefined<'a, 'data>(
    undefined: UndefinedSymbol<'data>,
    references: References<'a>,
    name: Seq<u8>,
) -> bool {
    !undefined_symbols::is_defined(undefined, references) && (undefined.name matches
        SymbolName::Unversioned(own) && own@ == name)
}

/// Whether the first `count` undefined symbols are different and were there from the start.
pub open spec fn distinct_symbols<'data>(
    undefined: Seq<UndefinedSymbol<'data>>,
    symbol_count: int,
) -> bool {
    &&& forall|i: int|
        0 <= i < undefined.len() ==> (#[trigger] undefined[i]).symbol_id.0 < symbol_count
    &&& forall|i: int, j: int|
        0 <= i < j < undefined.len() ==> (#[trigger] undefined[i]).symbol_id != (
        #[trigger] undefined[j]).symbol_id
}

/// Whether a symbol has been dealt with or has been added since the start.
spec fn known<'data>(
    undefined: Seq<UndefinedSymbol<'data>>,
    symbol: u64,
    symbol_count: int,
    count: int,
) -> bool {
    symbol >= symbol_count || exists|k: int|
        0 <= k < count && (#[trigger] undefined[k]).symbol_id.0 == symbol
}

spec fn settled<'a, 'data>(
    state: Canonical<'data>,
    undefined: Seq<UndefinedSymbol<'data>>,
    references: References<'a>,
    symbol_count: int,
    count: int,
) -> bool {
    &&& state.definitions.len() >= symbol_count
    &&& forall|name: Seq<u8>| #[trigger]
        state.chosen.contains_key(name) ==> state.chosen[name] < state.definitions.len()
            && state.definitions[state.chosen[name] as int].0 == state.chosen[name] && known(
            undefined,
            state.chosen[name],
            symbol_count,
            count,
        )
    &&& forall|i: int, name: Seq<u8>|
        0 <= i < count && #[trigger] stays_undefined(undefined[i], references, name)
            ==> state.chosen.contains_key(name)
            && state.definitions[undefined[i].symbol_id.0 as int].0 == state.chosen[name]
}

proof fn lemma_settled_step<'a, 'data>(
    before: Canonical<'data>,
    after: Canonical<'data>,
    undefined: Seq<UndefinedSymbol<'data>>,
    references: References<'a>,
    sections: &OutputSections<'data>,
    output_kind: OutputKind,
    synthetic_flags: ValueFlags,
    symbol_count: int,
    count: int,
)
    requires
        0 <= count < undefined.len(),
        distinct_symbols(undefined, symbol_count),
        settled(before, undefined, references, symbol_count, count),
        undefined_symbols::canonical_step(
            before,
            undefined[count],
            references,
            sections,
            output_kind,
            synthetic_flags,
        ) == Some(after),
    ensures
        settled(after, undefined, references, symbol_count, count + 1),
{
    let current = undefined[count];
    let id = current.symbol_id;
    assert forall|i: int| 0 <= i < count implies (#[trigger] undefined[i]).symbol_id != id by {}
    assert forall|symbol: u64| #[trigger]
        known(undefined, symbol, symbol_count, count) implies symbol != id.0 && known(
        undefined,
        symbol,
        symbol_count,
        count + 1,
    ) by {
        if symbol < symbol_count {
            let k = choose|k: int|
                0 <= k < count && (#[trigger] undefined[k]).symbol_id.0 == symbol;
            assert(undefined[k].symbol_id.0 == symbol);
        }
    }
    assert(known(undefined, id.0 as u64, symbol_count, count + 1)) by {
        assert(undefined[count].symbol_id.0 == id.0);
    }
    assert forall|name: Seq<u8>| #[trigger]
        after.chosen.contains_key(name) implies after.chosen[name] < after.definitions.len()
        && after.definitions[after.chosen[name] as int].0 == after.chosen[name] && known(
        undefined,
        after.chosen[name],
        symbol_count,
        count + 1,
    ) by {
        if before.chosen.contains_key(name) {
            assert(known(undefined, before.chosen[name], symbol_count, count));
        }
    }
    assert forall|i: int, name: Seq<u8>|
        0 <= i < count + 1 && #[trigger] stays_undefined(
            undefined[i],
            references,
            name,
        ) implies after.chosen.contains_key(name)
        && after.definitions[undefined[i].symbol_id.0 as int].0 == after.chosen[name] by {
        if i < count {
            assert(before.chosen.contains_key(name));
            assert(undefined[i].symbol_id != id);
        } else if before.chosen.contains_key(name) {
            assert(before.definitions[before.chosen[name] as int].0 == before.chosen[name]);
        }
    }
}

proof fn lemma_settled<'a, 'data>(
    initial: Canonical<'data>,
    undefined: Seq<UndefinedSymbol<'data>>,
    references: References<'a>,
    sections: &OutputSections<'data>,
    output_kind: OutputKind,
    synthetic_flags: ValueFlags,
    count: int,
)
    requires
        0 <= count <= undefined.len(),
        forall|name: Seq<u8>| !(#[trigger] initial.chosen.contains_key(name)),
        distinct_symbols(undefined, initial.definitions.len() as int),
        undefined_symbols::canonical_after(
            initial,
            undefined,
            references,
            sections,
            output_kind,
            synthetic_flags,
            count,
        ) is Some,
    ensures
        settled(
            undefined_symbols::canonical_after(
                initial,
                undefined,
                references,
                sections,
                output_kind,
                synthetic_flags,
                count,
            )->0,
            undefined,
            references,
            initial.definitions.len() as int,
            count,
        ),
    decreases count,
{
    if count > 0 {
        lemma_settled(
            initial,
            undefined,
            references,
            sections,
            output_kind,
            synthetic_flags,
            count - 1,
        );
        lemma_settled_step(
            undefined_symbols::canonical_after(
                initial,
                undefined,
                references,
                sections,
                output_kind,
                synthetic_flags,
                count - 1,
            )->0,
            undefined_symbols::canonical_after(
                initial,
                undefined,
                references,
                sections,
                output_kind,
                synthetic_flags,
                count,
            )->0,
            undefined,
            references,
            sections,
            output_kind,
            synthetic_flags,
            initial.definitions.len() as int,
            count - 1,
        );
    }
}

/// All undefined symbols with the same name have the same definition, which is its own definition.
pub proof fn lemma_same_name_same_definition<'a, 'data>(
    initial: Canonical<'data>,
    undefined: Seq<UndefinedSymbol<'data>>,
    references: References<'a>,
    sections: &OutputSections<'data>,
    output_kind: OutputKind,
    synthetic_flags: ValueFlags,
    name: Seq<u8>,
    i: int,
    j: int,
)
    requires
        forall|name: Seq<u8>| !(#[trigger] initial.chosen.contains_key(name)),
        distinct_symbols(undefined, initial.definitions.len() as int),
        0 <= i < undefined.len(),
        0 <= j < undefined.len(),
        stays_undefined(undefined[i], references, name),
        stays_undefined(undefined[j], references, name),
        undefined_symbols::canonical_after(
            initial,
            undefined,
            references,
            sections,
            output_kind,
            synthetic_flags,
            undefined.len() as int,
        ) is Some,
    ensures
        ({
            let after = undefined_symbols::canonical_after(
                initial,
                undefined,
                references,
                sections,
                output_kind,
                synthetic_flags,
                undefined.len() as int,
            )->0;
            let definition = after.definitions[undefined[i].symbol_id.0 as int];
            &&& after.definitions[undefined[j].symbol_id.0 as int] == definition
            &&& after.definitions[definition.0 as int] == definition
        }),
{
    lemma_settled(
        initial,
        undefined,
        references,
        sections,
        output_kind,
        synthetic_flags,
        undefined.len() as int,
    );
}

} // verus!
