//! What holds of symbols that the linker and linker scripts define, and of those that nothing defines.
use crate::expression::Expression;
use crate::expression_eval;
use crate::expression_eval::EnvView;
use crate::input_sections::SectionSlot;
use crate::internal_symbols;
use crate::internal_symbols::{InternalContext, SymbolPlacement};
use crate::layout_queries;
use crate::layout_queries::{Layout, LayoutOverflow, MemRange, ObjectLayout};
use crate::output_kind::OutputKind;
use crate::output_section_id::OutputSectionId;
use crate::output_sections;
use crate::output_sections::{OutputSections, SectionKind};
use crate::program_segments::ProgramSegments;
use crate::record_layout::OutputRecordLayout;
use crate::resolution::EntryParts;
use crate::segment_layout::SegmentLayout;
use crate::symbol_id::{SymbolId, SymbolIdRange};
use crate::symbol_resolution::Visibility;
use crate::undefined_symbols;
use crate::undefined_symbols::Canonical;
use crate::value_flags::ValueFlags;
use vstd::prelude::*;

verus! {

proof fn lemma_group_end<'data>(
    sections: &OutputSections<'data>,
    layouts: Seq<OutputRecordLayout>,
    id: OutputSectionId,
    count: int,
)
    requires
        0 <= count <= sections.count(),
    ensures
        ({
            let end = internal_symbols::group_end(sections, layouts, id, count);
            &&& end >= layouts[id.0 as int].mem_offset + layouts[id.0 as int].mem_size
            &&& forall|i: int|
                0 <= i < count && (#[trigger] sections.infos()[i]).kind == SectionKind::Secondary(id)
                    ==> layouts[i].mem_offset + layouts[i].mem_size <= end
            &&& end == layouts[id.0 as int].mem_offset + layouts[id.0 as int].mem_size || exists|
                i: int,
            |
                0 <= i < count && (#[trigger] sections.infos()[i]).kind == SectionKind::Secondary(id)
                    && layouts[i].mem_offset + layouts[i].mem_size == end
        }),
    decreases count,
{
    if count > 0 {
        lemma_group_end(sections, layouts, id, count - 1);
        let last = sections.infos()[count - 1];
        assert(sections.infos()[count - 1] == last);
        let before = internal_symbols::group_end(sections, layouts, id, count - 1);
        let end = internal_symbols::group_end(sections, layouts, id, count);
        if end == before && before != layouts[id.0 as int].mem_offset
            + layouts[id.0 as int].mem_size {
            let i = choose|i: int|
                0 <= i < count - 1 && (#[trigger] sections.infos()[i]).kind
                    == SectionKind::Secondary(id) && layouts[i].mem_offset + layouts[i].mem_size
                    == before;
            assert(sections.infos()[i].kind == SectionKind::Secondary(id));
        }
    }
}

/// The symbols for the start and the end of a section are as far apart as the section is large. The
/// end of a group of sections is the end of the last of them.
pub proof fn lemma_section_symbols<'a, 'data>(
    ctx: &InternalContext<'a, 'data>,
    id: OutputSectionId,
    start: u64,
    end: u64,
    group_end: u64,
)
    requires
        ctx.wf(),
        ctx.sections.has(id),
        forall|i: int|
            0 <= i < ctx.section_layouts@.len() ==> (#[trigger] ctx.section_layouts@[i]).mem_offset
                + ctx.section_layouts@[i].mem_size <= u64::MAX,
        internal_symbols::placement_value(ctx, SymbolPlacement::SectionStart(id)) == Some(start),
        internal_symbols::placement_value(ctx, SymbolPlacement::SectionEnd(id)) == Some(end),
        internal_symbols::placement_value(ctx, SymbolPlacement::SectionGroupEnd(id)) == Some(
            group_end,
        ),
    ensures
        start == ctx.section_layouts@[id.0 as int].mem_offset,
        end - start == ctx.section_layouts@[id.0 as int].mem_size,
        group_end >= end,
        forall|i: int|
            0 <= i < ctx.sections.count() && (#[trigger] ctx.sections.infos()[i]).kind
                == SectionKind::Secondary(id) ==> ctx.section_layouts@[i].mem_offset
                + ctx.section_layouts@[i].mem_size <= group_end,
        group_end == end || exists|i: int|
            0 <= i < ctx.sections.count() && (#[trigger] ctx.sections.infos()[i]).kind
                == SectionKind::Secondary(id) && ctx.section_layouts@[i].mem_offset
                + ctx.section_layouts@[i].mem_size == group_end,
{
    lemma_group_end(ctx.sections, ctx.section_layouts@, id, ctx.sections.count());
    assert(ctx.section_layouts@[id.0 as int].mem_offset + ctx.section_layouts@[id.0 as int].mem_size
        <= u64::MAX);
}

proof fn lemma_first_loaded(layouts: Seq<SegmentLayout>, segments: &ProgramSegments, from: int)
    requires
        0 <= from <= layouts.len(),
    ensures
        match internal_symbols::first_loaded(layouts, segments, from) {
            Some(address) => exists|i: int|
                from <= i < layouts.len() && segments.def((#[trigger] layouts[i]).id).loadable
                    && layouts[i].sizes.mem_offset == address && forall|j: int|
                    from <= j < i ==> !segments.def((#[trigger] layouts[j]).id).loadable,
            None => forall|i: int|
                from <= i < layouts.len() ==> !segments.def((#[trigger] layouts[i]).id).loadable,
        },
    decreases layouts.len() - from,
{
    if from < layouts.len() {
        if segments.def(layouts[from].id).loadable {
            assert(layouts[from].sizes.mem_offset == internal_symbols::first_loaded(
                layouts,
                segments,
                from,
            )->0);
        } else {
            lemma_first_loaded(layouts, segments, from + 1);
            if internal_symbols::first_loaded(layouts, segments, from + 1) is Some {
                let address = internal_symbols::first_loaded(layouts, segments, from + 1)->0;
                let i = choose|i: int|
                    from + 1 <= i < layouts.len() && segments.def(
                        (#[trigger] layouts[i]).id,
                    ).loadable && layouts[i].sizes.mem_offset == address && forall|j: int|
                        from + 1 <= j < i ==> !segments.def((#[trigger] layouts[j]).id).loadable;
                assert(layouts[i].sizes.mem_offset == address);
            }
        }
    }
}

/// The base address is where the first segment that is loaded starts; there is none without such a
/// segment.
pub proof fn lemma_base_address_is_first_loaded<'a, 'data>(ctx: &InternalContext<'a, 'data>)
    ensures
        match internal_symbols::placement_value(ctx, SymbolPlacement::LoadBaseAddress) {
            Some(address) => exists|i: int|
                0 <= i < ctx.segment_layouts@.len() && ctx.segments.def(
                    (#[trigger] ctx.segment_layouts@[i]).id,
                ).loadable && ctx.segment_layouts@[i].sizes.mem_offset == address && forall|j: int|
                    0 <= j < i ==> !ctx.segments.def(
                        (#[trigger] ctx.segment_layouts@[j]).id,
                    ).loadable,
            None => forall|i: int|
                0 <= i < ctx.segment_layouts@.len() ==> !ctx.segments.def(
                    (#[trigger] ctx.segment_layouts@[i]).id,
                ).loadable,
        },
{
    lemma_first_loaded(ctx.segment_layouts@, ctx.segments, 0);
}

/// A symbol that the linker defines has a resolution if it has a name, is its own definition, is
/// needed, and has a place. If it has none, nothing is allocated. One that needs neither an address
/// nor a stub has the value of its place.
pub proof fn lemma_internal_symbols_are_resolved<'a, 'data>(
    ctx: &InternalContext<'a, 'data>,
    has_name: bool,
    canonical: bool,
    flags: ValueFlags,
    placement: SymbolPlacement<'data>,
    offsets: Map<u32, u64>,
    parts: EntryParts,
)
    ensures
        ({
            let needed = flags.direct || flags.got || flags.plt || flags.got_tls_offset
                || flags.got_tls_module || flags.got_tls_descriptor || flags.export_dynamic;
            let value = internal_symbols::placement_value(ctx, placement);
            match internal_symbols::internal_resolved(
                ctx,
                has_name,
                canonical,
                flags,
                placement,
                offsets,
                parts,
            ) {
                Ok((Some(resolution), after)) => {
                    &&& has_name && canonical && needed && value is Some
                    &&& resolution.flags == flags
                    &&& !flags.got && !flags.plt ==> after == offsets && resolution.raw_value
                        == value->0 && resolution.got_address is None && resolution.plt_address
                        is None
                },
                Ok((None, after)) => after == offsets && !(has_name && canonical && needed && value
                    is Some),
                Err(_) => has_name && canonical && needed && value is Some && (flags.got
                    || flags.plt),
            }
        }),
{
}

/// Every symbol of a library has a place among the resolutions of the library. Those that are needed
/// and are their own definitions have a resolution, and the others have none.
pub proof fn lemma_library_symbols_are_resolved(
    range: SymbolIdRange,
    flags: Seq<ValueFlags>,
    definitions: Seq<SymbolId>,
    offsets: Map<u32, u64>,
    parts: EntryParts,
    count: int,
)
    requires
        range.wf(),
        0 <= count <= range.num_symbols,
        range.start_symbol_id.0 + range.num_symbols <= u32::MAX,
        internal_symbols::library_resolutions(range, flags, definitions, offsets, parts, count)
            is Ok,
    ensures
        ({
            let resolutions = (internal_symbols::library_resolutions(
                range,
                flags,
                definitions,
                offsets,
                parts,
                count,
            )->Ok_0).0;
            &&& resolutions.len() == count
            &&& forall|i: int|
                0 <= i < count ==> {
                    let at = range.start_symbol_id.0 + i;
                    let needed = flags[at].direct || flags[at].got || flags[at].plt
                        || flags[at].got_tls_offset || flags[at].got_tls_module
                        || flags[at].got_tls_descriptor || flags[at].export_dynamic;
                    (#[trigger] resolutions[i]) is Some <==> needed && definitions[at].0 == at
                }
        }),
    decreases count,
{
    if count > 0 {
        lemma_library_symbols_are_resolved(range, flags, definitions, offsets, parts, count - 1);
    }
}

/// Whether the environments in which expressions are evaluated differ at most in symbols.
pub open spec fn same_besides_symbols<'data>(a: EnvView<'data>, b: EnvView<'data>) -> bool {
    b == (EnvView { symbols: b.symbols, ..a })
}

/// Whether the given names stand for the same values.
pub open spec fn agree_on<'data>(a: EnvView<'data>, b: EnvView<'data>, names: Seq<Seq<u8>>) -> bool {
    forall|i: int|
        #![trigger names[i]]
        0 <= i < names.len() ==> a.symbols.contains_key(names[i]) == b.symbols.contains_key(names[i])
            && (a.symbols.contains_key(names[i]) ==> a.symbols[names[i]] == b.symbols[names[i]])
}

proof fn lemma_agree_on_parts<'data>(
    a: EnvView<'data>,
    b: EnvView<'data>,
    l: Seq<Seq<u8>>,
    r: Seq<Seq<u8>>,
)
    requires
        agree_on(a, b, l + r),
    ensures
        agree_on(a, b, l),
        agree_on(a, b, r),
{
    assert forall|i: int|
        #![trigger l[i]]
        0 <= i < l.len() implies a.symbols.contains_key(l[i]) == b.symbols.contains_key(l[i]) && (
    a.symbols.contains_key(l[i]) ==> a.symbols[l[i]] == b.symbols[l[i]]) by {
        assert((l + r)[i] == l[i]);
    }
    assert forall|i: int|
        #![trigger r[i]]
        0 <= i < r.len() implies a.symbols.contains_key(r[i]) == b.symbols.contains_key(r[i]) && (
    a.symbols.contains_key(r[i]) ==> a.symbols[r[i]] == b.symbols[r[i]]) by {
        assert((l + r)[l.len() + i] == r[i]);
    }
}

/// The value of an expression depends on no symbols but those whose names are collected from it: they
/// are all that has to be loaded for it.
pub proof fn lemma_collected_names_are_enough<'data>(
    expression: Expression<'data>,
    a: EnvView<'data>,
    b: EnvView<'data>,
)
    requires
        same_besides_symbols(a, b),
        agree_on(a, b, internal_symbols::symbol_names(expression)),
    ensures
        expression_eval::value_of(expression, a) == expression_eval::value_of(expression, b),
    decreases expression,
{
    match expression {
        Expression::Symbol(name) => {
            assert(internal_symbols::symbol_names(expression)[0] == name@);
        },
        Expression::Absolute(inner) | Expression::Log2Ceil(inner) => {
            lemma_collected_names_are_enough(*inner, a, b);
        },
        Expression::Assert(command) => {
            lemma_collected_names_are_enough(*command.expression, a, b);
        },
        Expression::Align(alignment, value) => match value {
            Some(value) => {
                lemma_agree_on_parts(
                    a,
                    b,
                    internal_symbols::symbol_names(*alignment),
                    internal_symbols::symbol_names(*value),
                );
                lemma_collected_names_are_enough(*alignment, a, b);
                lemma_collected_names_are_enough(*value, a, b);
            },
            None => {
                lemma_collected_names_are_enough(*alignment, a, b);
            },
        },
        Expression::Add(l, r)
        | Expression::Subtract(l, r)
        | Expression::Multiply(l, r)
        | Expression::Divide(l, r)
        | Expression::Modulo(l, r)
        | Expression::LessThan(l, r)
        | Expression::GreaterThan(l, r)
        | Expression::LessEqual(l, r)
        | Expression::GreaterEqual(l, r)
        | Expression::Equal(l, r)
        | Expression::NotEqual(l, r)
        | Expression::Min(l, r)
        | Expression::Max(l, r) => {
            lemma_agree_on_parts(
                a,
                b,
                internal_symbols::symbol_names(*l),
                internal_symbols::symbol_names(*r),
            );
            lemma_collected_names_are_enough(*l, a, b);
            lemma_collected_names_are_enough(*r, a, b);
        },
        _ => {},
    }
}

/// Whether one of the first names stands for a symbol with the given definition.
pub open spec fn names_definition(
    names: Seq<Seq<u8>>,
    symbols: Map<Seq<u8>, u64>,
    definitions: Seq<SymbolId>,
    count: int,
    definition: int,
) -> bool {
    exists|i: int|
        0 <= i < count && symbols.contains_key(#[trigger] names[i])
            && definitions[symbols[names[i]] as int].0 == definition
}

/// Whether symbols are marked as needed that some names stand for, and no others.
pub open spec fn marked_as_needed(
    names: Seq<Seq<u8>>,
    symbols: Map<Seq<u8>, u64>,
    definitions: Seq<SymbolId>,
    flags: Seq<ValueFlags>,
    count: int,
    after: Seq<ValueFlags>,
) -> bool {
    &&& after.len() == flags.len()
    &&& forall|s: int|
        0 <= s < flags.len() ==> #[trigger] after[s] == (if names_definition(
            names,
            symbols,
            definitions,
            count,
            s,
        ) {
            ValueFlags { direct: true, ..flags[s] }
        } else {
            flags[s]
        })
}

/// Whether the symbols that some names stand for, and that nothing needs yet, are loaded once each.
pub open spec fn loaded_once(
    names: Seq<Seq<u8>>,
    symbols: Map<Seq<u8>, u64>,
    definitions: Seq<SymbolId>,
    flags: Seq<ValueFlags>,
    count: int,
    loads: Seq<SymbolId>,
) -> bool {
    &&& forall|id: SymbolId| #[trigger]
        loads.contains(id) <==> names_definition(names, symbols, definitions, count, id.0 as int)
            && !flags[id.0 as int].spec_has_resolution()
    &&& loads.no_duplicates()
}

proof fn lemma_one_more_name(
    names: Seq<Seq<u8>>,
    symbols: Map<Seq<u8>, u64>,
    definitions: Seq<SymbolId>,
    count: int,
    s: int,
)
    requires
        0 < count <= names.len(),
    ensures
        names_definition(names, symbols, definitions, count, s) <==> (names_definition(
            names,
            symbols,
            definitions,
            count - 1,
            s,
        ) || symbols.contains_key(names[count - 1]) && definitions[symbols[names[count
            - 1]] as int].0 == s),
{
    if names_definition(names, symbols, definitions, count, s) {
        let i = choose|i: int|
            0 <= i < count && symbols.contains_key(#[trigger] names[i])
                && definitions[symbols[names[i]] as int].0 == s;
        if i < count - 1 {
            assert(names_definition(names, symbols, definitions, count - 1, s));
        }
    }
    if names_definition(names, symbols, definitions, count - 1, s) {
        let i = choose|i: int|
            0 <= i < count - 1 && symbols.contains_key(#[trigger] names[i])
                && definitions[symbols[names[i]] as int].0 == s;
        assert(symbols.contains_key(names[i]));
    }
}

/// The definitions of the symbols that an expression names are marked as needed, and no other symbol
/// changes. Those that nothing needed before are loaded, once each.
pub proof fn lemma_named_symbols_are_loaded(
    names: Seq<Seq<u8>>,
    symbols: Map<Seq<u8>, u64>,
    definitions: Seq<SymbolId>,
    flags: Seq<ValueFlags>,
    count: int,
)
    requires
        internal_symbols::symbols_exist(symbols, definitions),
        flags.len() == definitions.len(),
        0 <= count <= names.len(),
    ensures
        ({
            let (after, loads) = internal_symbols::references_after(
                names,
                symbols,
                definitions,
                flags,
                count,
            );
            &&& marked_as_needed(names, symbols, definitions, flags, count, after)
            &&& loaded_once(names, symbols, definitions, flags, count, loads)
        }),
    decreases count,
{
    if count > 0 {
        lemma_named_symbols_are_loaded(names, symbols, definitions, flags, count - 1);
        let (before, old_loads) = internal_symbols::references_after(
            names,
            symbols,
            definitions,
            flags,
            count - 1,
        );
        let (after, loads) = internal_symbols::references_after(
            names,
            symbols,
            definitions,
            flags,
            count,
        );
        let name = names[count - 1];
        assert forall|s: int| 0 <= s < flags.len() implies #[trigger] after[s] == (
        if names_definition(names, symbols, definitions, count, s) {
            ValueFlags { direct: true, ..flags[s] }
        } else {
            flags[s]
        }) by {
            lemma_one_more_name(names, symbols, definitions, count, s);
            assert(before[s] == before[s]);
        }
        if symbols.contains_key(name) {
            let id = definitions[symbols[name] as int];
            let at = id.0 as int;
            assert(0 <= at < flags.len());
            assert(before[at].spec_has_resolution() <==> flags[at].spec_has_resolution()
                || names_definition(names, symbols, definitions, count - 1, at));
            assert(old_loads.contains(id) ==> before[at].spec_has_resolution());
            if !before[at].spec_has_resolution() {
                assert(loads == old_loads.push(id));
                lemma_pushed(old_loads, id);
            }
            assert forall|x: SymbolId| #[trigger]
                loads.contains(x) <==> names_definition(
                    names,
                    symbols,
                    definitions,
                    count,
                    x.0 as int,
                ) && !flags[x.0 as int].spec_has_resolution() by {
                lemma_one_more_name(names, symbols, definitions, count, x.0 as int);
                assert(old_loads.contains(x) || !old_loads.contains(x));
                assert(x.0 == at ==> x == id);
            }
        } else {
            assert forall|x: SymbolId| #[trigger]
                loads.contains(x) <==> names_definition(
                    names,
                    symbols,
                    definitions,
                    count,
                    x.0 as int,
                ) && !flags[x.0 as int].spec_has_resolution() by {
                lemma_one_more_name(names, symbols, definitions, count, x.0 as int);
            }
        }
    }
}

proof fn lemma_pushed(before: Seq<SymbolId>, id: SymbolId)
    requires
        before.no_duplicates(),
        !before.contains(id),
    ensures
        before.push(id).no_duplicates(),
        forall|x: SymbolId| #[trigger] before.push(id).contains(x) <==> before.contains(x) || x == id,
{
    let after = before.push(id);
    assert forall|x: SymbolId| #[trigger] after.contains(x) <==> before.contains(x) || x == id by {
        if after.contains(x) {
            let k = choose|k: int| 0 <= k < after.len() && after[k] == x;
            if k < before.len() {
                assert(before[k] == x);
            }
        }
        if before.contains(x) {
            let k = choose|k: int| 0 <= k < before.len() && before[k] == x;
            assert(after[k] == x);
        }
        if x == id {
            assert(after[before.len() as int] == x);
        }
    }
}

/// A name that begins with `__start_` stands for the start of the section that the rest of it names,
/// and one that begins with `__stop_` for its end.
pub proof fn lemma_names_of_section_bounds<'data>(sections: &OutputSections<'data>, rest: Seq<u8>)
    requires
        sections.platform.identity_from_name,
    ensures
        ({
            let section = sections.recorded(output_sections::name_key(rest));
            let start = seq![0x5fu8, 0x5f, 0x73, 0x74, 0x61, 0x72, 0x74, 0x5f] + rest;
            let stop = seq![0x5fu8, 0x5f, 0x73, 0x74, 0x6f, 0x70, 0x5f] + rest;
            &&& undefined_symbols::start_stop(sections, start) is Some <==> section is Some
            &&& undefined_symbols::start_stop(sections, stop) is Some <==> section is Some
            &&& section is Some ==> undefined_symbols::start_stop(sections, start) == Some(
                SymbolPlacement::<'data>::SectionStart(section->0),
            )
            &&& section is Some ==> undefined_symbols::start_stop(sections, stop) == Some(
                SymbolPlacement::<'data>::SectionEnd(section->0),
            )
        }),
{
    let first = seq![0x5fu8, 0x5f, 0x73, 0x74, 0x61, 0x72, 0x74, 0x5f];
    let second = seq![0x5fu8, 0x5f, 0x73, 0x74, 0x6f, 0x70, 0x5f];
    let start = first + rest;
    let stop = second + rest;
    assert(start.take(8) =~= undefined_symbols::start_prefix());
    assert(start.skip(8) =~= rest);
    assert(stop.take(7) =~= undefined_symbols::stop_prefix());
    assert(stop.skip(7) =~= rest);
    if undefined_symbols::has_prefix(stop, undefined_symbols::start_prefix()) {
        assert(stop.take(8)[4] == stop[4]);
        assert(undefined_symbols::start_prefix()[4] == 0x61);
        assert(stop[4] == 0x6f);
    }
}

/// Names that begin with neither `__start_` nor `__stop_` stand for no bound of a section.
pub proof fn lemma_other_names_are_no_section_bounds<'data>(
    sections: &OutputSections<'data>,
    name: Seq<u8>,
)
    requires
        undefined_symbols::start_stop(sections, name) is Some,
    ensures
        sections.platform.identity_from_name,
        name.len() >= 7,
        name[0] == 0x5f && name[1] == 0x5f && name[2] == 0x73 && name[3] == 0x74,
        name[4] == 0x61 || name[4] == 0x6f,
        name[4] == 0x61 <==> undefined_symbols::start_stop(sections, name)->0 is SectionStart,
        name[4] == 0x6f <==> undefined_symbols::start_stop(sections, name)->0 is SectionEnd,
{
    if undefined_symbols::has_prefix(name, undefined_symbols::start_prefix()) {
        let prefix = undefined_symbols::start_prefix();
        assert forall|i: int| 0 <= i < 8 implies name[i] == #[trigger] prefix[i] by {
            assert(name.take(8)[i] == name[i]);
        }
        assert(name[0] == prefix[0] && name[1] == prefix[1] && name[2] == prefix[2] && name[3]
            == prefix[3] && name[4] == prefix[4]);
    } else {
        let prefix = undefined_symbols::stop_prefix();
        assert forall|i: int| 0 <= i < 7 implies name[i] == #[trigger] prefix[i] by {
            assert(name.take(7)[i] == name[i]);
        }
        assert(name[0] == prefix[0] && name[1] == prefix[1] && name[2] == prefix[2] && name[3]
            == prefix[3] && name[4] == prefix[4]);
    }
}

/// The first undefined symbol of a name that marks no section becomes its own definition. Shared
/// objects leave it to the dynamic linker, and so do other dynamic outputs if the reference is weak,
/// but only if the reference has default visibility. Otherwise it cannot be replaced at run time. No
/// other symbol changes but the one that the name stands for.
pub proof fn lemma_undefined_symbol_stands_for_itself<'data>(
    before: Canonical<'data>,
    symbol: SymbolId,
    name: &'data [u8],
    visibility: Visibility,
    weak: bool,
    sections: &OutputSections<'data>,
    output_kind: OutputKind,
    synthetic_flags: ValueFlags,
)
    requires
        before.wf(),
        symbol.0 < before.definitions.len(),
        undefined_symbols::start_stop(sections, name@) is None,
    ensures
        undefined_symbols::first_of_name(
            before,
            symbol,
            name,
            visibility,
            weak,
            sections,
            output_kind,
            synthetic_flags,
        ) matches Some(after) && {
            let index = symbol.0 as int;
            &&& after.definitions[index] == symbol
            &&& after.chosen.contains_key(name@) && after.chosen[name@] == symbol.0
            &&& after.synthetic == before.synthetic
            &&& output_kind is SharedObject && visibility is Default ==> after.flags[index].dynamic
            &&& output_kind is StaticExecutable ==> after.flags[index].dynamic
                == before.flags[index].dynamic
            &&& !(output_kind is SharedObject) && !weak ==> after.flags[index].dynamic
                == before.flags[index].dynamic
            &&& !(output_kind is StaticExecutable) && visibility is Default && weak
                ==> after.flags[index].dynamic
            &&& !(visibility is Default) ==> after.flags[index].dynamic
                == before.flags[index].dynamic && after.flags[index].non_interposable
            &&& forall|i: int|
                0 <= i < before.definitions.len() && i != index ==> #[trigger] after.definitions[i]
                    == before.definitions[i]
            &&& forall|i: int|
                0 <= i < before.flags.len() && i != index && (visibility is Default
                    || !before.names.contains_key(name@) || i
                    != before.definitions[before.names[name@] as int].0) ==> #[trigger] after.flags[i]
                    == before.flags[i]
        },
{
}

/// A symbol that marks a section gets a definition of its own, which is new.
pub proof fn lemma_section_bounds_are_added<'data>(
    before: Canonical<'data>,
    symbol: SymbolId,
    name: &'data [u8],
    visibility: Visibility,
    weak: bool,
    sections: &OutputSections<'data>,
    output_kind: OutputKind,
    synthetic_flags: ValueFlags,
    placement: SymbolPlacement<'data>,
)
    requires
        before.wf(),
        symbol.0 < before.definitions.len() < u32::MAX,
        undefined_symbols::start_stop(sections, name@) == Some(placement),
    ensures
        undefined_symbols::first_of_name(
            before,
            symbol,
            name,
            visibility,
            weak,
            sections,
            output_kind,
            synthetic_flags,
        ) matches Some(after) && {
            let added = before.definitions.len() as int;
            &&& after.definitions.len() == added + 1
            &&& after.definitions[symbol.0 as int].0 == added
            &&& after.definitions[added].0 == added
            &&& after.flags.len() == added + 1
            &&& after.flags[added] == synthetic_flags
            &&& after.flags.drop_last() == before.flags
            &&& after.names.contains_key(name@) && after.names[name@] == added
            &&& after.chosen.contains_key(name@) && after.chosen[name@] == added
            &&& after.synthetic.len() == before.synthetic.len() + 1
            &&& after.synthetic.last().placement == placement
            &&& after.synthetic.last().symbol_id.0 == added
            &&& after.synthetic.last().name == name
        },
{
    let after = undefined_symbols::first_of_name(
        before,
        symbol,
        name,
        visibility,
        weak,
        sections,
        output_kind,
        synthetic_flags,
    )->0;
    assert(after.flags.drop_last() =~= before.flags);
}

/// Two undefined symbols whose names have the same version have the same definition: the first of
/// them.
pub proof fn lemma_versioned_symbols_share_definition<'data>(
    before: Canonical<'data>,
    first: SymbolId,
    second: SymbolId,
    name: Seq<u8>,
)
    requires
        before.wf(),
        first.0 < before.definitions.len(),
        second.0 < before.definitions.len(),
        first != second,
        !before.chosen_versioned.contains_key(name),
    ensures
        ({
            let after = undefined_symbols::versioned(
                undefined_symbols::versioned(before, first, name),
                second,
                name,
            );
            &&& after.definitions[second.0 as int] == first
            &&& after.definitions[first.0 as int] == before.definitions[first.0 as int]
            &&& after.flags == before.flags
        }),
{
}

/// A section with two places goes to the one for writable sections if one of its inputs is writable,
/// and to the other one if not. If it has one place it goes there.
pub proof fn lemma_writable_inputs_choose_place<'data>(
    sections: &OutputSections<'data>,
    id: OutputSectionId,
)
    ensures
        ({
            let slots = sections.slots(id);
            let writable = sections.info_after_choice(id, true);
            let read_only = sections.info_after_choice(id, false);
            &&& slots.rw matches Some(placement) ==> writable.location_info == Some(
                placement.location_info,
            )
            &&& slots.ro matches Some(placement) ==> read_only.location_info == Some(
                placement.location_info,
            )
            &&& slots.rw is None ==> writable == read_only
            &&& slots.ro is None ==> writable == read_only
            &&& slots.ro is None && slots.rw is None ==> writable == sections.info(id)
        }),
{
}

proof fn lemma_lowest_tls<'data>(
    sections: &OutputSections<'data>,
    layouts: Seq<OutputRecordLayout>,
    count: int,
)
    requires
        0 <= count,
    ensures
        match layout_queries::lowest_tls(sections, layouts, count) {
            Some(lowest) => {
                &&& forall|i: int|
                    0 <= i < count && (#[trigger] sections.infos()[i]).section_attributes.tls
                        ==> lowest <= layouts[i].mem_offset
                &&& exists|i: int|
                    0 <= i < count && (#[trigger] sections.infos()[i]).section_attributes.tls
                        && layouts[i].mem_offset == lowest
            },
            None => forall|i: int|
                0 <= i < count ==> !(#[trigger] sections.infos()[i]).section_attributes.tls,
        },
    decreases count,
{
    if count > 0 {
        lemma_lowest_tls(sections, layouts, count - 1);
        let last = sections.infos()[count - 1];
        assert(sections.infos()[count - 1] == last);
        if layout_queries::lowest_tls(sections, layouts, count - 1) is Some {
            let lowest = layout_queries::lowest_tls(sections, layouts, count - 1)->0;
            let i = choose|i: int|
                0 <= i < count - 1 && (#[trigger] sections.infos()[i]).section_attributes.tls
                    && layouts[i].mem_offset == lowest;
            assert(sections.infos()[i].section_attributes.tls);
        }
    }
}

/// Thread-local data starts where the lowest of the sections starts that hold it, or at 0 if no
/// section holds any.
pub proof fn lemma_thread_local_data_starts_with_lowest<'data>(layout: &Layout<'data>)
    requires
        layout.wf(),
    ensures
        ({
            let sections = layout.output_sections;
            let start = layout.tlv_start();
            &&& forall|i: int|
                0 <= i < sections.count() && (
                #[trigger] sections.infos()[i]).section_attributes.tls ==> start
                    <= layout.section_layouts@[i].mem_offset
            &&& start == 0 || exists|i: int|
                0 <= i < sections.count() && (
                #[trigger] sections.infos()[i]).section_attributes.tls
                    && layout.section_layouts@[i].mem_offset == start
        }),
{
    lemma_lowest_tls(
        &layout.output_sections,
        layout.section_layouts@,
        layout.output_sections.count(),
    );
}

/// A symbol has the value of its definition. It needs what either of them needs.
pub proof fn lemma_symbols_have_value_of_definition<'data>(layout: &Layout<'data>, symbol: SymbolId)
    requires
        layout.wf(),
        layout.has_symbol(symbol),
    ensures
        ({
            let definition = layout.definitions@[symbol.0 as int];
            match (
                layout.merged_resolution(symbol),
                layout.symbol_resolutions@[definition.0 as int],
            ) {
                (Some(merged), Some(own)) => {
                    let flags = layout.per_symbol_flags@[symbol.0 as int];
                    &&& merged.raw_value == own.raw_value
                    &&& merged.got_address == own.got_address
                    &&& merged.plt_address == own.plt_address
                    &&& merged.dynamic_symbol_index == own.dynamic_symbol_index
                    &&& merged.flags.direct == (own.flags.direct || flags.direct)
                    &&& merged.flags.got == (own.flags.got || flags.got)
                    &&& merged.flags.plt == (own.flags.plt || flags.plt)
                    &&& merged.flags.dynamic == (own.flags.dynamic || flags.dynamic)
                    &&& merged.flags.absolute == (own.flags.absolute || flags.absolute)
                    &&& merged.flags.export_dynamic == (own.flags.export_dynamic
                        || flags.export_dynamic)
                },
                (None, None) => true,
                _ => false,
            }
        }),
{
}

/// A section of an object is in memory if it is loaded, is not empty and its output section is
/// allocated. It is there from its address on, for as many bytes as are left of it.
pub proof fn lemma_allocated_sections_are_in_memory<'data>(
    object: ObjectLayout<'data>,
    sections: &OutputSections<'data>,
    index: int,
    range: MemRange,
)
    requires
        layout_queries::section_range(object, sections, index) == Ok::<MemRange, LayoutOverflow>(
            range,
        ),
    ensures
        ({
            let part = object.section_part_ids@[index];
            let output = sections.primary(
                OutputSectionId(sections.platform.section_of(part.0 as int) as u32),
            );
            let in_memory = object.sections@[index] is Loaded && (
            object.section_sizes@[index] matches Some(size) && size > 0) && sections.info(
                output,
            ).section_attributes.alloc;
            &&& range is Some <==> in_memory
            &&& range matches Some((start, end)) ==> start
                == object.section_resolutions@[index].address && end - start
                == object.sections@[index]->Loaded_0.size
        }),
{
}

/// The number of sections among the first ones that are loaded.
pub open spec fn loaded_count(slots: Seq<SectionSlot>, count: int) -> nat
    decreases count,
{
    if count <= 0 {
        0
    } else {
        loaded_count(slots, count - 1) + if slots[count - 1] is Loaded {
            1nat
        } else {
            0
        }
    }
}

/// The size of every loaded section is recorded, in the order of the sections, and nothing else is.
pub proof fn lemma_sizes_of_loaded_sections_are_recorded(
    slots: Seq<SectionSlot>,
    count: int,
    index: int,
)
    requires
        0 <= index < count <= slots.len(),
    ensures
        layout_queries::loaded_sizes(slots, count).len() == loaded_count(slots, count),
        slots[index] matches SectionSlot::Loaded(section) ==> loaded_count(slots, index)
            < loaded_count(slots, count) && layout_queries::loaded_sizes(
            slots,
            count,
        )[loaded_count(slots, index) as int] == section.size,
    decreases count,
{
    lemma_loaded_count(slots, count);
    lemma_loaded_count(slots, index);
    if index < count - 1 {
        lemma_sizes_of_loaded_sections_are_recorded(slots, count - 1, index);
    } else {
        lemma_loaded_count(slots, count - 1);
    }
}

proof fn lemma_loaded_count(slots: Seq<SectionSlot>, count: int)
    ensures
        layout_queries::loaded_sizes(slots, count).len() == loaded_count(slots, count),
    decreases count,
{
    if count > 0 {
        lemma_loaded_count(slots, count - 1);
    }
}

/// A reference that hides a symbol makes the definition local, and one that protects it keeps others
/// from replacing it unless they define it. Other symbols do not change, nor does anything if the name
/// stands for no symbol.
pub proof fn lemma_references_hide_definitions<'data>(
    before: Canonical<'data>,
    name: Seq<u8>,
    visibility: Visibility,
    other: int,
)
    requires
        before.wf(),
        0 <= other < before.flags.len(),
    ensures
        ({
            let after = before.hidden(name, visibility);
            let definition = before.definitions[before.names[name] as int].0 as int;
            &&& after == Canonical { flags: after.flags, ..before }
            &&& visibility is Default || !before.names.contains_key(name) ==> after == before
            &&& before.names.contains_key(name) && other != definition ==> after.flags[other]
                == before.flags[other]
            &&& before.names.contains_key(name) && visibility is Hidden
                ==> after.flags[definition].downgrade_to_local
                && after.flags[definition].non_interposable
            &&& before.names.contains_key(name) && visibility is Protected
                && !before.flags[definition].dynamic ==> after.flags[definition].non_interposable
                && after.flags[definition].downgrade_to_local
                == before.flags[definition].downgrade_to_local
            &&& before.names.contains_key(name) && visibility is Protected
                && before.flags[definition].dynamic ==> after == before
        }),
{
    if before.names.contains_key(name) {
        let definition = before.definitions[before.names[name] as int].0 as int;
        assert(0 <= definition < before.flags.len());
        let after = before.hidden(name, visibility);
        assert(visibility is Protected && before.flags[definition].dynamic ==> after.flags
            =~= before.flags);
    }
}

} // verus!
