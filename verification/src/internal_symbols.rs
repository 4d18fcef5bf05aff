//! Symbols that the linker defines, and symbols that expressions refer to.
use crate::expression::Expression;
use crate::hash_maps::NameMap;
use crate::output_section_id::OutputSectionId;
use crate::output_section_map::OutputSectionMap;
use crate::output_section_part_map::OutputSectionPartMap;
use crate::output_sections::{OutputSections, SectionKind};
use crate::program_segments::ProgramSegments;
use crate::record_layout::OutputRecordLayout;
use crate::resolution;
use crate::resolution::{create_resolution, EntryParts, Resolution, ResolutionError};
use crate::segment_layout::SegmentLayout;
use crate::symbol_id::{SymbolId, SymbolIdRange};
use crate::value_flags::ValueFlags;
use vstd::prelude::*;

verus! {

/// What a symbol that the linker defines stands for.
#[derive(Clone, Copy, Debug)]
pub enum SymbolPlacement<'data> {
    Undefined,
    ForceUndefined,
    PlatformSpecific,
    SectionStart(OutputSectionId),
    SectionEnd(OutputSectionId),
    /// The end of a section and of all sections that are merged into it.
    SectionGroupEnd(OutputSectionId),
    /// The value of an expression, which is computed when all symbols have addresses.
    Redirect(Expression<'data>),
    /// The start of the first segment that is loaded.
    LoadBaseAddress,
}

/// What addresses of symbols that the linker defines depend on.
pub struct InternalContext<'a, 'data> {
    pub sections: &'a OutputSections<'data>,
    pub section_layouts: &'a OutputSectionMap<OutputRecordLayout>,
    pub segment_layouts: &'a Vec<SegmentLayout>,
    pub segments: &'a ProgramSegments,
}

impl<'a, 'data> InternalContext<'a, 'data> {
    pub open spec fn wf(&self) -> bool {
        &&& self.sections.wf()
        &&& self.section_layouts@.len() == self.sections.count()
        &&& forall|i: int|
            0 <= i < self.section_layouts@.len() ==> (#[trigger] self.section_layouts@[i]).in_range()
        &&& forall|i: int|
            0 <= i < self.segment_layouts@.len() ==> self.segments.has(
                (#[trigger] self.segment_layouts@[i]).id,
            )
    }
}


/// The end of a section and of those of the first `count` sections that are merged into it.
pub open spec fn group_end<'data>(
    sections: &OutputSections<'data>,
    layouts: Seq<OutputRecordLayout>,
    id: OutputSectionId,
    count: int,
) -> int
    decreases count,
{
    if count <= 0 {
        layouts[id.0 as int].spec_mem_end()
    } else {
        let before = group_end(sections, layouts, id, count - 1);
        if sections.infos()[count - 1].kind matches SectionKind::Secondary(primary) && primary == id
            && layouts[count - 1].spec_mem_end() > before {
            layouts[count - 1].spec_mem_end()
        } else {
            before
        }
    }
}

/// The address of the first segment from the given position on that is loaded.
pub open spec fn first_loaded(
    layouts: Seq<SegmentLayout>,
    segments: &ProgramSegments,
    from: int,
) -> Option<u64>
    decreases layouts.len() - from,
{
    if from >= layouts.len() {
        None
    } else if segments.def(layouts[from].id).loadable {
        Some(layouts[from].sizes.mem_offset)
    } else {
        first_loaded(layouts, segments, from + 1)
    }
}

/// The value of a symbol that the linker defines. `None` if there is no segment for it to be in.
pub open spec fn placement_value<'a, 'data>(
    ctx: &InternalContext<'a, 'data>,
    placement: SymbolPlacement<'data>,
) -> Option<u64> {
    match placement {
        SymbolPlacement::Undefined
        | SymbolPlacement::ForceUndefined
        | SymbolPlacement::PlatformSpecific
        | SymbolPlacement::Redirect(_) => Some(0),
        SymbolPlacement::SectionStart(id) => Some(ctx.section_layouts@[id.0 as int].mem_offset),
        SymbolPlacement::SectionEnd(id) => Some(
            ctx.section_layouts@[id.0 as int].spec_mem_end() as u64,
        ),
        SymbolPlacement::SectionGroupEnd(id) => Some(
            group_end(ctx.sections, ctx.section_layouts@, id, ctx.sections.count()) as u64,
        ),
        SymbolPlacement::LoadBaseAddress => first_loaded(
            ctx.segment_layouts@,
            ctx.segments,
            0,
        ),
    }
}

/// Whether the section that a symbol marks exists.
pub open spec fn placement_wf<'data>(
    placement: SymbolPlacement<'data>,
    sections: &OutputSections<'data>,
) -> bool {
    match placement {
        SymbolPlacement::SectionStart(id) => sections.has(id),
        SymbolPlacement::SectionEnd(id) => sections.has(id),
        SymbolPlacement::SectionGroupEnd(id) => sections.has(id),
        _ => true,
    }
}

fn find_group_end<'a, 'data>(ctx: &InternalContext<'a, 'data>, id: OutputSectionId) -> (end: u64)
    requires
        ctx.wf(),
        ctx.sections.has(id),
    ensures
        end == group_end(ctx.sections, ctx.section_layouts@, id, ctx.sections.count()),
{
    assert(ctx.section_layouts@[id.0 as int].in_range());
    let mut end: u64 = ctx.section_layouts.get(id).mem_end();
    let count: usize = ctx.sections.num_sections();
    let mut i: usize = 0;
    while i < count
        invariant
            i <= count,
            count == ctx.sections.count(),
            ctx.wf(),
            end == group_end(ctx.sections, ctx.section_layouts@, id, i as int),
        decreases count - i,
    {
        assert(ctx.sections.platform.base_part(ctx.sections.count()) <= u32::MAX);
        let other: OutputSectionId = OutputSectionId(i as u32);
        assert(ctx.section_layouts@[other.0 as int].in_range());
        if let SectionKind::Secondary(primary) = ctx.sections.output_info(other).kind {
            if primary.0 == id.0 {
                let candidate: u64 = ctx.section_layouts.get(other).mem_end();
                if candidate > end {
                    end = candidate;
                }
            }
        }
        i = i + 1;
    }
    end
}

fn find_first_loaded(layouts: &Vec<SegmentLayout>, segments: &ProgramSegments) -> (address: Option<
    u64,
>)
    requires
        forall|i: int| 0 <= i < layouts@.len() ==> segments.has((#[trigger] layouts@[i]).id),
    ensures
        address == first_loaded(layouts@, segments, 0),
{
    let mut i: usize = 0;
    while i < layouts.len()
        invariant
            i <= layouts@.len(),
            forall|i: int| 0 <= i < layouts@.len() ==> segments.has((#[trigger] layouts@[i]).id),
            first_loaded(layouts@, segments, 0) == first_loaded(layouts@, segments, i as int),
        decreases layouts@.len() - i,
    {
        if segments.segment_def(layouts[i].id).loadable {
            return Some(layouts[i].sizes.mem_offset);
        }
        i = i + 1;
    }
    None
}

/// The value of a symbol that the linker defines.
pub fn internal_symbol_value<'a, 'data>(
    ctx: &InternalContext<'a, 'data>,
    placement: SymbolPlacement<'data>,
) -> (value: Option<u64>)
    requires
        ctx.wf(),
        placement_wf(placement, ctx.sections),
    ensures
        value == placement_value(ctx, placement),
{
    match placement {
        SymbolPlacement::Undefined
        | SymbolPlacement::ForceUndefined
        | SymbolPlacement::PlatformSpecific
        | SymbolPlacement::Redirect(_) => Some(0),
        SymbolPlacement::SectionStart(id) => Some(ctx.section_layouts.get(id).mem_offset),
        SymbolPlacement::SectionEnd(id) => {
            assert(ctx.section_layouts@[id.0 as int].in_range());
            Some(ctx.section_layouts.get(id).mem_end())
        },
        SymbolPlacement::SectionGroupEnd(id) => Some(find_group_end(ctx, id)),
        SymbolPlacement::LoadBaseAddress => find_first_loaded(ctx.segment_layouts, ctx.segments),
    }
}

/// The resolution of a symbol that the linker defines, and the offsets after it. Symbols without a
/// name, symbols that are defined elsewhere, and symbols that nothing needs have none.
pub open spec fn internal_resolved<'a, 'data>(
    ctx: &InternalContext<'a, 'data>,
    has_name: bool,
    canonical: bool,
    flags: ValueFlags,
    placement: SymbolPlacement<'data>,
    offsets: Map<u32, u64>,
    parts: EntryParts,
) -> Result<(Option<Resolution>, Map<u32, u64>), ResolutionError> {
    if !has_name || !canonical || !flags.spec_has_resolution() {
        Ok((None, offsets))
    } else {
        match placement_value(ctx, placement) {
            None => Ok((None, offsets)),
            Some(value) => match resolution::resolution_created(
                flags,
                value,
                None,
                offsets,
                parts,
            ) {
                Err(error) => Err(error),
                Ok((created, after)) => Ok((Some(created), after)),
            },
        }
    }
}

/// Creates the resolution of a symbol that the linker defines.
pub fn create_internal_symbol_resolution<'a, 'data>(
    ctx: &InternalContext<'a, 'data>,
    has_name: bool,
    canonical: bool,
    flags: ValueFlags,
    placement: SymbolPlacement<'data>,
    memory_offsets: &mut OutputSectionPartMap<u64>,
    parts: EntryParts,
) -> (result: Result<Option<Resolution>, ResolutionError>)
    requires
        ctx.wf(),
        placement_wf(placement, ctx.sections),
        old(memory_offsets).wf(),
    ensures
        final(memory_offsets).wf(),
        final(memory_offsets).dense() == old(memory_offsets).dense(),
        match (
            result,
            internal_resolved(
                ctx,
                has_name,
                canonical,
                flags,
                placement,
                old(memory_offsets)@,
                parts,
            ),
        ) {
            (Ok(resolution), Ok((expected, after))) => resolution == expected && final(memory_offsets)@ == after,
            (Err(error), Err(expected)) => error == expected,
            _ => false,
        },
{
    if !has_name || !canonical || !flags.has_resolution() {
        return Ok(None);
    }
    let value: u64 = match internal_symbol_value(ctx, placement) {
        Some(value) => value,
        None => {
            return Ok(None);
        },
    };
    match create_resolution(flags, value, None, memory_offsets, parts) {
        Ok(resolution) => Ok(Some(resolution)),
        Err(error) => Err(error),
    }
}

/// The resolutions of the first `count` symbols of a library, and the offsets after them. They have
/// no value of their own, only entries.
pub open spec fn library_resolutions(
    range: SymbolIdRange,
    flags: Seq<ValueFlags>,
    definitions: Seq<SymbolId>,
    offsets: Map<u32, u64>,
    parts: EntryParts,
    count: int,
) -> Result<(Seq<Option<Resolution>>, Map<u32, u64>), ResolutionError>
    decreases count,
{
    if count <= 0 {
        Ok((Seq::empty(), offsets))
    } else {
        match library_resolutions(range, flags, definitions, offsets, parts, count - 1) {
            Err(error) => Err(error),
            Ok((resolutions, before)) => {
                let id = range.id_at(count - 1);
                if flags[id.0 as int].spec_has_resolution() && definitions[id.0 as int] == id {
                    match resolution::resolution_created(
                        flags[id.0 as int],
                        0,
                        None,
                        before,
                        parts,
                    ) {
                        Err(error) => Err(error),
                        Ok((created, after)) => Ok((resolutions.push(Some(created)), after)),
                    }
                } else {
                    Ok((resolutions.push(None), before))
                }
            },
        }
    }
}

proof fn lemma_library_error(
    range: SymbolIdRange,
    flags: Seq<ValueFlags>,
    definitions: Seq<SymbolId>,
    offsets: Map<u32, u64>,
    parts: EntryParts,
    count: int,
    total: int,
)
    requires
        0 <= count <= total,
        library_resolutions(range, flags, definitions, offsets, parts, count) is Err,
    ensures
        library_resolutions(range, flags, definitions, offsets, parts, total)
            == library_resolutions(range, flags, definitions, offsets, parts, count),
    decreases total - count,
{
    if count < total {
        lemma_library_error(range, flags, definitions, offsets, parts, count + 1, total);
    }
}

/// Creates the resolutions of the symbols of a library. One is written for every symbol.
pub fn default_create_resolutions(
    memory_offsets: &mut OutputSectionPartMap<u64>,
    symbol_id_range: SymbolIdRange,
    flags: &Vec<ValueFlags>,
    definitions: &Vec<SymbolId>,
    parts: EntryParts,
) -> (result: Result<Vec<Option<Resolution>>, ResolutionError>)
    requires
        old(memory_offsets).wf(),
        symbol_id_range.wf(),
        symbol_id_range.start_symbol_id.0 + symbol_id_range.num_symbols <= flags@.len(),
        flags@.len() == definitions@.len(),
    ensures
        final(memory_offsets).wf(),
        final(memory_offsets).dense() == old(memory_offsets).dense(),
        match (
            result,
            library_resolutions(
                symbol_id_range,
                flags@,
                definitions@,
                old(memory_offsets)@,
                parts,
                symbol_id_range.num_symbols as int,
            ),
        ) {
            (Ok(resolutions), Ok((expected, after))) => resolutions@ == expected && final(memory_offsets)@ == after,
            (Err(error), Err(expected)) => error == expected,
            _ => false,
        },
{
    let ghost before = memory_offsets@;
    let mut resolutions: Vec<Option<Resolution>> = Vec::new();
    let count: usize = symbol_id_range.len();
    let mut i: usize = 0;
    while i < count
        invariant
            i <= count,
            count == symbol_id_range.num_symbols,
            before == old(memory_offsets)@,
            memory_offsets.wf(),
            memory_offsets.dense() == old(memory_offsets).dense(),
            symbol_id_range.wf(),
            symbol_id_range.start_symbol_id.0 + symbol_id_range.num_symbols <= flags@.len(),
            flags@.len() == definitions@.len(),
            library_resolutions(
                symbol_id_range,
                flags@,
                definitions@,
                before,
                parts,
                i as int,
            ) == Ok::<_, ResolutionError>((resolutions@, memory_offsets@)),
        decreases count - i,
    {
        let id: SymbolId = symbol_id_range.offset_to_id(i);
        let index: usize = id.as_usize();
        if flags[index].has_resolution() && definitions[index].0 == id.0 {
            match create_resolution(flags[index], 0, None, memory_offsets, parts) {
                Ok(resolution) => {
                    resolutions.push(Some(resolution));
                },
                Err(error) => {
                    proof {
                        lemma_library_error(
                            symbol_id_range,
                            flags@,
                            definitions@,
                            before,
                            parts,
                            i + 1,
                            count as int,
                        );
                    }
                    return Err(error);
                },
            }
        } else {
            resolutions.push(None);
        }
        i = i + 1;
    }
    Ok(resolutions)
}

/// The names of the symbols that an expression refers to, from left to right.
pub open spec fn symbol_names(expression: Expression) -> Seq<Seq<u8>>
    decreases expression,
{
    match expression {
        Expression::Symbol(name) => seq![name@],
        Expression::Absolute(inner) | Expression::Log2Ceil(inner) => symbol_names(*inner),
        Expression::Assert(command) => symbol_names(*command.expression),
        Expression::Align(alignment, value) => match value {
            Some(value) => symbol_names(*alignment) + symbol_names(*value),
            None => symbol_names(*alignment),
        },
        Expression::Add(l, r)
        | Expression::Subtract(l, r)
        | Expression::Multiply(l, r)
        | Expression::Divide(l, r)
        | Expression::Modulo(l, r)
        | Expression::LessThan(l, r)
        | Expression::GreaterThan(l, r)
        | Expression::LessEqual(l, r)
        | Expression::GreaterEqual(l, r)
        | Expression::Equal(l, r)
        | Expression::NotEqual(l, r)
        | Expression::Min(l, r)
        | Expression::Max(l, r) => symbol_names(*l) + symbol_names(*r),
        _ => Seq::empty(),
    }
}

/// The contents of a list of names.
pub open spec fn names_of(names: Seq<&[u8]>) -> Seq<Seq<u8>> {
    Seq::new(names.len(), |i: int| names[i]@)
}

impl<'data> Expression<'data> {
    /// Adds the names of the symbols that the expression refers to.
    pub fn collect_symbol_names(&self, names: &mut Vec<&'data [u8]>)
        ensures
            names_of(final(names)@) == names_of(old(names)@) + symbol_names(*self),
        decreases *self,
    {
        let ghost before = names_of(names@);
        match *self {
            Expression::Symbol(name) => {
                names.push(name);
                assert(names_of(names@) =~= before + seq![name@]);
            },
            Expression::Absolute(inner) | Expression::Log2Ceil(inner) => {
                inner.collect_symbol_names(names);
            },
            Expression::Assert(command) => {
                command.expression.collect_symbol_names(names);
            },
            Expression::Align(alignment, value) => {
                alignment.collect_symbol_names(names);
                if let Some(value) = value {
                    value.collect_symbol_names(names);
                    assert(names_of(names@) =~= before + (symbol_names(*alignment) + symbol_names(
                        *value,
                    )));
                }
            },
            Expression::Add(l, r)
            | Expression::Subtract(l, r)
            | Expression::Multiply(l, r)
            | Expression::Divide(l, r)
            | Expression::Modulo(l, r)
            | Expression::LessThan(l, r)
            | Expression::GreaterThan(l, r)
            | Expression::LessEqual(l, r)
            | Expression::GreaterEqual(l, r)
            | Expression::Equal(l, r)
            | Expression::NotEqual(l, r)
            | Expression::Min(l, r)
            | Expression::Max(l, r) => {
                l.collect_symbol_names(names);
                r.collect_symbol_names(names);
                assert(names_of(names@) =~= before + (symbol_names(*l) + symbol_names(*r)));
            },
            _ => {
                assert(names_of(names@) =~= before + Seq::empty());
            },
        }
    }
}

/// What referring to the first `count` of some symbols asks for: the flags of all symbols
/// afterwards, and those that nothing has needed before.
pub open spec fn references_after(
    names: Seq<Seq<u8>>,
    symbols: Map<Seq<u8>, u64>,
    definitions: Seq<SymbolId>,
    flags: Seq<ValueFlags>,
    count: int,
) -> (Seq<ValueFlags>, Seq<SymbolId>)
    decreases count,
{
    if count <= 0 {
        (flags, Seq::empty())
    } else {
        let (before, loads) = references_after(names, symbols, definitions, flags, count - 1);
        let name = names[count - 1];
        if !symbols.contains_key(name) {
            (before, loads)
        } else {
            let id = definitions[symbols[name] as int];
            let old_flags = before[id.0 as int];
            (
                before.update(id.0 as int, ValueFlags { direct: true, ..old_flags }),
                if old_flags.spec_has_resolution() {
                    loads
                } else {
                    loads.push(id)
                },
            )
        }
    }
}

/// Whether names stand for symbols that exist.
pub open spec fn symbols_exist(symbols: Map<Seq<u8>, u64>, definitions: Seq<SymbolId>) -> bool {
    &&& forall|name: Seq<u8>| #[trigger]
        symbols.contains_key(name) ==> symbols[name] < definitions.len()
    &&& forall|i: int|
        0 <= i < definitions.len() ==> (#[trigger] definitions[i]).0 < definitions.len()
}

/// Marks the symbols that an expression refers to as needed, so that they are not collected as
/// garbage. Returns those that have to be loaded. Names that no symbol has are skipped.
pub fn load_expression_referenced_symbols<'data>(
    expression: &Expression<'data>,
    symbols: &NameMap,
    definitions: &Vec<SymbolId>,
    flags: &mut Vec<ValueFlags>,
) -> (loads: Vec<SymbolId>)
    requires
        symbols_exist(symbols@, definitions@),
        old(flags)@.len() == definitions@.len(),
    ensures
        (final(flags)@, loads@) == references_after(
            symbol_names(*expression),
            symbols@,
            definitions@,
            old(flags)@,
            symbol_names(*expression).len() as int,
        ),
        final(flags)@.len() == old(flags)@.len(),
{
    let ghost before = flags@;
    let mut names: Vec<&'data [u8]> = Vec::new();
    expression.collect_symbol_names(&mut names);
    let ghost expected = symbol_names(*expression);
    assert(names_of(names@) =~= expected);
    let mut loads: Vec<SymbolId> = Vec::new();
    let mut i: usize = 0;
    while i < names.len()
        invariant
            i <= names@.len(),
            expected == symbol_names(*expression),
            names_of(names@) == expected,
            names@.len() == expected.len(),
            symbols_exist(symbols@, definitions@),
            before == old(flags)@,
            flags@.len() == definitions@.len(),
            before.len() == definitions@.len(),
            (flags@, loads@) == references_after(
                expected,
                symbols@,
                definitions@,
                before,
                i as int,
            ),
        decreases names@.len() - i,
    {
        assert(expected[i as int] == names@[i as int]@);
        if let Some(raw) = symbols.get(names[i]) {
            assert(symbols@.contains_key(expected[i as int]));
            let count: usize = definitions.len();
            assert(raw < count);
            let id: SymbolId = definitions[raw as usize];
            let index: usize = id.as_usize();
            assert(definitions@[raw as int].0 < definitions@.len());
            let mut symbol_flags: ValueFlags = flags[index];
            let mut direct: ValueFlags = ValueFlags::empty();
            direct.direct = true;
            let old_flags: ValueFlags = symbol_flags.fetch_or(direct);
            flags.set(index, symbol_flags);
            if !old_flags.has_resolution() {
                loads.push(id);
            }
        }
        i = i + 1;
    }
    loads
}

/// Marks a symbol that stands for an expression as needed, and the symbols that the expression
/// refers to. Returns those of the latter that have to be loaded.
pub fn load_redirect_referenced_symbols<'data>(
    symbol_id: SymbolId,
    expression: &Expression<'data>,
    symbols: &NameMap,
    definitions: &Vec<SymbolId>,
    flags: &mut Vec<ValueFlags>,
) -> (loads: Vec<SymbolId>)
    requires
        symbols_exist(symbols@, definitions@),
        old(flags)@.len() == definitions@.len(),
        symbol_id.0 < definitions@.len(),
    ensures
        (final(flags)@, loads@) == references_after(
            symbol_names(*expression),
            symbols@,
            definitions@,
            old(flags)@.update(
                symbol_id.0 as int,
                ValueFlags { direct: true, ..old(flags)@[symbol_id.0 as int] },
            ),
            symbol_names(*expression).len() as int,
        ),
        final(flags)@.len() == old(flags)@.len(),
{
    let index: usize = symbol_id.as_usize();
    let mut symbol_flags: ValueFlags = flags[index];
    symbol_flags.direct = true;
    flags.set(index, symbol_flags);
    load_expression_referenced_symbols(expression, symbols, definitions, flags)
}

/// Whether a definition refers to a symbol that does not exist. A conditional definition of that
/// kind is not made.
pub open spec fn missing_symbol<'data>(
    placement: SymbolPlacement<'data>,
    symbols: Map<Seq<u8>, u64>,
) -> bool {
    match placement {
        SymbolPlacement::Redirect(expression) => exists|i: int|
            0 <= i < symbol_names(expression).len() && !symbols.contains_key(
                #[trigger] symbol_names(expression)[i],
            ),
        _ => false,
    }
}

/// Whether a definition refers to a symbol that does not exist.
pub fn provide_has_missing_rhs<'data>(placement: &SymbolPlacement<'data>, symbols: &NameMap) -> (
missing: bool)
    ensures
        missing == missing_symbol(*placement, symbols@),
{
    let expression: Expression<'data> = match placement {
        SymbolPlacement::Redirect(expression) => *expression,
        _ => {
            return false;
        },
    };
    let mut names: Vec<&'data [u8]> = Vec::new();
    expression.collect_symbol_names(&mut names);
    let ghost expected = symbol_names(expression);
    assert(names_of(names@) =~= expected);
    let mut i: usize = 0;
    while i < names.len()
        invariant
            i <= names@.len(),
            names_of(names@) == expected,
            names@.len() == expected.len(),
            expected == symbol_names(expression),
            *placement == SymbolPlacement::Redirect(expression),
            forall|k: int| 0 <= k < i ==> symbols@.contains_key(#[trigger] expected[k]),
        decreases names@.len() - i,
    {
        assert(expected[i as int] == names@[i as int]@);
        if symbols.get(names[i]).is_none() {
            assert(!symbols@.contains_key(symbol_names(expression)[i as int]));
            return true;
        }
        i = i + 1;
    }
    false
}

} // verus!
