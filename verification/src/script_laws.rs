//! What linker scripts say about addresses.
use crate::alignment::Alignment;
use crate::expression::{AssertCommand, Expression, SymbolLoc};
use crate::expression_eval;
use crate::expression_eval::{EnvView, EvalError, SymbolValue};
use crate::input_order;
use crate::layout_sections;
use crate::layout_state::{LayoutContext, LayoutError, LayoutState, LayoutView};
use crate::memory_regions;
use crate::memory_regions::{MemoryFlags, MemoryRegion};
use crate::output_sections::{OverlayPlacement, SectionOutputInfo};
use crate::placement_laws;
use crate::section_start;
use crate::section_start::SectionPlacement;
use vstd::prelude::*;

verus! {

/// Arithmetic is that of 64-bit numbers that wrap around. The inverse operations lead back, division
/// and remainder make up the dividend, and only a division by zero fails.
pub proof fn lemma_arithmetic<'data>(
    l: Expression<'data>,
    r: Expression<'data>,
    env: EnvView<'data>,
    a: u64,
    b: u64,
)
    requires
        expression_eval::value_of(l, env) == Ok::<u64, EvalError>(a),
        expression_eval::value_of(r, env) == Ok::<u64, EvalError>(b),
    ensures
        expression_eval::value_of(Expression::Add(&l, &r), env) matches Ok(sum) && sum == (a + b)
            % 0x1_0000_0000_0000_0000,
        expression_eval::value_of(Expression::Subtract(&l, &r), env) matches Ok(difference) && (b
            + difference) % 0x1_0000_0000_0000_0000 == a,
        expression_eval::value_of(Expression::Multiply(&l, &r), env) matches Ok(product) && product
            == (a * b) % 0x1_0000_0000_0000_0000,
        b == 0 ==> expression_eval::value_of(Expression::Divide(&l, &r), env) is Err
            && expression_eval::value_of(Expression::Modulo(&l, &r), env) is Err,
        b != 0 ==> (expression_eval::value_of(Expression::Divide(&l, &r), env) matches Ok(quotient)
            && quotient == a / b),
        b != 0 ==> (expression_eval::value_of(Expression::Modulo(&l, &r), env) matches Ok(remainder)
            && remainder == a % b),
{
    vstd::arithmetic::mul::lemma_mul_nonnegative(a as int, b as int);
}

/// Comparisons are 1 if they hold and 0 otherwise, and the least and the greatest of two values are
/// one of them.
pub proof fn lemma_comparisons<'data>(
    l: Expression<'data>,
    r: Expression<'data>,
    env: EnvView<'data>,
    a: u64,
    b: u64,
)
    requires
        expression_eval::value_of(l, env) == Ok::<u64, EvalError>(a),
        expression_eval::value_of(r, env) == Ok::<u64, EvalError>(b),
    ensures
        expression_eval::value_of(Expression::LessThan(&l, &r), env) == Ok::<u64, EvalError>(
            if a < b {
                1
            } else {
                0
            },
        ),
        expression_eval::value_of(Expression::GreaterThan(&l, &r), env) == Ok::<u64, EvalError>(
            if b < a {
                1
            } else {
                0
            },
        ),
        expression_eval::value_of(Expression::LessEqual(&l, &r), env) == Ok::<u64, EvalError>(
            if a <= b {
                1
            } else {
                0
            },
        ),
        expression_eval::value_of(Expression::GreaterEqual(&l, &r), env) == Ok::<u64, EvalError>(
            if b <= a {
                1
            } else {
                0
            },
        ),
        expression_eval::value_of(Expression::Equal(&l, &r), env) == Ok::<u64, EvalError>(
            if a == b {
                1
            } else {
                0
            },
        ),
        expression_eval::value_of(Expression::NotEqual(&l, &r), env) == Ok::<u64, EvalError>(
            if a == b {
                0
            } else {
                1
            },
        ),
        expression_eval::value_of(Expression::Min(&l, &r), env) matches Ok(least) && least <= a
            && least <= b && (least == a || least == b),
        expression_eval::value_of(Expression::Max(&l, &r), env) matches Ok(greatest) && greatest
            >= a && greatest >= b && (greatest == a || greatest == b),
{
}

/// If an operand has no value, neither has an expression that uses it; the error of the left operand
/// is reported.
pub proof fn lemma_errors_are_reported<'data>(
    l: Expression<'data>,
    r: Expression<'data>,
    env: EnvView<'data>,
)
    requires
        expression_eval::value_of(l, env) is Err,
    ensures
        expression_eval::value_of(Expression::Add(&l, &r), env) == expression_eval::value_of(l, env),
        expression_eval::value_of(Expression::Add(&r, &l), env) is Err,
        expression_eval::value_of(Expression::Multiply(&l, &r), env) == expression_eval::value_of(
            l,
            env,
        ),
        expression_eval::value_of(Expression::Multiply(&r, &l), env) is Err,
        expression_eval::value_of(Expression::Align(&l, Some(&r)), env)
            == expression_eval::value_of(l, env),
        expression_eval::value_of(Expression::Align(&r, Some(&l)), env) is Err,
        expression_eval::value_of(Expression::Log2Ceil(&l), env) is Err,
        expression_eval::value_of(Expression::Absolute(&l), env) == expression_eval::value_of(
            l,
            env,
        ),
{
}

/// `ALIGN` gives the next multiple of the alignment, of a value or of the location counter. An
/// alignment of zero changes nothing.
pub proof fn lemma_align<'data>(
    alignment: Expression<'data>,
    value: Expression<'data>,
    env: EnvView<'data>,
    a: u64,
    v: u64,
)
    requires
        expression_eval::value_of(alignment, env) == Ok::<u64, EvalError>(a),
        expression_eval::value_of(value, env) == Ok::<u64, EvalError>(v),
    ensures
        a == 0 ==> expression_eval::value_of(Expression::Align(&alignment, Some(&value)), env)
            == Ok::<u64, EvalError>(v),
        a != 0 ==> (expression_eval::value_of(
            Expression::Align(&alignment, Some(&value)),
            env,
        ) matches Ok(aligned) ==> placement_laws::is_next_multiple(
            aligned as int,
            v as int,
            a as int,
        )),
        a != 0 && v + a <= u64::MAX ==> expression_eval::value_of(
            Expression::Align(&alignment, Some(&value)),
            env,
        ) is Ok,
        env.location == Some(v) ==> expression_eval::value_of(
            Expression::Align(&alignment, None),
            env,
        ) == expression_eval::value_of(Expression::Align(&alignment, Some(&value)), env),
{
    if a != 0 {
        crate::alignment::lemma_round_up(v as int, a as int);
    }
}

/// Numbers, `.` and symbols stand for their values. The value of a symbol in a part is the address of
/// the part plus its offset; before the part has an address it has none.
pub proof fn lemma_plain_values<'data>(env: EnvView<'data>, value: u64, name: &'data [u8])
    ensures
        expression_eval::value_of(Expression::Number(value), env) == Ok::<u64, EvalError>(value),
        env.location matches Some(location) ==> expression_eval::value_of(
            Expression::LocationCounter,
            env,
        ) == Ok::<u64, EvalError>(location),
        env.location is None ==> expression_eval::value_of(Expression::LocationCounter, env)
            == Ok::<u64, EvalError>(0),
        !env.symbols.contains_key(name@) ==> expression_eval::value_of(
            Expression::Symbol(name),
            env,
        ) is Err,
        env.symbols.contains_key(name@) ==> match env.symbols[name@] {
            SymbolValue::Absolute(own) => expression_eval::value_of(Expression::Symbol(name), env)
                == Ok::<u64, EvalError>(own),
            SymbolValue::PartRelative { part_id, offset } => {
                let placed = env.part_offsets.contains_key(part_id.0)
                    && env.part_offsets[part_id.0] is Some;
                &&& !placed ==> expression_eval::value_of(Expression::Symbol(name), env) is Err
                &&& placed ==> (expression_eval::value_of(Expression::Symbol(name), env)
                    matches Ok(address) && address == (env.part_offsets[part_id.0]->0 + offset)
                    % 0x1_0000_0000_0000_0000)
            },
        },
        env.regions.contains_key(name@) ==> expression_eval::value_of(
            Expression::Origin(name),
            env,
        ) == Ok::<u64, EvalError>(env.regions[name@].origin) && expression_eval::value_of(
            Expression::Length(name),
            env,
        ) == Ok::<u64, EvalError>(env.regions[name@].length),
        !env.regions.contains_key(name@) ==> expression_eval::value_of(
            Expression::Origin(name),
            env,
        ) is Err && expression_eval::value_of(Expression::Length(name), env) is Err,
        expression_eval::value_of(Expression::SizeofHeaders, env) == Ok::<u64, EvalError>(
            env.sizeof_headers,
        ),
        expression_eval::value_of(Expression::SizeofNextSection, env) == Ok::<u64, EvalError>(
            env.next_section.1,
        ),
        expression_eval::value_of(Expression::AlignofNextSection, env) == Ok::<u64, EvalError>(
            env.next_section.0,
        ),
        env.sections.by_name(name@) matches Some(id) ==> expression_eval::value_of(
            Expression::Sizeof(name),
            env,
        ) == Ok::<u64, EvalError>(env.layouts[id.0 as int].mem_size),
        env.sections.by_name(name@) is None ==> expression_eval::value_of(
            Expression::Sizeof(name),
            env,
        ) == Ok::<u64, EvalError>(0),
{
}

/// An assertion fails if and only if its expression is zero.
pub proof fn lemma_assertions<'data>(
    inner: Expression<'data>,
    message: &'data [u8],
    env: EnvView<'data>,
    value: u64,
)
    requires
        expression_eval::value_of(inner, env) == Ok::<u64, EvalError>(value),
    ensures
        expression_eval::value_of(
            Expression::Assert(AssertCommand { expression: &inner, message }),
            env,
        ) is Err <==> value == 0,
{
}

/// `. = expression` has no effect but on where the next section goes, and on what the location counter
/// is remembered to be: the value of the expression.
pub proof fn lemma_location_is_set<'a, 'data>(
    s: LayoutView,
    ctx: &LayoutContext<'a, 'data>,
    expression: Expression<'data>,
    loc: SymbolLoc,
    index: usize,
    from: int,
    value: u64,
)
    requires
        index < s.resolved_lc.len(),
        !(loc is SectionEnd),
        LayoutState::evaluated(s, ctx, expression, LayoutState::location_value(s, loc), from)
            == Ok::<u64, LayoutError>(value),
    ensures
        layout_sections::set_location(s, ctx, expression, loc, index, from) matches Ok(t) && {
            &&& t.pending_location == Some(value)
            &&& t.resolved_lc[index as int].value == value
            &&& t.resolved_lc[index as int].section_offset is None
            &&& t.mem_offset == s.mem_offset
            &&& t.file_offset == s.file_offset
            &&& t.section_layouts == s.section_layouts
            &&& t.records == s.records
            &&& forall|k: int|
                0 <= k < s.resolved_lc.len() && k != index ==> #[trigger] t.resolved_lc[k]
                    == s.resolved_lc[k]
        },
{
}

/// Inside a section, a value that is not below its start is an address, and a smaller one an offset in
/// the section.
pub proof fn lemma_location_in_section<'a, 'data>(
    s: LayoutView,
    ctx: &LayoutContext<'a, 'data>,
    expression: Expression<'data>,
    id: crate::output_section_id::OutputSectionId,
    loc: SymbolLoc,
    index: usize,
    from: int,
    value: u64,
)
    requires
        index < s.resolved_lc.len(),
        LayoutState::evaluated(s, ctx, expression, LayoutState::location_value(s, loc), from)
            == Ok::<u64, LayoutError>(value),
    ensures
        ({
            let base = s.section_layouts[ctx.sections.primary(id).0 as int].mem_offset;
            layout_sections::set_location_relative(s, ctx, expression, id, loc, index, from)
                matches Ok(t) ==> {
                &&& value >= base ==> t.pending_location == Some(value)
                &&& value < base ==> (t.pending_location matches Some(address) && address == base
                    + value)
                &&& t.resolved_lc[index as int].section_offset matches Some(offset) && base + offset
                    == t.resolved_lc[index as int].value
                &&& Some(t.resolved_lc[index as int].value) == t.pending_location
                &&& t.mem_offset == s.mem_offset
                &&& t.file_offset == s.file_offset
            }
        }),
{
}

/// A section goes to the address that was asked for, and what is in the file moves by as much. An
/// address that lies behind is not followed, and outside of loaded segments addresses have no effect.
pub proof fn lemma_section_goes_to_address<'a, 'data>(
    s: LayoutView,
    ctx: &LayoutContext<'a, 'data>,
    placement: SectionPlacement<'data>,
    region: Option<MemoryRegion>,
    address: u64,
    t: LayoutView,
    follow: bool,
)
    requires
        section_start::location_step(s, ctx, placement, region, Some(address)) == Ok::<
            _,
            LayoutError,
        >((t, follow)),
    ensures
        address < s.mem_offset ==> t == s && !follow,
        address >= s.mem_offset && s.load_segment_depth == 0 ==> t == s,
        address >= s.mem_offset && s.load_segment_depth > 0 ==> {
            &&& t.mem_offset == address
            &&& t.file_offset == s.file_offset || t.file_offset - s.file_offset == address
                - s.mem_offset
            &&& placement.section_id == placement.target && !ctx.sections.info(
                placement.target,
            ).section_attributes.no_bits ==> t.file_offset - s.file_offset == address
                - s.mem_offset
            &&& ctx.sections.info(placement.target).section_attributes.no_bits ==> t.file_offset
                == s.file_offset
        },
        address >= s.mem_offset ==> follow == placement.follow_location_counter,
        t.lma_offset == s.lma_offset,
{
}

/// A section with an address that a region does not hold is refused.
pub proof fn lemma_addresses_stay_in_region<'a, 'data>(
    s: LayoutView,
    ctx: &LayoutContext<'a, 'data>,
    placement: SectionPlacement<'data>,
    region: MemoryRegion,
    address: u64,
)
    requires
        placement.info.location_info matches Some(location) && location.is_top_level,
        address < s.mem_offset || address > s.mem_offset + region.length,
    ensures
        section_start::location_step(s, ctx, placement, Some(region), Some(address)) is Err,
{
}

/// Sections of a region follow each other: the next one starts where the last one ended, and none ends
/// outside of the region.
pub proof fn lemma_sections_follow_in_region<'data>(
    s: LayoutView,
    name: &'data [u8],
    t: LayoutView,
)
    requires
        s.regions.contains_key(name@),
        layout_sections::leave_region(s, Some(name)) == Ok::<_, LayoutError>(t),
    ensures
        ({
            let region = s.regions[name@];
            &&& region.origin <= s.mem_offset
            &&& s.mem_offset <= region.origin + region.length
            &&& section_start::region_step(t, Some(name)) matches Ok(next) && next.mem_offset
                == s.mem_offset
            &&& t.regions.dom() == s.regions.dom()
            &&& t.regions[name@].origin == region.origin && t.regions[name@].length
                == region.length && t.regions[name@].flags == region.flags
            &&& forall|other: Seq<u8>|
                other != name@ && s.regions.contains_key(other) ==> #[trigger] t.regions[other]
                    == s.regions[other]
            &&& t.mem_offset == s.mem_offset
        }),
{
    assert(t.regions.dom() =~= s.regions.dom());
}

/// A section that ends behind its region is reported with the number of bytes that are too many.
pub proof fn lemma_full_regions_are_reported<'data>(s: LayoutView, name: &'data [u8])
    requires
        s.regions.contains_key(name@),
        s.regions[name@].origin + s.regions[name@].length <= u64::MAX,
        s.mem_offset > s.regions[name@].origin + s.regions[name@].length,
    ensures
        layout_sections::leave_region(s, Some(name)) matches Err(
            LayoutError::RegionOverflowed { region, bytes },
        ) && region == name && s.regions[name@].origin + s.regions[name@].length + bytes
            == s.mem_offset,
{
}

/// Load addresses follow each other in their region too.
pub proof fn lemma_load_addresses_follow_in_region<'data>(s: LayoutView, name: &'data [u8])
    requires
        s.regions.contains_key(name@),
        s.regions[name@].origin <= s.lma_offset,
    ensures
        section_start::load_region_step(
            layout_sections::leave_load_region(s, Some(name)),
            Some(name),
        ) matches Ok(next) && next.lma_offset == s.lma_offset,
        layout_sections::leave_load_region(s, Some(name)).mem_offset == s.mem_offset,
{
}

/// A section in no region of its own load address is loaded where it runs.
pub proof fn lemma_load_address_is_address(s: LayoutView, info: SectionOutputInfo)
    requires
        info.location_info is None,
    ensures
        section_start::load_address_step(s, info, None).lma_offset == s.mem_offset,
        section_start::load_address_step(s, info, None).mem_offset == s.mem_offset,
        section_start::load_address_step(s, info, None).file_offset == s.file_offset,
{
}

/// All members of an overlay have the address of its first member, and their load addresses follow
/// each other.
pub proof fn lemma_overlay_members_share_address(
    s: LayoutView,
    later: LayoutView,
    group: u32,
    member: u32,
    is_last: bool,
    first_is_last: bool,
)
    requires
        member != 0,
        later.overlay_vma == section_start::overlay_step(
            s,
            Some(OverlayPlacement { group, member: 0, is_last: first_is_last }),
        ).overlay_vma,
    ensures
        ({
            let entered = section_start::overlay_step(
                later,
                Some(OverlayPlacement { group, member, is_last }),
            );
            &&& entered.mem_offset == s.mem_offset
            &&& later.overlay_lma_end.contains_key(group as u64) ==> entered.lma_offset
                == later.overlay_lma_end[group as u64]
        }),
{
}

/// After a member of an overlay, memory goes back to where the overlay starts. After the last one it
/// goes behind the largest member.
pub proof fn lemma_overlay_takes_space_of_largest<'data>(
    s: LayoutView,
    placement: OverlayPlacement,
    size: u64,
    t: LayoutView,
)
    requires
        s.overlay_vma.contains_key(placement.group as u64),
        layout_sections::leave_overlay(s, Some(placement), size) == Ok::<_, LayoutError<'data>>(t),
    ensures
        ({
            let group = placement.group as u64;
            let start = s.overlay_vma[group];
            let largest = t.overlay_max_size[group];
            &&& size <= largest
            &&& s.overlay_max_size.contains_key(group) ==> s.overlay_max_size[group] <= largest
            &&& largest == size || s.overlay_max_size.contains_key(group) && largest
                == s.overlay_max_size[group]
            &&& !placement.is_last ==> t.mem_offset == start
            &&& placement.is_last ==> t.mem_offset == start + largest
            &&& t.overlay_lma_end.contains_key(group) && t.overlay_lma_end[group] == s.lma_offset
        }),
{
}

/// Sections that take up thread-local address space only do not move what comes after them.
pub proof fn lemma_thread_local_space_overlaps(
    s: LayoutView,
    inner: LayoutView,
    local: SectionOutputInfo,
    next: SectionOutputInfo,
)
    requires
        local.section_attributes.tls_address_space_only,
        !next.section_attributes.tls_address_space_only,
        s.tls_memsave is None,
        inner.tls_memsave == section_start::thread_local_step(s, local).tls_memsave,
    ensures
        section_start::thread_local_step(s, local).mem_offset == s.mem_offset,
        section_start::thread_local_step(inner, next).mem_offset == s.mem_offset,
        section_start::thread_local_step(inner, next).tls_memsave is None,
        section_start::thread_local_step(s, next) == s,
{
}

/// A section may go into a region unless the flags of the region rule out what the section needs.
pub proof fn lemma_flags_of_regions(flags: MemoryFlags, writable: bool, executable: bool)
    ensures
        memory_regions::flags_admit(None, writable, executable),
        memory_regions::flags_admit(Some(flags), false, false),
        memory_regions::flags_admit(Some(flags), writable, executable) <==> !(writable
            && !flags.write) && !(executable && !flags.execute),
{
}

/// A section without a region of its own goes into the first one that admits it.
pub proof fn lemma_first_region_is_taken<'data>(
    regions: Map<Seq<u8>, MemoryRegion>,
    order: Seq<&'data [u8]>,
    writable: bool,
    executable: bool,
    from: int,
)
    requires
        0 <= from <= order.len(),
    ensures
        memory_regions::first_admitting(regions, order, writable, executable, from)
            matches Some(position) ==> {
            &&& from <= position < order.len()
            &&& regions.contains_key(order[position]@)
            &&& memory_regions::flags_admit(regions[order[position]@].flags, writable, executable)
            &&& forall|i: int|
                from <= i < position && regions.contains_key((#[trigger] order[i])@)
                    ==> !memory_regions::flags_admit(regions[order[i]@].flags, writable, executable)
        },
        memory_regions::first_admitting(regions, order, writable, executable, from) is None
            ==> forall|i: int|
            from <= i < order.len() && regions.contains_key((#[trigger] order[i])@)
                ==> !memory_regions::flags_admit(regions[order[i]@].flags, writable, executable),
    decreases order.len() - from,
{
    if from < order.len() {
        lemma_first_region_is_taken(regions, order, writable, executable, from + 1);
    }
}

/// A section that is not allocated goes into no region by itself.
pub proof fn lemma_unallocated_sections_in_no_region<'data>(
    regions: Map<Seq<u8>, MemoryRegion>,
    order: Seq<&'data [u8]>,
    writable: bool,
    executable: bool,
)
    ensures
        memory_regions::compatible_region(regions, order, false, writable, executable) is None,
        memory_regions::compatible_region(regions, order, true, writable, executable) is Some
            <==> memory_regions::first_admitting(regions, order, writable, executable, 0) is Some,
{
}

/// Inputs that are placed one after the other, each at its own alignment, take up at least their sizes,
/// and the last one ends where they all end.
pub proof fn lemma_inputs_are_packed(start: u64, inputs: Seq<(Alignment, u64)>)
    requires
        inputs.len() > 0,
        input_order::packed_end(start, inputs) is Some,
    ensures
        input_order::packed_end(start, inputs.drop_last()) is Some,
        ({
            let before = input_order::packed_end(start, inputs.drop_last())->0;
            let end = input_order::packed_end(start, inputs)->0;
            let (alignment, size) = inputs.last();
            &&& end >= size
            &&& placement_laws::is_next_multiple(
                end - size,
                before as int,
                alignment.bytes(),
            )
        }),
{
    let before = input_order::packed_end(start, inputs.drop_last())->0;
    let alignment = inputs.last().0;
    alignment.lemma_bytes_positive(alignment);
    crate::alignment::lemma_round_up(before as int, alignment.bytes());
}

} // verus!
