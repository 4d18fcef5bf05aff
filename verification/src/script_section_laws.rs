//! How linker scripts place sections, and what they know of the next one.
use crate::alignment::Alignment;
use crate::compute_layout;
use crate::expression::Expression;
use crate::input_order;
use crate::layout_sections;
use crate::layout_state;
use crate::layout_state::{LayoutContext, LayoutError, LayoutState, LayoutView};
use crate::memory_regions::MemoryRegion;
use crate::output_section_id::{OutputSectionId, PartId};
use crate::output_sections::SectionOutputInfo;
use crate::part_placement;
use crate::placement_laws;
use crate::record_layout::OutputRecordLayout;
use crate::section_start;
use crate::section_start::SectionPlacement;
use vstd::arithmetic::power2::*;
use vstd::prelude::*;

verus! {

/// A section that a script describes without an address goes to the next multiple of the largest
/// alignment of its inputs, in memory, when it is loaded, and in the file if it is there. Nothing else
/// is moved for inputs.
pub proof fn lemma_sections_are_placed_for_inputs<'a, 'data>(
    s: LayoutView,
    ctx: &LayoutContext<'a, 'data>,
    placement: SectionPlacement<'data>,
    after: LayoutView,
)
    requires
        section_start::input_alignment_step(s, ctx, placement) matches Ok(end) && end == after,
        forall|id: u64| #[trigger]
            ctx.input_exponents().contains_key(id) ==> ctx.input_exponents()[id] <= 16,
    ensures
        ({
            let key = placement.section_id.0 as u64;
            let described = placement.info.location_info matches Some(location)
                && location.is_top_level && location.location is None;
            let no_bits = ctx.sections.info(placement.target).section_attributes.no_bits;
            &&& described && ctx.input_exponents().contains_key(key) ==> {
                let value = pow2(ctx.input_exponents()[key] as nat) as int;
                &&& placement_laws::is_next_multiple(
                    after.mem_offset as int,
                    s.mem_offset as int,
                    value,
                )
                &&& placement_laws::is_next_multiple(
                    after.lma_offset as int,
                    s.lma_offset as int,
                    value,
                )
                &&& !no_bits ==> placement_laws::is_next_multiple(
                    after.file_offset as int,
                    s.file_offset as int,
                    value,
                )
                &&& no_bits ==> after.file_offset == s.file_offset
            }
            &&& !(described && ctx.input_exponents().contains_key(key)) ==> after == s
            &&& section_start::same_results(after, s)
        }),
{
    let key = placement.section_id.0 as u64;
    if ctx.input_exponents().contains_key(key) {
        let exponent = ctx.input_exponents()[key] as nat;
        Alignment::lemma_exp_of(exponent);
        let alignment = Alignment::of_exp(exponent);
        placement_laws::lemma_up_goes_to_next_multiple(alignment, s.mem_offset);
        placement_laws::lemma_up_goes_to_next_multiple(alignment, s.lma_offset);
        placement_laws::lemma_up_goes_to_next_multiple(alignment, s.file_offset);
    }
}

/// An address that a script has set is meant for the next section, and for that one only. Sections
/// that are not allocated and have an address of their own leave it to the one after them.
pub proof fn lemma_location_is_taken_once<'data>(s: LayoutView, target: SectionOutputInfo<'data>)
    ensures
        ({
            let (after, address) = section_start::take_pending(s, target);
            let apart = !target.section_attributes.alloc && (target.location_info matches Some(
                location,
            ) && location.location is Some);
            &&& apart ==> after == s && address is None
            &&& !apart ==> address == s.pending_location && after.pending_location is None
            &&& after == LayoutView { pending_location: after.pending_location, ..s }
        }),
{
}

/// A section goes to the region that it asks for. Sections that no script describes are put in no
/// region.
pub proof fn lemma_sections_go_to_their_region<'a, 'data>(
    s: LayoutView,
    ctx: &LayoutContext<'a, 'data>,
    id: OutputSectionId,
)
    ensures
        ({
            let placement = section_start::initial_placement(s, ctx, id);
            let info = ctx.sections.info(id);
            &&& info.region_name is Some ==> placement.region_name == info.region_name
            &&& info.region_name is None && info.location_info is None
                ==> placement.region_name is None
            &&& placement.section_id == id
            &&& placement.target == ctx.sections.primary(id)
            &&& placement.info == info
            &&& s.load_segment_depth == 0 ==> !placement.follow_location_counter
            &&& placement.target.0 < ctx.sections.platform.built_in_count()
                ==> !placement.follow_location_counter
        }),
{
}

/// The sum of sizes.
pub open spec fn sum(entries: Seq<(PartId, u64)>) -> int
    decreases entries.len(),
{
    if entries.len() == 0 {
        0
    } else {
        entries.first().1 + sum(entries.skip(1))
    }
}

proof fn lemma_sum_of_last(entries: Seq<(PartId, u64)>)
    requires
        entries.len() > 0,
    ensures
        sum(entries) == sum(entries.drop_last()) + entries.last().1,
        sum(entries) >= 0,
        sum(entries.drop_last()) >= 0,
    decreases entries.len(),
{
    if entries.len() > 1 {
        let rest = entries.skip(1);
        lemma_sum_of_last(rest);
        assert(rest.drop_last() =~= entries.drop_last().skip(1));
        assert(entries.drop_last().first() == entries.first());
        assert(rest.last() == entries.last());
    } else {
        reveal_with_fuel(sum, 2);
        assert(entries.skip(1).len() == 0);
    }
}

/// The size of a section is the sum of the sizes of its parts, if that is a 64-bit number.
pub proof fn lemma_section_size_is_sum(entries: Seq<(PartId, u64)>)
    ensures
        sum(entries) <= u64::MAX <==> layout_state::total_size(entries) is Some,
        layout_state::total_size(entries) matches Some(size) ==> size == sum(entries),
    decreases entries.len(),
{
    if entries.len() > 0 {
        lemma_section_size_is_sum(entries.drop_last());
        lemma_sum_of_last(entries);
    }
}

/// The next section that scripts can ask about is the first that has a size. Its size is that of its
/// parts, and it is aligned for them and for its inputs. If there is none, both are zero.
pub proof fn lemma_next_section_has_size<'a, 'data>(
    ctx: &LayoutContext<'a, 'data>,
    ids: Seq<OutputSectionId>,
    from: int,
    align: u64,
    size: u64,
)
    requires
        0 <= from <= ids.len(),
        ctx.first_allocated(ids, from) == Some((align, size)),
    ensures
        size == 0 ==> align == 0 && forall|i: int|
            from <= i < ids.len() ==> ((
            ctx.section_metrics(ctx.sections.primary(#[trigger] ids[i])) matches Some((_, other))
                && other == 0)),
        size > 0 ==> exists|i: int|
            from <= i < ids.len() && ctx.section_metrics(ctx.sections.primary(#[trigger] ids[i]))
                == Some((align, size)) && forall|j: int|
                from <= j < i ==> ((
                ctx.section_metrics(ctx.sections.primary(#[trigger] ids[j])) matches Some(
                    (_, other),
                ) && other == 0)),
    decreases ids.len() - from,
{
    if from < ids.len() {
        let metrics = ctx.section_metrics(ctx.sections.primary(ids[from]));
        if metrics is Some && (metrics->0).1 == 0 {
            lemma_next_section_has_size(ctx, ids, from + 1, align, size);
            if size > 0 {
                let i = choose|i: int|
                    from + 1 <= i < ids.len() && ctx.section_metrics(
                        ctx.sections.primary(#[trigger] ids[i]),
                    ) == Some((align, size)) && forall|j: int|
                        from + 1 <= j < i ==> ((
                        ctx.section_metrics(ctx.sections.primary(#[trigger] ids[j])) matches Some(
                            (_, other),
                        ) && other == 0));
                assert(ctx.section_metrics(ctx.sections.primary(ids[i])) == Some((align, size)));
            }
        } else {
            assert(ctx.section_metrics(ctx.sections.primary(ids[from])) == Some((align, size)));
        }
    }
}

/// What scripts learn of a section: the sum of its sizes, and an alignment that is enough for its
/// parts and for its inputs.
pub proof fn lemma_metrics_of_section<'a, 'data>(
    ctx: &LayoutContext<'a, 'data>,
    id: OutputSectionId,
    align: u64,
    size: u64,
)
    requires
        ctx.section_metrics(id) == Some((align, size)),
        ctx.sizes.max_exponent(id, ctx.sections) <= 16,
        forall|key: u64| #[trigger]
            ctx.input_exponents().contains_key(key) ==> ctx.input_exponents()[key] <= 16,
    ensures
        size == sum(ctx.sizes.entries_in(ctx.sections.parts_of(id))),
        align >= pow2(ctx.sizes.max_exponent(id, ctx.sections)),
        ctx.input_exponents().contains_key(id.0 as u64) ==> align >= pow2(
            ctx.input_exponents()[id.0 as u64] as nat,
        ),
{
    lemma_section_size_is_sum(ctx.sizes.entries_in(ctx.sections.parts_of(id)));
    let own = ctx.sizes.max_exponent(id, ctx.sections);
    lemma_small_power(own);
    if ctx.input_exponents().contains_key(id.0 as u64) {
        let inputs = ctx.input_exponents()[id.0 as u64] as nat;
        lemma_small_power(inputs);
        if inputs > own {
            lemma_pow2_strictly_increases(own, inputs);
        } else if inputs < own {
            lemma_pow2_strictly_increases(inputs, own);
        }
    }
}

proof fn lemma_small_power(exponent: nat)
    requires
        exponent <= 16,
    ensures
        pow2(exponent) <= 0x1_0000,
{
    lemma2_to64();
    if exponent < 16 {
        lemma_pow2_strictly_increases(exponent, 16);
    }
}

/// In the address of a section, `.` is the address that a script has set last, and otherwise where the
/// last section ends. Nothing moves before the section is placed.
pub proof fn lemma_location_in_section_address<'a, 'data>(
    s: LayoutView,
    ctx: &LayoutContext<'a, 'data>,
    from: int,
)
    ensures
        layout_sections::set_section_address(
            s,
            ctx,
            Expression::<'data>::LocationCounter,
            from,
        ) matches Ok(after) && {
            &&& s.pending_location is Some ==> after == s
            &&& s.pending_location is None ==> after.pending_location == Some(s.mem_offset)
            &&& after == LayoutView { pending_location: after.pending_location, ..s }
        },
{
}

/// A part takes up the size of its contents. Padding before what stays writable takes up what is left
/// of the page, and inputs that are placed in the order of the command line take up the gaps between
/// them too: they end where the last of them ends.
pub proof fn lemma_parts_take_up_gaps<'a, 'data>(
    s: LayoutView,
    ctx: &LayoutContext<'a, 'data>,
    placement: SectionPlacement<'data>,
    alignment: Alignment,
    part: PartId,
    size: u64,
    taken: u64,
)
    requires
        part_placement::part_memory(s, ctx, placement, alignment, part, size) matches Ok(memory)
            && memory == taken,
    ensures
        ({
            let padding = ctx.sections.platform.relro_padding_section_id == Some(
                placement.section_id,
            );
            let inputs = ctx.input_order.inputs_of(part);
            &&& padding ==> placement_laws::is_next_multiple(
                s.mem_offset + taken,
                s.mem_offset as int,
                ctx.args.loadable_segment_alignment.bytes(),
            )
            &&& !padding && inputs is None ==> taken == size
            &&& !padding && inputs is Some ==> exists|start: u64|
                #![trigger input_order::packed_end(start, inputs->0)]
                placement_laws::is_next_multiple(
                    start as int,
                    s.mem_offset as int,
                    alignment.bytes(),
                ) && input_order::packed_end(start, inputs->0) == Some((start + taken) as u64)
        }),
{
    placement_laws::lemma_up_goes_to_next_multiple(alignment, s.mem_offset);
    placement_laws::lemma_up_goes_to_next_multiple(
        ctx.args.loadable_segment_alignment,
        s.mem_offset,
    );
    let inputs = ctx.input_order.inputs_of(part);
    if inputs is Some && ctx.sections.platform.relro_padding_section_id != Some(
        placement.section_id,
    ) {
        let aligned = layout_state::up(alignment, s.mem_offset)->0;
        let end = input_order::packed_end(aligned, inputs->0)->0;
        lemma_packed_end_grows(aligned, inputs->0);
        assert(input_order::packed_end(aligned, inputs->0) == Some((aligned + taken) as u64));
    }
}

proof fn lemma_packed_end_grows(start: u64, inputs: Seq<(Alignment, u64)>)
    ensures
        input_order::packed_end(start, inputs) matches Some(end) ==> end >= start,
    decreases inputs.len(),
{
    if inputs.len() > 0 {
        lemma_packed_end_grows(start, inputs.drop_last());
        if input_order::packed_end(start, inputs.drop_last()) is Some {
            let before = input_order::packed_end(start, inputs.drop_last())->0;
            let alignment = inputs.last().0;
            alignment.lemma_bytes_positive(alignment);
            crate::alignment::lemma_round_up(before as int, alignment.bytes());
        }
    }
}


/// Inside the region of a section, an address that a script asks for is taken, from where the section
/// would go up to the length of the region after it. Other addresses are rejected.
pub proof fn lemma_addresses_inside_region_are_taken<'a, 'data>(
    s: LayoutView,
    ctx: &LayoutContext<'a, 'data>,
    placement: SectionPlacement<'data>,
    region: MemoryRegion,
    address: u64,
)
    requires
        section_start::is_top_level(placement.info),
        s.mem_offset + region.length <= u64::MAX,
        s.file_offset + region.length <= u64::MAX,
    ensures
        ({
            let result = section_start::location_step(
                s,
                ctx,
                placement,
                Some(region),
                Some(address),
            );
            let inside = s.mem_offset <= address <= s.mem_offset + region.length;
            &&& result is Ok <==> inside
            &&& result matches Ok((after, _)) ==> (if s.load_segment_depth > 0 {
                after.mem_offset == address
            } else {
                after == s
            })
        }),
{
}

/// `SIZEOF(NEXT_SECTION)` and `ALIGNOF(NEXT_SECTION)` are the size and the alignment of the next
/// section that has a size.
pub proof fn lemma_next_section_is_asked_for<'a, 'data>(
    s: LayoutView,
    ctx: &LayoutContext<'a, 'data>,
    location: Option<u64>,
    from: int,
    align: u64,
    size: u64,
)
    requires
        ctx.first_allocated(ctx.sections_to_scan(from), 0) == Some((align, size)),
    ensures
        LayoutState::evaluated(s, ctx, Expression::<'data>::SizeofNextSection, location, from)
            == Ok::<u64, LayoutError>(size),
        LayoutState::evaluated(s, ctx, Expression::<'data>::AlignofNextSection, location, from)
            == Ok::<u64, LayoutError>(align),
{
}

/// Layout starts at the start of the file and at the base address, which is the first value of the
/// location counter. Nothing has been placed.
pub proof fn lemma_layout_starts_at_base_address<'a, 'data>(
    ctx: &LayoutContext<'a, 'data>,
    regions: Map<Seq<u8>, MemoryRegion>,
    base: u64,
)
    ensures
        ({
            let s = compute_layout::initial_state(ctx, regions, base);
            &&& s.file_offset == 0
            &&& s.mem_offset == base
            &&& s.lma_offset == base
            &&& s.pending_location is None
            &&& s.load_segment_depth == 0
            &&& s.load_origins.len() == 0
            &&& !s.pad_file_at_next_load
            &&& s.tls_memsave is None
            &&& s.regions == regions
            &&& s.resolved_lc.len() == ctx.order.num_location_counters
            &&& s.resolved_lc.len() > 0 ==> s.resolved_lc[0].value == base
            &&& forall|id: u32| #[trigger]
                s.part_offsets.contains_key(id) ==> s.part_offsets[id] is None
            &&& forall|i: int|
                0 <= i < s.section_layouts.len() ==> (#[trigger] s.section_layouts[i]).mem_size == 0
                    && s.section_layouts[i].file_size == 0
            &&& forall|i: int|
                0 <= i < s.nonalloc_mem_offsets.len() ==> #[trigger] s.nonalloc_mem_offsets[i] == 0
            &&& forall|i: int|
                0 <= i < s.reloc_alloc_mem_offsets.len() ==> #[trigger] s.reloc_alloc_mem_offsets[i]
                    == 0
        }),
{
}

/// A load address that a script gives is that of the part and of its section, and what follows is
/// loaded from there on. The address in memory and the place in the file stay.
pub proof fn lemma_load_address_is_given<'a, 'data>(
    s: LayoutView,
    ctx: &LayoutContext<'a, 'data>,
    placement: SectionPlacement<'data>,
    part: PartId,
    from: int,
    after: LayoutView,
)
    requires
        placement.section_id.0 < s.section_layouts.len(),
        part_placement::load_address_override(s, ctx, placement, part, from) matches Ok(end) && end
            == after,
    ensures
        ({
            let index = placement.section_id.0 as int;
            let given = placement.info.location_info matches Some(location)
                && location.at_location is Some && section_start::leads_overlay(placement.overlay);
            &&& !given ==> after == s
            &&& given ==> {
                &&& LayoutState::evaluated(
                    s,
                    ctx,
                    (placement.info.location_info->0).at_location->0,
                    None,
                    from,
                ) == Ok::<u64, LayoutError>(after.lma_offset)
                &&& after.records[part.0].lma_offset == after.lma_offset
                &&& after.section_layouts[index].lma_offset == after.lma_offset
                &&& after.records[part.0] == OutputRecordLayout {
                    lma_offset: after.lma_offset,
                    ..s.records[part.0]
                }
                &&& after.section_layouts[index] == OutputRecordLayout {
                    lma_offset: after.lma_offset,
                    ..s.section_layouts[index]
                }
                &&& after.mem_offset == s.mem_offset
                &&& after.file_offset == s.file_offset
                &&& forall|i: int|
                    0 <= i < s.section_layouts.len() && i != index
                        ==> #[trigger] after.section_layouts[i] == s.section_layouts[i]
            }
        }),
{
}

} // verus!
