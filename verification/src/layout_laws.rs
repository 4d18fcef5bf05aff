//! Sections do not overlap, and parts are aligned.
use crate::alignment::Alignment;
use crate::compute_layout;
use crate::layout_sections;
use crate::layout_state;
use crate::layout_state::{LayoutContext, LayoutView};
use crate::memory_regions::MemoryRegion;
use crate::output_order::OrderEvent;
use crate::output_section_id::{OutputSectionId, PartId};
use crate::output_section_map::DefaultValue;
use crate::output_sections::SectionOutputInfo;
use crate::part_placement;
use crate::record_layout::OutputRecordLayout;
use crate::section_start;
use crate::section_start::SectionPlacement;
use vstd::arithmetic::div_mod::*;
use vstd::arithmetic::power2::*;
use vstd::prelude::*;

verus! {

/// Whether an event emits the given section.
pub open spec fn emits(events: Seq<OrderEvent>, i: int, id: OutputSectionId) -> bool {
    0 <= i < events.len() && crate::output_order::emitted_section(events[i]) == Some(id)
}

/// Whether no section is emitted twice.
pub open spec fn emits_once(events: Seq<OrderEvent>) -> bool {
    forall|i: int, j: int, id: OutputSectionId|
        #![trigger emits(events, i, id), emits(events, j, id)]
        emits(events, i, id) && emits(events, j, id) ==> i == j
}

/// Whether nothing but the order decides where a section goes.
pub open spec fn follows_order(info: SectionOutputInfo) -> bool {
    info.location_info is None && info.region_name is None
}

/// Whether an event does not come from a linker script.
pub open spec fn event_follows_order<'a, 'data>(
    ctx: &LayoutContext<'a, 'data>,
    event: OrderEvent<'data>,
) -> bool {
    match event {
        OrderEvent::SegmentStart(_) => true,
        OrderEvent::SegmentEnd(_) => true,
        OrderEvent::Section(id) => follows_order(ctx.sections.info(id)),
        _ => false,
    }
}

/// Whether an executable or a shared object is laid out without a linker script.
pub open spec fn without_script<'a, 'data>(ctx: &LayoutContext<'a, 'data>) -> bool {
    &&& !ctx.args.should_output_partial_object
    &&& forall|i: int|
        0 <= i < ctx.order.events@.len() ==> event_follows_order(
            ctx,
            #[trigger] ctx.order.events@[i],
        )
}

/// Whether an executable or a shared object is laid out, and no section of it says itself where it
/// goes.
pub open spec fn sections_follow_order<'a, 'data>(ctx: &LayoutContext<'a, 'data>) -> bool {
    &&& !ctx.args.should_output_partial_object
    &&& forall|i: int|
        0 <= i < ctx.order.events@.len() ==> (
        #[trigger] ctx.order.events@[i] matches OrderEvent::Section(id) ==> follows_order(
            ctx.sections.info(id),
        ))
}

/// Whether the event emits an allocated section into a loaded segment, outside of the address
/// space that is thread-local only.
pub open spec fn loads<'a, 'data>(
    start: LayoutView,
    ctx: &LayoutContext<'a, 'data>,
    i: int,
    id: OutputSectionId,
) -> bool {
    &&& emits(ctx.order.events@, i, id)
    &&& ctx.sections.info(ctx.sections.primary(id)).section_attributes.alloc
    &&& !ctx.sections.info(id).section_attributes.tls_address_space_only
    &&& layout_sections::events_step(start, ctx, i)->Ok_0.load_segment_depth > 0
}

/// Where the next section goes that is not thread-local only.
pub open spec fn next_address(s: LayoutView) -> u64 {
    match s.tls_memsave {
        Some(saved) => saved,
        None => s.mem_offset,
    }
}

/// Whether all parts are aligned.
pub open spec fn parts_aligned(records: Map<u32, OutputRecordLayout>) -> bool {
    forall|part: u32| #[trigger]
        records.contains_key(part) ==> records[part].mem_offset as int
            % records[part].alignment.bytes() == 0
}

proof fn lemma_up(alignment: Alignment, offset: u64)
    ensures
        alignment.bytes() > 0,
        layout_state::up(alignment, offset) matches Some(end) ==> end >= offset && end as int
            % alignment.bytes() == 0,
{
    lemma_pow2_pos(alignment.exp());
    crate::alignment::lemma_round_up(offset as int, alignment.bytes());
}

proof fn lemma_place<'a, 'data>(
    s: LayoutView,
    ctx: &LayoutContext<'a, 'data>,
    placement: SectionPlacement<'data>,
    alignment: Alignment,
    mem_size: u64,
)
    ensures
        part_placement::place(s, ctx, placement, alignment, mem_size) matches Ok((t, record)) ==> {
            &&& record.file_offset >= s.file_offset
            &&& record.spec_file_end() <= t.file_offset
            &&& record.alignment == alignment
            &&& record.mem_offset as int % alignment.bytes() == 0
            &&& t.mem_offset >= s.mem_offset
            &&& t.tls_memsave == s.tls_memsave
            &&& t.pending_location == s.pending_location
            &&& t.load_segment_depth == s.load_segment_depth
            &&& t.records == s.records
            &&& t.section_layouts == s.section_layouts
            &&& (ctx.sections.info(placement.target).section_attributes.alloc
                && !ctx.args.should_output_partial_object && s.load_segment_depth > 0 ==> {
                &&& record.mem_offset >= s.mem_offset
                &&& record.spec_mem_end() <= t.mem_offset
            })
        },
{
    lemma_up(alignment, s.mem_offset);
    lemma_up(alignment, s.nonalloc_mem_offsets[placement.section_id.0 as int]);
    lemma_up(alignment, s.reloc_alloc_mem_offsets[placement.section_id.0 as int]);
    lemma_small_mod(0, alignment.bytes() as nat);
}

/// Whether a section is after the given file offset and before the current one.
spec fn in_file_after(s: LayoutView, id: OutputSectionId, file_offset: u64) -> bool {
    let layout = s.section_layouts[id.0 as int];
    file_offset <= layout.file_offset && layout.spec_file_end() <= s.file_offset
}

/// Whether a section is after the given address and before the current one.
spec fn in_memory_after(s: LayoutView, id: OutputSectionId, address: u64) -> bool {
    let layout = s.section_layouts[id.0 as int];
    address <= layout.mem_offset && layout.spec_mem_end() <= s.mem_offset
}

/// What laying out parts of a section does not change.
spec fn same_but(s: LayoutView, t: LayoutView, id: OutputSectionId) -> bool {
    &&& t.file_offset >= s.file_offset
    &&& t.mem_offset >= s.mem_offset
    &&& t.tls_memsave == s.tls_memsave
    &&& t.pending_location == s.pending_location
    &&& t.load_segment_depth == s.load_segment_depth
    &&& t.section_layouts.len() == s.section_layouts.len()
    &&& forall|other: int|
        0 <= other < s.section_layouts.len() && other != id.0 ==> #[trigger] t.section_layouts[other]
            == s.section_layouts[other]
}

/// Whether the parts of a section are loaded into memory.
spec fn placement_loads<'a, 'data>(
    s: LayoutView,
    ctx: &LayoutContext<'a, 'data>,
    placement: SectionPlacement<'data>,
) -> bool {
    &&& ctx.sections.info(placement.target).section_attributes.alloc
    &&& !ctx.args.should_output_partial_object
    &&& s.load_segment_depth > 0
}

proof fn lemma_part_step<'a, 'data>(
    s: LayoutView,
    ctx: &LayoutContext<'a, 'data>,
    placement: SectionPlacement<'data>,
    entry: (PartId, u64),
    is_first: bool,
    from: int,
    file_offset: u64,
    address: u64,
)
    requires
        placement.section_id.0 < s.section_layouts.len(),
        file_offset <= s.file_offset,
        address <= s.mem_offset,
        !is_first ==> in_file_after(s, placement.section_id, file_offset),
        !is_first && placement_loads(s, ctx, placement) ==> in_memory_after(
            s,
            placement.section_id,
            address,
        ),
        parts_aligned(s.records),
    ensures
        part_placement::part_step(s, ctx, placement, entry, is_first, from) matches Ok(t) ==> {
            &&& same_but(s, t, placement.section_id)
            &&& in_file_after(t, placement.section_id, file_offset)
            &&& (placement_loads(s, ctx, placement) ==> in_memory_after(
                t,
                placement.section_id,
                address,
            ))
            &&& parts_aligned(t.records)
        },
{
    let alignment = part_placement::alignment_for(ctx, placement, entry.0, is_first);
    if let Ok(mem_size) = part_placement::part_memory(
        s,
        ctx,
        placement,
        alignment,
        entry.0,
        entry.1,
    ) {
        lemma_up(alignment, s.file_offset);
        if let Ok(aligned) = part_placement::file_alignment_step(s, ctx, placement, alignment) {
            lemma_place(aligned, ctx, placement, alignment, mem_size);
            if let Ok((placed, record)) = part_placement::place(
                aligned,
                ctx,
                placement,
                alignment,
                mem_size,
            ) {
                if let Ok(recorded) = part_placement::record_step(
                    placed,
                    placement,
                    entry.0,
                    record,
                    is_first,
                ) {
                    assert(recorded.section_layouts.len() == s.section_layouts.len());
                    assert(in_file_after(recorded, placement.section_id, file_offset));
                    assert(parts_aligned(recorded.records));
                }
            }
        }
    }
}

proof fn lemma_parts_step<'a, 'data>(
    s: LayoutView,
    ctx: &LayoutContext<'a, 'data>,
    placement: SectionPlacement<'data>,
    entries: Seq<(PartId, u64)>,
    count: int,
    from: int,
)
    requires
        placement.section_id.0 < s.section_layouts.len(),
        parts_aligned(s.records),
        0 <= count,
    ensures
        part_placement::parts_step(s, ctx, placement, entries, count, from) matches Ok(t) ==> {
            &&& same_but(s, t, placement.section_id)
            &&& (count > 0 ==> in_file_after(t, placement.section_id, s.file_offset))
            &&& (count > 0 && placement_loads(s, ctx, placement) ==> in_memory_after(
                t,
                placement.section_id,
                s.mem_offset,
            ))
            &&& parts_aligned(t.records)
        },
    decreases count,
{
    if count > 0 {
        lemma_parts_step(s, ctx, placement, entries, count - 1, from);
        if let Ok(before) = part_placement::parts_step(
            s,
            ctx,
            placement,
            entries,
            count - 1,
            from,
        ) {
            lemma_part_step(
                before,
                ctx,
                placement,
                entries[count - 1],
                count == 1,
                from,
                s.file_offset,
                s.mem_offset,
            );
        }
    }
}

proof fn lemma_start_in_file<'a, 'data>(
    s: LayoutView,
    ctx: &LayoutContext<'a, 'data>,
    id: OutputSectionId,
)
    ensures
        section_start::section_start(s, ctx, id) matches Ok((t, placement)) ==> {
            &&& t.file_offset >= s.file_offset
            &&& section_start::same_results(t, s)
            &&& placement.section_id == id
            &&& placement.target == ctx.sections.primary(id)
        },
{
    section_start::lemma_start_keeps_results(s, ctx, id);
    let placement = section_start::initial_placement(s, ctx, id);
    let (taken, address) = section_start::take_pending(s, ctx.sections.info(placement.target));
    if let Ok(entered) = section_start::regions_step(taken, placement) {
        assert(entered.file_offset == s.file_offset);
        let region = section_start::declared(s.regions, placement.region_name)->Ok_0;
        if let Ok((moved, _)) = section_start::location_step(
            entered,
            ctx,
            placement,
            region,
            address,
        ) {
            assert(moved.file_offset >= entered.file_offset);
            let loaded = section_start::load_address_step(
                moved,
                placement.info,
                placement.overlay,
            );
            assert(loaded.file_offset == moved.file_offset);
            if let Some(exponent) = layout_state::lookup(ctx.input_exponents(), id.0 as u64) {
                lemma_up(Alignment::of_exp(exponent as nat), loaded.file_offset);
            }
        }
    }
}

proof fn lemma_start_in_memory<'a, 'data>(
    s: LayoutView,
    ctx: &LayoutContext<'a, 'data>,
    id: OutputSectionId,
)
    requires
        follows_order(ctx.sections.info(id)),
        s.pending_location is None,
    ensures
        section_start::section_start(s, ctx, id) matches Ok((t, placement)) ==> {
            let thread_local = ctx.sections.info(id).section_attributes.tls_address_space_only;
            &&& t.pending_location is None
            &&& next_address(t) == next_address(s)
            &&& (!thread_local ==> t.mem_offset == next_address(s) && t.tls_memsave is None)
            &&& (thread_local ==> t.tls_memsave == Some(next_address(s)))
            &&& placement.region_name is None
            &&& placement.overlay is None
            &&& placement.info == ctx.sections.info(id)
        },
{
}

proof fn lemma_section_end<'data>(s: LayoutView, placement: SectionPlacement<'data>)
    ensures
        layout_sections::section_end(s, placement) matches Ok(t) ==> {
            &&& t.file_offset == s.file_offset
            &&& t.section_layouts == s.section_layouts
            &&& t.records == s.records
            &&& t.load_segment_depth == s.load_segment_depth
            &&& t.pending_location == s.pending_location
            &&& t.tls_memsave == s.tls_memsave
            &&& (placement.overlay is None ==> t.mem_offset == s.mem_offset)
        },
{
}

proof fn lemma_parts_to_place<'a, 'data>(ctx: &LayoutContext<'a, 'data>, id: OutputSectionId)
    ensures
        part_placement::parts_to_place(ctx, id).len() > 0,
{
}

/// What laying out a section does to the file.
proof fn lemma_section_in_file<'a, 'data>(
    s: LayoutView,
    ctx: &LayoutContext<'a, 'data>,
    id: OutputSectionId,
    from: int,
)
    requires
        id.0 < s.section_layouts.len(),
        parts_aligned(s.records),
    ensures
        layout_sections::section_step(s, ctx, id, from) matches Ok(t) ==> {
            &&& t.file_offset >= s.file_offset
            &&& in_file_after(t, id, s.file_offset)
            &&& t.section_layouts.len() == s.section_layouts.len()
            &&& t.load_segment_depth == s.load_segment_depth
            &&& forall|other: int|
                0 <= other < s.section_layouts.len() && other != id.0
                    ==> #[trigger] t.section_layouts[other] == s.section_layouts[other]
            &&& parts_aligned(t.records)
        },
{
    lemma_start_in_file(s, ctx, id);
    if let Ok((started, placement)) = section_start::section_start(s, ctx, id) {
        let entries = part_placement::parts_to_place(ctx, id);
        lemma_parts_to_place(ctx, id);
        lemma_parts_step(started, ctx, placement, entries, entries.len() as int, from);
        if let Ok(placed) = part_placement::parts_step(
            started,
            ctx,
            placement,
            entries,
            entries.len() as int,
            from,
        ) {
            lemma_section_end(placed, placement);
        }
    }
}

/// What laying out a section does to memory if there is no linker script.
proof fn lemma_section_in_memory<'a, 'data>(
    s: LayoutView,
    ctx: &LayoutContext<'a, 'data>,
    id: OutputSectionId,
    from: int,
)
    requires
        id.0 < s.section_layouts.len(),
        parts_aligned(s.records),
        follows_order(ctx.sections.info(id)),
        !ctx.args.should_output_partial_object,
        s.pending_location is None,
        s.tls_memsave matches Some(saved) ==> saved <= s.mem_offset,
    ensures
        layout_sections::section_step(s, ctx, id, from) matches Ok(t) ==> {
            let attributes = ctx.sections.info(id).section_attributes;
            let layout = t.section_layouts[id.0 as int];
            &&& t.pending_location is None
            &&& next_address(t) >= next_address(s)
            &&& t.tls_memsave matches Some(saved) ==> saved <= t.mem_offset
            &&& (ctx.sections.info(ctx.sections.primary(id)).section_attributes.alloc
                && !attributes.tls_address_space_only && s.load_segment_depth > 0 ==> {
                &&& next_address(s) <= layout.mem_offset
                &&& layout.spec_mem_end() <= next_address(t)
            })
        },
{
    lemma_start_in_file(s, ctx, id);
    lemma_start_in_memory(s, ctx, id);
    if let Ok((started, placement)) = section_start::section_start(s, ctx, id) {
        let entries = part_placement::parts_to_place(ctx, id);
        lemma_parts_to_place(ctx, id);
        lemma_parts_step(started, ctx, placement, entries, entries.len() as int, from);
        if let Ok(placed) = part_placement::parts_step(
            started,
            ctx,
            placement,
            entries,
            entries.len() as int,
            from,
        ) {
            lemma_section_end(placed, placement);
            assert(started.tls_memsave matches Some(saved) ==> saved <= started.mem_offset);
        }
    }
}

/// What an event does to the file.
proof fn lemma_event_in_file<'a, 'data>(
    s: LayoutView,
    ctx: &LayoutContext<'a, 'data>,
    event: OrderEvent<'data>,
    from: int,
)
    requires
        event matches OrderEvent::Section(id) ==> id.0 < s.section_layouts.len(),
        parts_aligned(s.records),
    ensures
        layout_sections::event_step(s, ctx, event, from) matches Ok(t) ==> {
            &&& t.file_offset >= s.file_offset
            &&& t.section_layouts.len() == s.section_layouts.len()
            &&& forall|other: int|
                0 <= other < s.section_layouts.len() && crate::output_order::emitted_section(event)
                    != Some(OutputSectionId(other as u32)) ==> #[trigger] t.section_layouts[other]
                    == s.section_layouts[other]
            &&& (event matches OrderEvent::Section(id) ==> in_file_after(t, id, s.file_offset))
            &&& parts_aligned(t.records)
        },
{
    match event {
        OrderEvent::Section(id) => {
            lemma_section_in_file(s, ctx, id, from);
        },
        OrderEvent::SegmentStart(id) => {
            let alignment = layout_sections::segment_alignment(ctx, id);
            lemma_up(alignment, s.file_offset);
            let mem_offset = match s.pending_location {
                Some(address) => address,
                None => s.mem_offset,
            };
            crate::alignment::lemma_round_up_congruent(
                mem_offset as int,
                s.file_offset as int,
                alignment.bytes(),
            );
        },
        _ => {},
    }
}

/// What an event does to memory if there is no linker script.
proof fn lemma_event_in_memory<'a, 'data>(
    s: LayoutView,
    ctx: &LayoutContext<'a, 'data>,
    event: OrderEvent<'data>,
    from: int,
)
    requires
        event matches OrderEvent::Section(id) ==> id.0 < s.section_layouts.len(),
        parts_aligned(s.records),
        event_follows_order(ctx, event),
        !ctx.args.should_output_partial_object,
        s.pending_location is None,
        s.tls_memsave matches Some(saved) ==> saved <= s.mem_offset,
    ensures
        layout_sections::event_step(s, ctx, event, from) matches Ok(t) ==> {
            &&& t.pending_location is None
            &&& next_address(t) >= next_address(s)
            &&& t.tls_memsave matches Some(saved) ==> saved <= t.mem_offset
            &&& (event matches OrderEvent::Section(id) ==> (ctx.sections.info(
                ctx.sections.primary(id),
            ).section_attributes.alloc && !ctx.sections.info(
                id,
            ).section_attributes.tls_address_space_only && s.load_segment_depth > 0 ==> {
                &&& next_address(s) <= t.section_layouts[id.0 as int].mem_offset
                &&& t.section_layouts[id.0 as int].spec_mem_end() <= next_address(t)
            }))
        },
{
    match event {
        OrderEvent::Section(id) => {
            lemma_section_in_memory(s, ctx, id, from);
        },
        OrderEvent::SegmentStart(id) => {
            lemma_up(layout_sections::segment_alignment(ctx, id), s.mem_offset);
        },
        _ => {},
    }
}

proof fn lemma_events_in_file<'a, 'data>(
    s: LayoutView,
    ctx: &LayoutContext<'a, 'data>,
    count: int,
)
    requires
        ctx.wf(),
        emits_once(ctx.order.events@),
        s.section_layouts.len() == ctx.sections.count(),
        parts_aligned(s.records),
        0 <= count <= ctx.order.events@.len(),
    ensures
        layout_sections::events_step(s, ctx, count) matches Ok(t) ==> {
            &&& t.section_layouts.len() == ctx.sections.count()
            &&& parts_aligned(t.records)
            &&& forall|i: int, id: OutputSectionId|
                i < count && #[trigger] emits(ctx.order.events@, i, id)
                    ==> t.section_layouts[id.0 as int].spec_file_end() <= t.file_offset
            &&& forall|i: int, j: int, a: OutputSectionId, b: OutputSectionId|
                i < j < count && #[trigger] emits(ctx.order.events@, i, a) && #[trigger] emits(
                    ctx.order.events@,
                    j,
                    b,
                ) ==> t.section_layouts[a.0 as int].spec_file_end()
                    <= t.section_layouts[b.0 as int].file_offset
        },
    decreases count,
{
    if count > 0 {
        lemma_events_in_file(s, ctx, count - 1);
        let event = ctx.order.events@[count - 1];
        assert(ctx.order.event_wf(event, ctx.sections, ctx.segments));
        if let Ok(before) = layout_sections::events_step(s, ctx, count - 1) {
            lemma_event_in_file(before, ctx, event, count);
            if let Ok(t) = layout_sections::event_step(before, ctx, event, count) {
                assert forall|i: int, id: OutputSectionId|
                    i < count - 1 && #[trigger] emits(ctx.order.events@, i, id) implies id.0
                    < ctx.sections.count() && t.section_layouts[id.0 as int]
                    == before.section_layouts[id.0 as int] by {
                    assert(ctx.order.event_wf(
                        ctx.order.events@[i],
                        ctx.sections,
                        ctx.segments,
                    ));
                    if crate::output_order::emitted_section(event) == Some(id) {
                        assert(emits(ctx.order.events@, count - 1, id));
                    }
                }
            }
        }
    }
}

proof fn lemma_events_in_memory<'a, 'data>(
    s: LayoutView,
    ctx: &LayoutContext<'a, 'data>,
    count: int,
)
    requires
        ctx.wf(),
        emits_once(ctx.order.events@),
        without_script(ctx),
        s.section_layouts.len() == ctx.sections.count(),
        parts_aligned(s.records),
        s.pending_location is None,
        s.tls_memsave is None,
        0 <= count <= ctx.order.events@.len(),
    ensures
        layout_sections::events_step(s, ctx, count) matches Ok(t) ==> {
            &&& t.pending_location is None
            &&& t.tls_memsave matches Some(saved) ==> saved <= t.mem_offset
            &&& forall|i: int, id: OutputSectionId|
                i < count && #[trigger] loads(s, ctx, i, id)
                    ==> t.section_layouts[id.0 as int].spec_mem_end() <= next_address(t)
            &&& forall|i: int, j: int, a: OutputSectionId, b: OutputSectionId|
                i < j < count && #[trigger] loads(s, ctx, i, a) && #[trigger] loads(s, ctx, j, b)
                    ==> t.section_layouts[a.0 as int].spec_mem_end()
                    <= t.section_layouts[b.0 as int].mem_offset
        },
    decreases count,
{
    if count > 0 {
        lemma_events_in_memory(s, ctx, count - 1);
        lemma_events_in_file(s, ctx, count - 1);
        let event = ctx.order.events@[count - 1];
        assert(ctx.order.event_wf(event, ctx.sections, ctx.segments));
        if let Ok(before) = layout_sections::events_step(s, ctx, count - 1) {
            lemma_event_in_file(before, ctx, event, count);
            lemma_event_in_memory(before, ctx, event, count);
            if let Ok(t) = layout_sections::event_step(before, ctx, event, count) {
                assert forall|i: int, id: OutputSectionId|
                    i < count - 1 && #[trigger] loads(s, ctx, i, id) implies id.0
                    < ctx.sections.count() && t.section_layouts[id.0 as int]
                    == before.section_layouts[id.0 as int] by {
                    assert(ctx.order.event_wf(
                        ctx.order.events@[i],
                        ctx.sections,
                        ctx.segments,
                    ));
                    assert(emits(ctx.order.events@, i, id));
                    if crate::output_order::emitted_section(event) == Some(id) {
                        assert(emits(ctx.order.events@, count - 1, id));
                    }
                }
            }
        }
    }
}

/// How many loaded segments are open after an event that does not come from a linker script.
pub proof fn lemma_depth_after_event<'a, 'data>(
    s: LayoutView,
    ctx: &LayoutContext<'a, 'data>,
    event: OrderEvent<'data>,
    from: int,
)
    requires
        event matches OrderEvent::Section(id) ==> id.0 < s.section_layouts.len(),
        parts_aligned(s.records),
        event_follows_order(ctx, event),
    ensures
        layout_sections::event_step(s, ctx, event, from) matches Ok(t) ==> {
            &&& t.section_layouts.len() == s.section_layouts.len()
            &&& parts_aligned(t.records)
            &&& t.load_segment_depth == (match event {
                OrderEvent::SegmentStart(id) if ctx.segments.def(id).loadable =>
                    s.load_segment_depth + 1,
                OrderEvent::SegmentEnd(id) if ctx.segments.def(id).loadable
                    && s.load_segment_depth > 0 => s.load_segment_depth - 1,
                _ => s.load_segment_depth as int,
            })
        },
{
    lemma_event_in_file(s, ctx, event, from);
    if let OrderEvent::Section(id) = event {
        lemma_section_in_file(s, ctx, id, from);
    }
}

/// Sections do not overlap in the file: they follow each other in the order in which they are
/// emitted.
pub proof fn lemma_sections_follow_in_file<'a, 'data>(
    ctx: &LayoutContext<'a, 'data>,
    regions: Map<Seq<u8>, MemoryRegion>,
    i: int,
    j: int,
    a: OutputSectionId,
    b: OutputSectionId,
)
    requires
        ctx.wf(),
        emits_once(ctx.order.events@),
        emits(ctx.order.events@, i, a),
        emits(ctx.order.events@, j, b),
        i < j,
    ensures
        compute_layout::laid_out(ctx, regions) matches Ok(s) ==> s.section_layouts[a.0 as int].spec_file_end()
            <= s.section_layouts[b.0 as int].file_offset,
{
    if let Ok(base) = layout_state::LayoutState::evaluated(
        compute_layout::initial_state(ctx, regions, 0),
        ctx,
        ctx.sections.base_address,
        None,
        0,
    ) {
        lemma_initial_parts_aligned(ctx, regions, base);
        lemma_events_in_file(
            compute_layout::initial_state(ctx, regions, base),
            ctx,
            ctx.order.events@.len() as int,
        );
    }
}

/// The state before the first event: memory starts at the base address.
pub open spec fn start_state<'a, 'data>(
    ctx: &LayoutContext<'a, 'data>,
    regions: Map<Seq<u8>, MemoryRegion>,
) -> LayoutView {
    compute_layout::initial_state(
        ctx,
        regions,
        layout_state::LayoutState::evaluated(
            compute_layout::initial_state(ctx, regions, 0),
            ctx,
            ctx.sections.base_address,
            None,
            0,
        )->Ok_0,
    )
}

/// Before the first event, parts are aligned.
pub proof fn lemma_start_aligned<'a, 'data>(
    ctx: &LayoutContext<'a, 'data>,
    regions: Map<Seq<u8>, MemoryRegion>,
)
    ensures
        start_state(ctx, regions).section_layouts.len() == ctx.sections.count(),
        parts_aligned(start_state(ctx, regions).records),
{
    lemma_initial_parts_aligned(ctx, regions, start_state(ctx, regions).mem_offset);
}

/// Without a linker script, allocated sections do not overlap in memory: those that are loaded
/// follow each other in the order in which they are emitted.
pub proof fn lemma_sections_follow_in_memory<'a, 'data>(
    ctx: &LayoutContext<'a, 'data>,
    regions: Map<Seq<u8>, MemoryRegion>,
    i: int,
    j: int,
    a: OutputSectionId,
    b: OutputSectionId,
)
    requires
        ctx.wf(),
        emits_once(ctx.order.events@),
        without_script(ctx),
        loads(start_state(ctx, regions), ctx, i, a),
        loads(start_state(ctx, regions), ctx, j, b),
        i < j,
    ensures
        compute_layout::laid_out(ctx, regions) matches Ok(s) ==> s.section_layouts[a.0 as int].spec_mem_end()
            <= s.section_layouts[b.0 as int].mem_offset,
{
    let start = start_state(ctx, regions);
    lemma_initial_parts_aligned(ctx, regions, start.mem_offset);
    lemma_events_in_memory(start, ctx, ctx.order.events@.len() as int);
}

proof fn lemma_events_aligned<'a, 'data>(
    s: LayoutView,
    ctx: &LayoutContext<'a, 'data>,
    count: int,
)
    requires
        ctx.wf(),
        s.section_layouts.len() == ctx.sections.count(),
        parts_aligned(s.records),
        0 <= count <= ctx.order.events@.len(),
    ensures
        layout_sections::events_step(s, ctx, count) matches Ok(t) ==> {
            &&& t.section_layouts.len() == ctx.sections.count()
            &&& parts_aligned(t.records)
        },
    decreases count,
{
    if count > 0 {
        lemma_events_aligned(s, ctx, count - 1);
        let event = ctx.order.events@[count - 1];
        assert(ctx.order.event_wf(event, ctx.sections, ctx.segments));
        if let Ok(before) = layout_sections::events_step(s, ctx, count - 1) {
            lemma_event_in_file(before, ctx, event, count);
        }
    }
}

/// The address of every part is a multiple of the alignment of the part.
pub proof fn lemma_parts_aligned<'a, 'data>(
    ctx: &LayoutContext<'a, 'data>,
    regions: Map<Seq<u8>, MemoryRegion>,
)
    requires
        ctx.wf(),
    ensures
        compute_layout::laid_out(ctx, regions) matches Ok(s) ==> parts_aligned(s.records),
{
    if let Ok(base) = layout_state::LayoutState::evaluated(
        compute_layout::initial_state(ctx, regions, 0),
        ctx,
        ctx.sections.base_address,
        None,
        0,
    ) {
        lemma_initial_parts_aligned(ctx, regions, base);
        lemma_events_aligned(
            compute_layout::initial_state(ctx, regions, base),
            ctx,
            ctx.order.events@.len() as int,
        );
    }
}

proof fn lemma_initial_parts_aligned<'a, 'data>(
    ctx: &LayoutContext<'a, 'data>,
    regions: Map<Seq<u8>, MemoryRegion>,
    base: u64,
)
    ensures
        parts_aligned(compute_layout::initial_state(ctx, regions, base).records),
{
    Alignment::lemma_one();
    assert(OutputRecordLayout::spec_default().alignment == Alignment::spec_one());
}

} // verus!
