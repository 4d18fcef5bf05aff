//! Segments that are loaded do not overlap.
use crate::compute_layout;
use crate::layout_laws;
use crate::layout_sections;
use crate::layout_state::{LayoutContext, LayoutView};
use crate::macho_order::MachOOrder;
use crate::macho_order_laws;
use crate::memory_regions::MemoryRegion;
use crate::output_order::{OrderEvent, OutputOrder};
use crate::output_section_id::OutputSectionId;
use crate::output_sections::OutputSections;
use crate::program_segments::{ProgramSegmentId, ProgramSegments};
use crate::record_layout::OutputRecordLayout;
use crate::segment_layout;
use crate::segment_layout::{SegmentArgs, SegmentLayout, SegmentRecord};
use crate::stable_order;
use vstd::prelude::*;

verus! {

/// Whether a segment starts and ends once, at the given positions of the order.
pub open spec fn open_during(
    events: Seq<OrderEvent>,
    segment: ProgramSegmentId,
    start: int,
    end: int,
) -> bool {
    &&& 0 <= start < end < events.len()
    &&& events[start] == OrderEvent::SegmentStart(segment)
    &&& events[end] == OrderEvent::SegmentEnd(segment)
    &&& forall|i: int|
        0 <= i < events.len() && segment_layout::starts_or_ends(
            #[trigger] events[i],
            segment.0 as int,
        ) ==> i == start || i == end
}

/// Whether a segment starts once and then ends once.
pub open spec fn opens_once(events: Seq<OrderEvent>, segment: ProgramSegmentId) -> bool {
    exists|start: int, end: int| #[trigger] open_during(events, segment, start, end)
}

/// Whether a segment is loaded, and is neither the stack nor thread-local.
pub open spec fn is_plain_load(segments: &ProgramSegments, segment: ProgramSegmentId) -> bool {
    &&& segments.has(segment)
    &&& segments.def(segment).loadable
    &&& !segments.def(segment).stack
    &&& !segments.def(segment).tls
}

/// Whether no address in memory is in both.
pub open spec fn apart_in_memory(a: OutputRecordLayout, b: OutputRecordLayout) -> bool {
    forall|address: int|
        #![trigger a.holds_address(address)]
        !(a.holds_address(address) && b.holds_address(address))
}

/// Whether no byte of the file is in both.
pub open spec fn apart_in_file(a: OutputRecordLayout, b: OutputRecordLayout) -> bool {
    forall|offset: int|
        #![trigger a.holds_offset(offset)]
        !(a.holds_offset(offset) && b.holds_offset(offset))
}

impl OutputRecordLayout {
    /// Whether an address is in the record.
    pub open spec fn holds_address(self, address: int) -> bool {
        self.mem_offset <= address < self.mem_offset + self.mem_size
    }

    /// Whether a byte of the file is in the record.
    pub open spec fn holds_offset(self, offset: int) -> bool {
        self.file_offset <= offset < self.file_offset + self.file_size
    }
}

/// Whether the event emits a section that counts for a segment.
spec fn counted<'data>(
    layouts: Seq<OutputRecordLayout>,
    sections: &OutputSections<'data>,
    order: &OutputOrder<'data>,
    segments: &ProgramSegments,
    segment: ProgramSegmentId,
    i: int,
    id: OutputSectionId,
) -> bool {
    &&& layout_laws::emits(order.events@, i, id)
    &&& !segment_layout::is_ignored(layouts, sections, id)
    &&& segment_layout::counts_for(sections, segments, id, segment.0 as int)
}

/// Bounds for the sections of a segment.
ghost struct Bounds {
    mem_start: int,
    mem_end: int,
    file_start: int,
    file_end: int,
}

spec fn within(layout: OutputRecordLayout, bounds: Bounds) -> bool {
    &&& bounds.mem_start <= layout.mem_offset
    &&& layout.spec_mem_end() <= bounds.mem_end
    &&& bounds.file_start <= layout.file_offset
    &&& layout.spec_file_end() <= bounds.file_end
}

spec fn record_within(record: SegmentRecord, bounds: Bounds) -> bool {
    &&& bounds.mem_start <= record.mem_start
    &&& record.mem_end <= bounds.mem_end
    &&& bounds.file_start <= record.file_start
    &&& record.file_end <= bounds.file_end
    &&& segment_layout::bounds_ordered(Some(record))
}

/// The number of the first `count` segments that are loaded and active.
spec fn active_loads(
    active: Seq<Option<SegmentRecord>>,
    segments: &ProgramSegments,
    count: int,
) -> int
    decreases count,
{
    if count <= 0 {
        0
    } else {
        active_loads(active, segments, count - 1) + (if active[count - 1] is Some
            && segments.defs@[count - 1].loadable {
            1int
        } else {
            0
        })
    }
}

proof fn lemma_active_loads_same(
    a: Seq<Option<SegmentRecord>>,
    b: Seq<Option<SegmentRecord>>,
    segments: &ProgramSegments,
    count: int,
)
    requires
        count <= a.len(),
        forall|k: int| 0 <= k < count ==> (#[trigger] a[k] is Some) == (b[k] is Some),
    ensures
        active_loads(a, segments, count) == active_loads(b, segments, count),
    decreases count,
{
    if count > 0 {
        lemma_active_loads_same(a, b, segments, count - 1);
        assert((a[count - 1] is Some) == (b[count - 1] is Some));
    }
}

proof fn lemma_active_loads_update(
    active: Seq<Option<SegmentRecord>>,
    segments: &ProgramSegments,
    segment: int,
    record: Option<SegmentRecord>,
    count: int,
)
    requires
        0 <= segment < count <= active.len(),
    ensures
        active_loads(active.update(segment, record), segments, count) == active_loads(
            active,
            segments,
            count,
        ) + (if segments.defs@[segment].loadable {
            (if record is Some {
                1int
            } else {
                0
            }) - (if active[segment] is Some {
                1int
            } else {
                0
            })
        } else {
            0
        }),
    decreases count,
{
    if segment == count - 1 {
        lemma_active_loads_same(
            active,
            active.update(segment, record),
            segments,
            count - 1,
        );
    } else {
        lemma_active_loads_update(active, segments, segment, record, count - 1);
    }
}

proof fn lemma_active_loads_positive(
    active: Seq<Option<SegmentRecord>>,
    segments: &ProgramSegments,
    count: int,
)
    ensures
        active_loads(active, segments, count) >= 0,
        forall|k: int|
            0 <= k < count && (#[trigger] active[k]) is Some && segments.defs@[k].loadable
                ==> active_loads(active, segments, count) > 0,
    decreases count,
{
    if count > 0 {
        lemma_active_loads_positive(active, segments, count - 1);
    }
}

/// What an event does to the active segments.
proof fn lemma_active_after_event<'data>(
    layouts: Seq<OutputRecordLayout>,
    sections: &OutputSections<'data>,
    order: &OutputOrder<'data>,
    segments: &ProgramSegments,
    args: SegmentArgs,
    count: int,
)
    requires
        order.wf(sections, segments),
        0 < count <= order.events@.len(),
        segments_ok(layouts, sections, order, segments, args, count),
    ensures
        segments_ok(layouts, sections, order, segments, args, count - 1),
        active_at(layouts, sections, order, segments, args, count).len() == segments.defs@.len(),
        active_at(layouts, sections, order, segments, args, count - 1).len()
            == segments.defs@.len(),
{
    segment_layout::lemma_segment_count(layouts, sections, order, segments, args, count);
    segment_layout::lemma_segment_count(layouts, sections, order, segments, args, count - 1);
}

spec fn segments_ok<'data>(
    layouts: Seq<OutputRecordLayout>,
    sections: &OutputSections<'data>,
    order: &OutputOrder<'data>,
    segments: &ProgramSegments,
    args: SegmentArgs,
    count: int,
) -> bool {
    segment_layout::segments_after(layouts, sections, order, segments, args, count) is Ok
}

/// The segments that are active after the first `count` events.
spec fn active_at<'data>(
    layouts: Seq<OutputRecordLayout>,
    sections: &OutputSections<'data>,
    order: &OutputOrder<'data>,
    segments: &ProgramSegments,
    args: SegmentArgs,
    count: int,
) -> Seq<Option<SegmentRecord>> {
    segment_layout::segments_after(layouts, sections, order, segments, args, count)->Ok_0.0
}

proof fn lemma_ok_before<'data>(
    layouts: Seq<OutputRecordLayout>,
    sections: &OutputSections<'data>,
    order: &OutputOrder<'data>,
    segments: &ProgramSegments,
    args: SegmentArgs,
    count: int,
    total: int,
)
    requires
        count <= total,
        segments_ok(layouts, sections, order, segments, args, total),
    ensures
        segments_ok(layouts, sections, order, segments, args, count),
    decreases total - count,
{
    if count < total {
        if total > 0 {
            lemma_ok_before(layouts, sections, order, segments, args, count, total - 1);
        }
    }
}

/// A segment is no larger than bounds for its sections.
proof fn lemma_record_within<'data>(
    layouts: Seq<OutputRecordLayout>,
    sections: &OutputSections<'data>,
    order: &OutputOrder<'data>,
    segments: &ProgramSegments,
    args: SegmentArgs,
    segment: ProgramSegmentId,
    start: int,
    end: int,
    count: int,
    bounds: Bounds,
)
    requires
        order.wf(sections, segments),
        is_plain_load(segments, segment),
        open_during(order.events@, segment, start, end),
        start < count <= end,
        segments_ok(layouts, sections, order, segments, args, count),
        bounds.mem_start <= u64::MAX,
        bounds.file_start <= u64::MAX,
        0 <= bounds.mem_end,
        0 <= bounds.file_end,
        forall|i: int, id: OutputSectionId|
            start < i < end && #[trigger] counted(
                layouts,
                sections,
                order,
                segments,
                segment,
                i,
                id,
            ) ==> within(layouts[id.0 as int], bounds),
    ensures
        active_at(layouts, sections, order, segments, args, count)[segment.0 as int] matches Some(
            record,
        ) && record_within(record, bounds),
    decreases count,
{
    lemma_active_after_event(layouts, sections, order, segments, args, count);
    let event = order.events@[count - 1];
    assert(order.event_wf(event, sections, segments));
    if count > start + 1 {
        lemma_record_within(
            layouts,
            sections,
            order,
            segments,
            args,
            segment,
            start,
            end,
            count - 1,
            bounds,
        );
        assert(!segment_layout::starts_or_ends(event, segment.0 as int));
        if let OrderEvent::Section(id) = event {
            let before = active_at(layouts, sections, order, segments, args, count - 1);
            assert(before[segment.0 as int] is Some);
            assert(!segment_layout::none_active(before));
            assert(layout_laws::emits(order.events@, count - 1, id));
            if !segment_layout::is_ignored(layouts, sections, id) && segment_layout::counts_for(
                sections,
                segments,
                id,
                segment.0 as int,
            ) {
                assert(counted(layouts, sections, order, segments, segment, count - 1, id));
                assert(segment_layout::counts(before, sections, segments, id));
            }
        }
    }
}

/// What a segment held when it ended is what it holds in the end.
proof fn lemma_stays_complete<'data>(
    layouts: Seq<OutputRecordLayout>,
    sections: &OutputSections<'data>,
    order: &OutputOrder<'data>,
    segments: &ProgramSegments,
    args: SegmentArgs,
    segment: ProgramSegmentId,
    start: int,
    end: int,
    count: int,
)
    requires
        order.wf(sections, segments),
        segments.has(segment),
        open_during(order.events@, segment, start, end),
        end < count <= order.events@.len(),
        segments_ok(layouts, sections, order, segments, args, count),
    ensures
        segments_ok(layouts, sections, order, segments, args, end),
        segment_layout::segments_after(
            layouts,
            sections,
            order,
            segments,
            args,
            count,
        )->Ok_0.1[segment.0 as int] == active_at(layouts, sections, order, segments, args, end)[segment.0 as int],
    decreases count,
{
    lemma_active_after_event(layouts, sections, order, segments, args, count);
    segment_layout::lemma_segment_count(layouts, sections, order, segments, args, count - 1);
    let event = order.events@[count - 1];
    assert(order.event_wf(event, sections, segments));
    if count > end + 1 {
        lemma_stays_complete(
            layouts,
            sections,
            order,
            segments,
            args,
            segment,
            start,
            end,
            count - 1,
        );
        assert(!segment_layout::starts_or_ends(event, segment.0 as int));
    }
}

/// Loaded segments that are active are counted by the layout of the sections.
proof fn lemma_depth<'a, 'data>(
    s: LayoutView,
    ctx: &LayoutContext<'a, 'data>,
    layouts: Seq<OutputRecordLayout>,
    args: SegmentArgs,
    count: int,
)
    requires
        ctx.wf(),
        layout_laws::without_script(ctx),
        s.section_layouts.len() == ctx.sections.count(),
        layout_laws::parts_aligned(s.records),
        0 <= count <= ctx.order.events@.len(),
        layout_sections::events_step(s, ctx, count) is Ok,
        segments_ok(layouts, ctx.sections, ctx.order, ctx.segments, args, count),
    ensures
        layout_sections::events_step(s, ctx, count)->Ok_0.section_layouts.len()
            == ctx.sections.count(),
        layout_laws::parts_aligned(layout_sections::events_step(s, ctx, count)->Ok_0.records),
        layout_sections::events_step(s, ctx, count)->Ok_0.load_segment_depth >= active_loads(
            active_at(layouts, ctx.sections, ctx.order, ctx.segments, args, count),
            ctx.segments,
            ctx.segments.defs@.len() as int,
        ),
    decreases count,
{
    let total = ctx.segments.defs@.len() as int;
    if count <= 0 {
        let nothing = active_at(layouts, ctx.sections, ctx.order, ctx.segments, args, count);
        lemma_none_loaded(nothing, ctx.segments, total);
    } else {
        lemma_active_after_event(layouts, ctx.sections, ctx.order, ctx.segments, args, count);
        lemma_depth(s, ctx, layouts, args, count - 1);
        let event = ctx.order.events@[count - 1];
        assert(ctx.order.event_wf(event, ctx.sections, ctx.segments));
        assert(layout_laws::event_follows_order(ctx, event));
        let laid_out = layout_sections::events_step(s, ctx, count - 1)->Ok_0;
        layout_laws::lemma_depth_after_event(laid_out, ctx, event, count);
        let before = active_at(layouts, ctx.sections, ctx.order, ctx.segments, args, count - 1);
        let after = active_at(layouts, ctx.sections, ctx.order, ctx.segments, args, count);
        lemma_active_loads_positive(after, ctx.segments, total);
        match event {
            OrderEvent::SegmentStart(id) => {
                lemma_active_loads_update(
                    before,
                    ctx.segments,
                    id.0 as int,
                    after[id.0 as int],
                    total,
                );
            },
            OrderEvent::SegmentEnd(id) => {
                lemma_active_loads_update(before, ctx.segments, id.0 as int, None, total);
            },
            _ => {
                lemma_active_loads_same(before, after, ctx.segments, total);
            },
        }
    }
}

proof fn lemma_none_loaded(
    active: Seq<Option<SegmentRecord>>,
    segments: &ProgramSegments,
    count: int,
)
    requires
        count <= active.len(),
        segment_layout::none_active(active),
    ensures
        active_loads(active, segments, count) == 0,
    decreases count,
{
    if count > 0 {
        lemma_none_loaded(active, segments, count - 1);
        assert(active[count - 1] is None);
    }
}

/// The layouts of the segments: each reaches over the sections that count for it.
pub open spec fn completed<'a, 'data>(
    ctx: &LayoutContext<'a, 'data>,
    regions: Map<Seq<u8>, MemoryRegion>,
    args: SegmentArgs,
) -> Seq<Option<SegmentRecord>> {
    segment_layout::segments_after(
        compute_layout::laid_out(ctx, regions)->Ok_0.section_layouts,
        ctx.sections,
        ctx.order,
        ctx.segments,
        args,
        ctx.order.events@.len() as int,
    )->Ok_0.1
}

/// Whether sections and segments can be laid out.
pub open spec fn lays_out<'a, 'data>(
    ctx: &LayoutContext<'a, 'data>,
    regions: Map<Seq<u8>, MemoryRegion>,
    args: SegmentArgs,
) -> bool {
    &&& compute_layout::laid_out(ctx, regions) matches Ok(s)
    &&& segment_layout::segments_after(
        s.section_layouts,
        ctx.sections,
        ctx.order,
        ctx.segments,
        args,
        ctx.order.events@.len() as int,
    ) is Ok
}

proof fn lemma_counted_loads<'a, 'data>(
    ctx: &LayoutContext<'a, 'data>,
    regions: Map<Seq<u8>, MemoryRegion>,
    args: SegmentArgs,
    segment: ProgramSegmentId,
    start: int,
    end: int,
    i: int,
    id: OutputSectionId,
)
    requires
        ctx.wf(),
        layout_laws::without_script(ctx),
        lays_out(ctx, regions, args),
        is_plain_load(ctx.segments, segment),
        open_during(ctx.order.events@, segment, start, end),
        start < i < end,
        counted(
            compute_layout::laid_out(ctx, regions)->Ok_0.section_layouts,
            ctx.sections,
            ctx.order,
            ctx.segments,
            segment,
            i,
            id,
        ),
    ensures
        layout_laws::loads(layout_laws::start_state(ctx, regions), ctx, i, id),
{
    let layouts = compute_layout::laid_out(ctx, regions)->Ok_0.section_layouts;
    let s = layout_laws::start_state(ctx, regions);
    let total = ctx.order.events@.len() as int;
    layout_laws::lemma_start_aligned(ctx, regions);
    lemma_ok_before(layouts, ctx.sections, ctx.order, ctx.segments, args, i, total);
    layout_sections::lemma_events_step_ok(s, ctx, i, total);
    lemma_depth(s, ctx, layouts, args, i);
    lemma_record_within(
        layouts,
        ctx.sections,
        ctx.order,
        ctx.segments,
        args,
        segment,
        start,
        end,
        i,
        anything(),
    );
    let active = active_at(layouts, ctx.sections, ctx.order, ctx.segments, args, i);
    assert(active[segment.0 as int] is Some);
    lemma_active_loads_positive(active, ctx.segments, ctx.segments.defs@.len() as int);
}

/// Bounds that hold of every section.
spec fn anything() -> Bounds {
    Bounds {
        mem_start: 0,
        mem_end: u64::MAX + u64::MAX,
        file_start: 0,
        file_end: u64::MAX + u64::MAX,
    }
}

/// Bounds that hold of no section.
spec fn nothing() -> Bounds {
    Bounds { mem_start: u64::MAX as int, mem_end: 0, file_start: u64::MAX as int, file_end: 0 }
}

/// A segment that ends before another one starts is before it.
proof fn lemma_segments_in_turn<'a, 'data>(
    ctx: &LayoutContext<'a, 'data>,
    regions: Map<Seq<u8>, MemoryRegion>,
    args: SegmentArgs,
    a: ProgramSegmentId,
    a_start: int,
    a_end: int,
    b: ProgramSegmentId,
    b_start: int,
    b_end: int,
)
    requires
        ctx.wf(),
        layout_laws::without_script(ctx),
        layout_laws::emits_once(ctx.order.events@),
        lays_out(ctx, regions, args),
        is_plain_load(ctx.segments, a),
        is_plain_load(ctx.segments, b),
        open_during(ctx.order.events@, a, a_start, a_end),
        open_during(ctx.order.events@, b, b_start, b_end),
        a_end < b_start,
    ensures
        ({
            let records = completed(ctx, regions, args);
            let first = segment_layout::sizes_of(records[a.0 as int]->0);
            let second = segment_layout::sizes_of(records[b.0 as int]->0);
            &&& records[a.0 as int] is Some
            &&& records[b.0 as int] is Some
            &&& apart_in_memory(first, second)
            &&& apart_in_file(first, second)
        }),
{
    let s = compute_layout::laid_out(ctx, regions)->Ok_0;
    let layouts = s.section_layouts;
    let (sections, order, segments) = (ctx.sections, ctx.order, ctx.segments);
    let total = order.events@.len() as int;
    lemma_stays_complete(layouts, sections, order, segments, args, a, a_start, a_end, total);
    lemma_stays_complete(layouts, sections, order, segments, args, b, b_start, b_end, total);
    lemma_record_within(
        layouts,
        sections,
        order,
        segments,
        args,
        a,
        a_start,
        a_end,
        a_end,
        anything(),
    );
    lemma_record_within(
        layouts,
        sections,
        order,
        segments,
        args,
        b,
        b_start,
        b_end,
        b_end,
        anything(),
    );
    let first = completed(ctx, regions, args)[a.0 as int]->0;
    let second = completed(ctx, regions, args)[b.0 as int]->0;
    if exists|j: int, id: OutputSectionId|
        b_start < j < b_end && #[trigger] counted(layouts, sections, order, segments, b, j, id) {
        assert forall|j: int, id: OutputSectionId|
            b_start < j < b_end && #[trigger] counted(
                layouts,
                sections,
                order,
                segments,
                b,
                j,
                id,
            ) implies first.mem_end <= layouts[id.0 as int].mem_offset && first.file_end
            <= layouts[id.0 as int].file_offset by {
            let bounds = Bounds {
                mem_start: 0,
                mem_end: layouts[id.0 as int].mem_offset as int,
                file_start: 0,
                file_end: layouts[id.0 as int].file_offset as int,
            };
            lemma_counted_loads(ctx, regions, args, b, b_start, b_end, j, id);
            assert forall|i: int, other: OutputSectionId|
                a_start < i < a_end && #[trigger] counted(
                    layouts,
                    sections,
                    order,
                    segments,
                    a,
                    i,
                    other,
                ) implies within(layouts[other.0 as int], bounds) by {
                lemma_counted_loads(ctx, regions, args, a, a_start, a_end, i, other);
                layout_laws::lemma_sections_follow_in_memory(ctx, regions, i, j, other, id);
                layout_laws::lemma_sections_follow_in_file(ctx, regions, i, j, other, id);
            }
            lemma_record_within(
                layouts,
                sections,
                order,
                segments,
                args,
                a,
                a_start,
                a_end,
                a_end,
                bounds,
            );
        }
        let bounds = Bounds {
            mem_start: first.mem_end as int,
            file_start: first.file_end as int,
            ..anything()
        };
        lemma_record_within(
            layouts,
            sections,
            order,
            segments,
            args,
            b,
            b_start,
            b_end,
            b_end,
            bounds,
        );
    } else {
        lemma_record_within(
            layouts,
            sections,
            order,
            segments,
            args,
            b,
            b_start,
            b_end,
            b_end,
            nothing(),
        );
    }
}

/// Without a linker script, two segments that are loaded overlap neither in memory nor in the file
/// if neither of them starts while the other one is open.
pub proof fn lemma_loaded_segments_apart<'a, 'data>(
    ctx: &LayoutContext<'a, 'data>,
    regions: Map<Seq<u8>, MemoryRegion>,
    args: SegmentArgs,
    a: ProgramSegmentId,
    a_start: int,
    a_end: int,
    b: ProgramSegmentId,
    b_start: int,
    b_end: int,
)
    requires
        ctx.wf(),
        layout_laws::without_script(ctx),
        layout_laws::emits_once(ctx.order.events@),
        lays_out(ctx, regions, args),
        a != b,
        is_plain_load(ctx.segments, a),
        is_plain_load(ctx.segments, b),
        open_during(ctx.order.events@, a, a_start, a_end),
        open_during(ctx.order.events@, b, b_start, b_end),
        !(a_start < b_start < a_end),
        !(b_start < a_start < b_end),
    ensures
        ({
            let records = completed(ctx, regions, args);
            let first = segment_layout::sizes_of(records[a.0 as int]->0);
            let second = segment_layout::sizes_of(records[b.0 as int]->0);
            &&& records[a.0 as int] is Some
            &&& records[b.0 as int] is Some
            &&& apart_in_memory(first, second)
            &&& apart_in_file(first, second)
        }),
{
    let events = ctx.order.events@;
    assert(events[a_start] != events[b_start]);
    assert(events[a_end] != events[b_start]);
    assert(events[b_end] != events[a_start]);
    if a_end < b_start {
        lemma_segments_in_turn(ctx, regions, args, a, a_start, a_end, b, b_start, b_end);
    } else {
        lemma_segments_in_turn(ctx, regions, args, b, b_start, b_end, a, a_start, a_end);
        let records = completed(ctx, regions, args);
        let first = segment_layout::sizes_of(records[a.0 as int]->0);
        let second = segment_layout::sizes_of(records[b.0 as int]->0);
        assert forall|address: int|
            #![trigger first.holds_address(address)]
            !(first.holds_address(address) && second.holds_address(address)) by {
            assert(!(second.holds_address(address) && first.holds_address(address)));
        }
        assert forall|offset: int|
            #![trigger first.holds_offset(offset)]
            !(first.holds_offset(offset) && second.holds_offset(offset)) by {
            assert(!(second.holds_offset(offset) && first.holds_offset(offset)));
        }
    }
}

/// Whether two segments start and end once, and neither starts while the other one is open.
pub open spec fn one_after_the_other(
    events: Seq<OrderEvent>,
    a: ProgramSegmentId,
    b: ProgramSegmentId,
) -> bool {
    exists|a_start: int, a_end: int, b_start: int, b_end: int|
        {
            &&& #[trigger] open_during(events, a, a_start, a_end)
            &&& #[trigger] open_during(events, b, b_start, b_end)
            &&& !(a_start < b_start < a_end)
            &&& !(b_start < a_start < b_end)
        }
}

/// Two segments that are loaded, one after the other, overlap neither in memory nor in the file,
/// whatever the platform. `list` holds the layouts of the segments.
pub proof fn lemma_listed_segments_apart<'a, 'data>(
    ctx: &LayoutContext<'a, 'data>,
    regions: Map<Seq<u8>, MemoryRegion>,
    args: SegmentArgs,
    ids: Seq<ProgramSegmentId>,
    keys: Seq<(u64, u64)>,
    list: Seq<SegmentLayout>,
    i: int,
    j: int,
)
    requires
        ctx.wf(),
        layout_laws::without_script(ctx),
        layout_laws::emits_once(ctx.order.events@),
        lays_out(ctx, regions, args),
        forall|k: int| 0 <= k < ids.len() ==> ctx.segments.has(#[trigger] ids[k]),
        keys.len() == ids.len(),
        segment_layout::sorted_as(
            list,
            segment_layout::unsorted_layouts(completed(ctx, regions, args), ids),
            keys,
        ),
        0 <= i < list.len(),
        0 <= j < list.len(),
        list[i].id != list[j].id,
        is_plain_load(ctx.segments, list[i].id),
        is_plain_load(ctx.segments, list[j].id),
        one_after_the_other(ctx.order.events@, list[i].id, list[j].id),
    ensures
        apart_in_memory(list[i].sizes, list[j].sizes),
        apart_in_file(list[i].sizes, list[j].sizes),
{
    let unsorted = segment_layout::unsorted_layouts(completed(ctx, regions, args), ids);
    let positions = choose|positions: Seq<usize>| #[trigger]
        stable_order::is_stable_order(positions, keys) && list == Seq::new(
            positions.len(),
            |k: int| unsorted[positions[k] as int],
        );
    let events = ctx.order.events@;
    let (a, b) = (list[i].id, list[j].id);
    assert(a == ids[positions[i] as int]);
    assert(b == ids[positions[j] as int]);
    let (a_start, a_end, b_start, b_end) = choose|
        a_start: int,
        a_end: int,
        b_start: int,
        b_end: int,
    |
        {
            &&& #[trigger] open_during(events, a, a_start, a_end)
            &&& #[trigger] open_during(events, b, b_start, b_end)
            &&& !(a_start < b_start < a_end)
            &&& !(b_start < a_start < b_end)
        };
    lemma_loaded_segments_apart(
        ctx,
        regions,
        args,
        a,
        a_start,
        a_end,
        b,
        b_start,
        b_end,
    );
}

/// The segments of a Mach-O file overlap neither in memory nor in the file. `list` holds the layouts
/// of the segments.
pub proof fn lemma_macho_segments_apart<'a, 'data>(
    ctx: &LayoutContext<'a, 'data>,
    regions: Map<Seq<u8>, MemoryRegion>,
    args: SegmentArgs,
    ordered: &MachOOrder<'data>,
    ids: Seq<ProgramSegmentId>,
    keys: Seq<(u64, u64)>,
    list: Seq<SegmentLayout>,
    i: int,
    j: int,
)
    requires
        ctx.wf(),
        ordered.wf(ctx.sections),
        *ctx.order == ordered.order,
        *ctx.segments == ordered.program_segments,
        layout_laws::sections_follow_order(ctx),
        layout_laws::emits_once(ctx.order.events@),
        lays_out(ctx, regions, args),
        forall|k: int| 0 <= k < ids.len() ==> ctx.segments.has(#[trigger] ids[k]),
        keys.len() == ids.len(),
        segment_layout::sorted_as(
            list,
            segment_layout::unsorted_layouts(completed(ctx, regions, args), ids),
            keys,
        ),
        0 <= i < list.len(),
        0 <= j < list.len(),
        list[i].id != list[j].id,
    ensures
        apart_in_memory(list[i].sizes, list[j].sizes),
        apart_in_file(list[i].sizes, list[j].sizes),
{
    let unsorted = segment_layout::unsorted_layouts(completed(ctx, regions, args), ids);
    let positions = choose|positions: Seq<usize>| #[trigger]
        stable_order::is_stable_order(positions, keys) && list == Seq::new(
            positions.len(),
            |k: int| unsorted[positions[k] as int],
        );
    let events = ctx.order.events@;
    let (a, b) = (list[i].id, list[j].id);
    assert(a == ids[positions[i] as int]);
    assert(b == ids[positions[j] as int]);
    assert forall|k: int| 0 <= k < events.len() implies layout_laws::event_follows_order(
        ctx,
        #[trigger] events[k],
    ) by {
        assert(macho_order_laws::is_plain_event(ordered.order.events@[k]));
    }
    assert(opens_once(events, a) && opens_once(events, b));
    let (a_start, a_end) = choose|start: int, end: int| #[trigger]
        open_during(events, a, start, end);
    let (b_start, b_end) = choose|start: int, end: int| #[trigger]
        open_during(events, b, start, end);
    lemma_in_turn(events, ctx.segments.defs@.len(), a, a_start, a_end, b, b_start, b_end);
    lemma_in_turn(events, ctx.segments.defs@.len(), b, b_start, b_end, a, a_start, a_end);
    lemma_listed_segments_apart(ctx, regions, args, ids, keys, list, i, j);
}

proof fn lemma_in_turn(
    events: Seq<OrderEvent>,
    segments: nat,
    a: ProgramSegmentId,
    a_start: int,
    a_end: int,
    b: ProgramSegmentId,
    b_start: int,
    b_end: int,
)
    requires
        macho_order_laws::in_turn(events, segments),
        a.0 < segments,
        open_during(events, a, a_start, a_end),
        open_during(events, b, b_start, b_end),
    ensures
        !(a_start < b_start < a_end),
{
    if a_start < b_start < a_end {
        assert(macho_order_laws::starts_at(events, b_start, b.0 as int));
        assert(macho_order_laws::starts_at(events, a_start, a.0 as int));
        assert(macho_order_laws::has_started(events, a.0 as int, b_start));
        assert(!segment_layout::has_ended(events, a.0 as int, b_start)) by {
            if segment_layout::has_ended(events, a.0 as int, b_start) {
                let k = choose|k: int|
                    k < b_start && #[trigger] segment_layout::ends(events, k, a.0 as int);
                assert(segment_layout::starts_or_ends(events[k], a.0 as int));
            }
        }
        assert(macho_order_laws::is_open(events, a.0 as int, b_start));
    }
}

} // verus!
