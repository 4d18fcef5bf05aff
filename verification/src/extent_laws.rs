//! A segment reaches just over the sections that belong to it.
use crate::output_order::{OrderEvent, OutputOrder};
use crate::output_section_id::OutputSectionId;
use crate::output_sections::OutputSections;
use crate::program_segments::{ProgramSegmentId, ProgramSegments};
use crate::record_layout::OutputRecordLayout;
use crate::segment_laws;
use crate::segment_layout;
use crate::segment_layout::{SegmentArgs, SegmentLayout, SegmentRecord};
use crate::stable_order;
use vstd::prelude::*;

verus! {

/// Whether an event emits a section that belongs to a segment: the section is not empty, or is part
/// of the output all the same; if it takes up thread-local address space only, the segment is the
/// thread-local one; and if the segment is loaded, the section is allocated.
pub open spec fn belongs<'data>(
    layouts: Seq<OutputRecordLayout>,
    sections: &OutputSections<'data>,
    order: &OutputOrder<'data>,
    segments: &ProgramSegments,
    segment: ProgramSegmentId,
    i: int,
    id: OutputSectionId,
) -> bool {
    let layout = layouts[id.0 as int];
    let primary = sections.primary(id);
    &&& 0 <= i < order.events@.len()
    &&& order.events@[i] == OrderEvent::Section(id)
    &&& layout.file_size > 0 || layout.mem_size > 0
        || sections.output_section_indexes@[primary.0 as int] is Some
    &&& sections.info(id).section_attributes.tls_address_space_only ==> segments.def(segment).tls
    &&& segments.def(segment).loadable ==> sections.info(primary).section_attributes.alloc
}

/// A bound of a section or a segment.
pub ghost enum Edge {
    MemoryStart,
    MemoryEnd,
    FileStart,
    FileEnd,
    LoadStart,
}

/// Where a section or a segment has its bound.
pub open spec fn edge_of(layout: OutputRecordLayout, edge: Edge) -> int {
    match edge {
        Edge::MemoryStart => layout.mem_offset as int,
        Edge::MemoryEnd => layout.mem_offset + layout.mem_size,
        Edge::FileStart => layout.file_offset as int,
        Edge::FileEnd => layout.file_offset + layout.file_size,
        Edge::LoadStart => layout.lma_offset as int,
    }
}

/// Whether a section that belongs to a segment, between two events, has a bound at the given place.
pub open spec fn reached<'data>(
    layouts: Seq<OutputRecordLayout>,
    sections: &OutputSections<'data>,
    order: &OutputOrder<'data>,
    segments: &ProgramSegments,
    segment: ProgramSegmentId,
    start: int,
    until: int,
    edge: Edge,
    value: int,
) -> bool {
    exists|i: int, id: OutputSectionId|
        start < i < until && #[trigger] belongs(
            layouts,
            sections,
            order,
            segments,
            segment,
            i,
            id,
        ) && edge_of(layouts[id.0 as int], edge) == value
}

/// Whether bounds hold a section.
pub open spec fn covers(segment: OutputRecordLayout, section: OutputRecordLayout) -> bool {
    &&& segment.mem_offset <= section.mem_offset
    &&& section.mem_offset + section.mem_size <= segment.mem_offset + segment.mem_size
    &&& segment.file_offset <= section.file_offset
    &&& section.file_offset + section.file_size <= segment.file_offset + segment.file_size
    &&& segment.lma_offset <= section.lma_offset
    &&& section.alignment.exp() <= segment.alignment.exp()
}

spec fn record_edge(record: SegmentRecord, edge: Edge) -> int {
    match edge {
        Edge::MemoryStart => record.mem_start as int,
        Edge::MemoryEnd => record.mem_end as int,
        Edge::FileStart => record.file_start as int,
        Edge::FileEnd => record.file_end as int,
        Edge::LoadStart => record.lma_start as int,
    }
}

spec fn record_covers(record: SegmentRecord, section: OutputRecordLayout) -> bool {
    &&& record.mem_start <= section.mem_offset
    &&& section.mem_offset + section.mem_size <= record.mem_end
    &&& record.file_start <= section.file_offset
    &&& section.file_offset + section.file_size <= record.file_end
    &&& record.lma_start <= section.lma_offset
    &&& section.alignment.exp() <= record.alignment.exp()
}

/// Whether some section between two events belongs to a segment.
spec fn any_belongs<'data>(
    layouts: Seq<OutputRecordLayout>,
    sections: &OutputSections<'data>,
    order: &OutputOrder<'data>,
    segments: &ProgramSegments,
    segment: ProgramSegmentId,
    start: int,
    until: int,
) -> bool {
    exists|i: int, id: OutputSectionId|
        start < i < until && #[trigger] belongs(
            layouts,
            sections,
            order,
            segments,
            segment,
            i,
            id,
        )
}

/// What is known of the record of a segment that has seen the events from `start` up to `until`.
spec fn record_fits<'data>(
    layouts: Seq<OutputRecordLayout>,
    sections: &OutputSections<'data>,
    order: &OutputOrder<'data>,
    segments: &ProgramSegments,
    segment: ProgramSegmentId,
    record: SegmentRecord,
    start: int,
    until: int,
) -> bool {
    let any = any_belongs(layouts, sections, order, segments, segment, start, until);
    &&& forall|i: int, id: OutputSectionId|
        start < i < until && #[trigger] belongs(
            layouts,
            sections,
            order,
            segments,
            segment,
            i,
            id,
        ) ==> record_covers(record, layouts[id.0 as int])
    &&& any ==> forall|edge: Edge| #[trigger]
        reached(
            layouts,
            sections,
            order,
            segments,
            segment,
            start,
            until,
            edge,
            record_edge(record, edge),
        )
    &&& !any ==> record == segment_layout::started(false, None)
}

proof fn lemma_record_fits<'data>(
    layouts: Seq<OutputRecordLayout>,
    sections: &OutputSections<'data>,
    order: &OutputOrder<'data>,
    segments: &ProgramSegments,
    args: SegmentArgs,
    segment: ProgramSegmentId,
    start: int,
    end: int,
    count: int,
)
    requires
        order.wf(sections, segments),
        segments.has(segment),
        !segments.def(segment).stack,
        segment_laws::open_during(order.events@, segment, start, end),
        start < count <= end,
        segment_layout::segments_after(layouts, sections, order, segments, args, count) is Ok,
    ensures
        segment_layout::segments_after(
            layouts,
            sections,
            order,
            segments,
            args,
            count,
        )->Ok_0.0[segment.0 as int] matches Some(record) && record_fits(
            layouts,
            sections,
            order,
            segments,
            segment,
            record,
            start,
            count,
        ),
    decreases count,
{
    let events = order.events@;
    let event = events[count - 1];
    let (active, _) = segment_layout::segments_after(
        layouts,
        sections,
        order,
        segments,
        args,
        count,
    )->Ok_0;
    segment_layout::lemma_segment_count(layouts, sections, order, segments, args, count);
    segment_layout::lemma_segment_count(layouts, sections, order, segments, args, count - 1);
    assert(order.event_wf(event, sections, segments));
    let record = active[segment.0 as int]->0;
    if count == start + 1 {
        assert(!any_belongs(layouts, sections, order, segments, segment, start, count));
    } else {
        lemma_record_fits(layouts, sections, order, segments, args, segment, start, end, count - 1);
        let (before, _) = segment_layout::segments_after(
            layouts,
            sections,
            order,
            segments,
            args,
            count - 1,
        )->Ok_0;
        let old_record = before[segment.0 as int]->0;
        assert(segment_layout::starts_or_ends(event, segment.0 as int) ==> false);
        let any = any_belongs(layouts, sections, order, segments, segment, start, count - 1);
        if event is Section && belongs(
            layouts,
            sections,
            order,
            segments,
            segment,
            count - 1,
            event->Section_0,
        ) {
            let id = event->Section_0;
            let layout = layouts[id.0 as int];
            assert(!segment_layout::none_active(before)) by {
                assert(before[segment.0 as int] is Some);
            }
            assert(segment_layout::counts_for(sections, segments, id, segment.0 as int));
            assert(before[segment.0 as int] is Some);
            assert(segment_layout::counts(before, sections, segments, id));
            assert(segment_layout::ends_fit(layout));
            assert(record == segment_layout::extended(old_record, layout));
            assert(record_covers(record, layout));
            assert forall|i: int, other: OutputSectionId|
                start < i < count && #[trigger] belongs(
                    layouts,
                    sections,
                    order,
                    segments,
                    segment,
                    i,
                    other,
                ) implies record_covers(record, layouts[other.0 as int]) by {
                if i < count - 1 {
                    assert(record_covers(old_record, layouts[other.0 as int]));
                }
            }
            assert forall|edge: Edge| #[trigger]
                reached(
                    layouts,
                    sections,
                    order,
                    segments,
                    segment,
                    start,
                    count,
                    edge,
                    record_edge(record, edge),
                ) by {
                if edge_of(layout, edge) != record_edge(record, edge) {
                    assert(any);
                    assert(record_edge(record, edge) == record_edge(old_record, edge));
                    assert(reached(
                        layouts,
                        sections,
                        order,
                        segments,
                        segment,
                        start,
                        count - 1,
                        edge,
                        record_edge(old_record, edge),
                    ));
                }
            }
            assert(any_belongs(layouts, sections, order, segments, segment, start, count));
        } else {
            assert(record == old_record);
            assert forall|i: int, other: OutputSectionId|
                start < i < count && #[trigger] belongs(
                    layouts,
                    sections,
                    order,
                    segments,
                    segment,
                    i,
                    other,
                ) implies i < count - 1 by {
            }
            if any_belongs(layouts, sections, order, segments, segment, start, count) {
                assert(any);
                assert forall|edge: Edge| #[trigger]
                    reached(
                        layouts,
                        sections,
                        order,
                        segments,
                        segment,
                        start,
                        count,
                        edge,
                        record_edge(record, edge),
                    ) by {
                    assert(reached(
                        layouts,
                        sections,
                        order,
                        segments,
                        segment,
                        start,
                        count - 1,
                        edge,
                        record_edge(old_record, edge),
                    ));
                }
            }
        }
    }
}

proof fn lemma_complete_stays<'data>(
    layouts: Seq<OutputRecordLayout>,
    sections: &OutputSections<'data>,
    order: &OutputOrder<'data>,
    segments: &ProgramSegments,
    args: SegmentArgs,
    segment: ProgramSegmentId,
    start: int,
    end: int,
    count: int,
)
    requires
        order.wf(sections, segments),
        segments.has(segment),
        !segments.def(segment).stack,
        segment_laws::open_during(order.events@, segment, start, end),
        end < count <= order.events@.len(),
        segment_layout::segments_after(layouts, sections, order, segments, args, count) is Ok,
    ensures
        segment_layout::segments_after(
            layouts,
            sections,
            order,
            segments,
            args,
            count,
        )->Ok_0.1[segment.0 as int] matches Some(record) && record_fits(
            layouts,
            sections,
            order,
            segments,
            segment,
            record,
            start,
            end,
        ),
    decreases count,
{
    segment_layout::lemma_segment_count(layouts, sections, order, segments, args, count);
    segment_layout::lemma_segment_count(layouts, sections, order, segments, args, count - 1);
    assert(order.event_wf(order.events@[count - 1], sections, segments));
    if count == end + 1 {
        lemma_record_fits(layouts, sections, order, segments, args, segment, start, end, end);
    } else {
        lemma_complete_stays(
            layouts,
            sections,
            order,
            segments,
            args,
            segment,
            start,
            end,
            count - 1,
        );
        assert(!segment_layout::starts_or_ends(order.events@[count - 1], segment.0 as int));
    }
}

/// The layout of a segment, after all events.
pub open spec fn extent<'data>(
    layouts: Seq<OutputRecordLayout>,
    sections: &OutputSections<'data>,
    order: &OutputOrder<'data>,
    segments: &ProgramSegments,
    args: SegmentArgs,
    segment: ProgramSegmentId,
) -> OutputRecordLayout {
    segment_layout::sizes_of(
        segment_layout::segments_after(
            layouts,
            sections,
            order,
            segments,
            args,
            order.events@.len() as int,
        )->Ok_0.1[segment.0 as int]->0,
    )
}

/// A segment reaches over every section that belongs to it, in memory and in the file, and no
/// further: at each of its bounds there is such a section. A segment without sections is empty.
pub proof fn lemma_segment_reaches_over_sections<'data>(
    layouts: Seq<OutputRecordLayout>,
    sections: &OutputSections<'data>,
    order: &OutputOrder<'data>,
    segments: &ProgramSegments,
    args: SegmentArgs,
    segment: ProgramSegmentId,
    start: int,
    end: int,
)
    requires
        order.wf(sections, segments),
        segments.has(segment),
        !segments.def(segment).stack,
        segment_laws::open_during(order.events@, segment, start, end),
        segment_layout::segments_after(
            layouts,
            sections,
            order,
            segments,
            args,
            order.events@.len() as int,
        ) is Ok,
    ensures
        ({
            let sizes = extent(layouts, sections, order, segments, args, segment);
            &&& forall|i: int, id: OutputSectionId|
                start < i < end && #[trigger] belongs(
                    layouts,
                    sections,
                    order,
                    segments,
                    segment,
                    i,
                    id,
                ) ==> covers(sizes, layouts[id.0 as int])
            &&& (exists|i: int, id: OutputSectionId|
                start < i < end && #[trigger] belongs(
                    layouts,
                    sections,
                    order,
                    segments,
                    segment,
                    i,
                    id,
                )) ==> forall|edge: Edge| #[trigger]
                reached(
                    layouts,
                    sections,
                    order,
                    segments,
                    segment,
                    start,
                    end,
                    edge,
                    edge_of(sizes, edge),
                )
            &&& !(exists|i: int, id: OutputSectionId|
                start < i < end && #[trigger] belongs(
                    layouts,
                    sections,
                    order,
                    segments,
                    segment,
                    i,
                    id,
                )) ==> sizes.file_size == 0 && sizes.mem_size == 0
        }),
{
    lemma_complete_stays(
        layouts,
        sections,
        order,
        segments,
        args,
        segment,
        start,
        end,
        order.events@.len() as int,
    );
    let record = segment_layout::segments_after(
        layouts,
        sections,
        order,
        segments,
        args,
        order.events@.len() as int,
    )->Ok_0.1[segment.0 as int]->0;
    let sizes = segment_layout::sizes_of(record);
    if any_belongs(layouts, sections, order, segments, segment, start, end) {
        let (i, id) = choose|i: int, id: OutputSectionId|
            start < i < end && #[trigger] belongs(
                layouts,
                sections,
                order,
                segments,
                segment,
                i,
                id,
            );
        assert(record_covers(record, layouts[id.0 as int]));
        assert forall|edge: Edge| #[trigger]
            reached(
                layouts,
                sections,
                order,
                segments,
                segment,
                start,
                end,
                edge,
                edge_of(sizes, edge),
            ) by {
            assert(edge_of(sizes, edge) == record_edge(record, edge));
        }
    }
}

/// The stack segment is as large as the arguments ask for, and in no file.
pub proof fn lemma_stack_segment_size(stack_size: Option<u64>)
    ensures
        ({
            let sizes = segment_layout::sizes_of(segment_layout::started(true, stack_size));
            &&& sizes.file_size == 0
            &&& sizes.mem_offset == 0
            &&& sizes.mem_size == (match stack_size {
                Some(size) => size,
                None => 0,
            })
        }),
{
}

/// The segments of the output are those that are active, each once, in the order of their keys:
/// neither the sorting nor anything else changes the layout of a segment.
pub proof fn lemma_segments_are_the_active_ones(
    complete: Seq<Option<SegmentRecord>>,
    ids: Seq<ProgramSegmentId>,
    keys: Seq<(u64, u64)>,
    list: Seq<SegmentLayout>,
    i: int,
)
    requires
        keys.len() == ids.len(),
        segment_layout::sorted_as(list, segment_layout::unsorted_layouts(complete, ids), keys),
        0 <= i < list.len(),
    ensures
        list.len() == ids.len(),
        ids.contains(list[i].id),
        list[i].sizes == segment_layout::sizes_of(complete[list[i].id.0 as int]->0),
{
    let unsorted = segment_layout::unsorted_layouts(complete, ids);
    let positions = choose|positions: Seq<usize>| #[trigger]
        stable_order::is_stable_order(positions, keys) && list == Seq::new(
            positions.len(),
            |k: int| unsorted[positions[k] as int],
        );
    assert(list[i].id == ids[positions[i] as int]);
}

/// Without a linker script that lists the segments, they are sorted by kind, and those of a kind by
/// their addresses. Otherwise they are in the order of the script.
pub proof fn lemma_segments_are_sorted(
    segments: &ProgramSegments,
    has_custom_phdrs: bool,
    complete: Seq<Option<SegmentRecord>>,
    ids: Seq<ProgramSegmentId>,
    list: Seq<SegmentLayout>,
    i: int,
    j: int,
)
    requires
        ({
            let unsorted = segment_layout::unsorted_layouts(complete, ids);
            segment_layout::sorted_as(
                list,
                unsorted,
                segment_layout::sort_keys(segments, has_custom_phdrs, unsorted),
            )
        }),
        0 <= i < j < list.len(),
    ensures
        has_custom_phdrs ==> list[i].id.0 as u64 <= list[j].id.0 as u64,
        !has_custom_phdrs ==> {
            let (a, b) = (segments.def(list[i].id).order_key, segments.def(list[j].id).order_key);
            a as u64 <= b as u64 && (a == b ==> list[i].sizes.mem_offset
                <= list[j].sizes.mem_offset)
        },
{
    let unsorted = segment_layout::unsorted_layouts(complete, ids);
    let keys = segment_layout::sort_keys(segments, has_custom_phdrs, unsorted);
    let positions = choose|positions: Seq<usize>| #[trigger]
        stable_order::is_stable_order(positions, keys) && list == Seq::new(
            positions.len(),
            |k: int| unsorted[positions[k] as int],
        );
    assert(list[i] == unsorted[positions[i] as int]);
    assert(list[j] == unsorted[positions[j] as int]);
    assert(keys[positions[i] as int] == segment_layout::sort_key(
        segments,
        has_custom_phdrs,
        list[i],
    ));
    assert(keys[positions[j] as int] == segment_layout::sort_key(
        segments,
        has_custom_phdrs,
        list[j],
    ));
}

} // verus!
