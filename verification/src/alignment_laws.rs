//! What sections and segments are aligned for.
use crate::alignment::Alignment;
use crate::output_order::OrderEvent;
use crate::output_section_id::{OutputSectionId, PartId};
use crate::output_section_map::DefaultValue;
use crate::output_section_part_map::OutputSectionPartMap;
use crate::output_sections::OutputSections;
use crate::part_alignment;
use crate::program_segments::{ProgramSegmentId, ProgramSegments};
use crate::record_layout::OutputRecordLayout;
use crate::segment_alignments;
use crate::segment_layout;
use crate::segment_layout::{SegmentLayout, SegmentLayoutError, SegmentRecord};
use vstd::prelude::*;

verus! {

/// Whether a segment has started before an event and has not ended since.
pub open spec fn is_open<'data>(
    events: Seq<OrderEvent<'data>>,
    segment: ProgramSegmentId,
    start: int,
    at: int,
) -> bool {
    &&& 0 <= start < at
    &&& events[start] == OrderEvent::<'data>::SegmentStart(segment)
    &&& forall|j: int|
        start < j < at ==> #[trigger] events[j] != OrderEvent::<'data>::SegmentEnd(segment)
}

proof fn lemma_open_segment_is_active<'data>(
    sizes: &OutputSectionPartMap<u64>,
    segments: &ProgramSegments,
    events: Seq<OrderEvent<'data>>,
    base: Alignment,
    sections: &OutputSections<'data>,
    segment: ProgramSegmentId,
    start: int,
    at: int,
)
    requires
        is_open(events, segment, start, at),
        segments.def(segment).loadable,
    ensures
        ({
            let (exponents, active) = segment_alignments::alignments_before(
                sizes,
                segments,
                events,
                base,
                sections,
                at,
            );
            exponents.contains_key(segment.0 as u64) && active.contains(segment)
        }),
    decreases at,
{
    let (before, active) = segment_alignments::alignments_before(
        sizes,
        segments,
        events,
        base,
        sections,
        at - 1,
    );
    let (_, after) = segment_alignments::alignments_before(
        sizes,
        segments,
        events,
        base,
        sections,
        at,
    );
    if start == at - 1 {
        assert(after[active.len() as int] == segment);
    } else {
        lemma_open_segment_is_active(
            sizes,
            segments,
            events,
            base,
            sections,
            segment,
            start,
            at - 1,
        );
        assert(events[at - 1] != OrderEvent::<'data>::SegmentEnd(segment));
        let k = choose|k: int| 0 <= k < active.len() && active[k] == segment;
        match events[at - 1] {
            OrderEvent::SegmentStart(id) => {
                if segments.def(id).loadable {
                    assert(after[k] == segment);
                }
            },
            OrderEvent::SegmentEnd(id) => {
                broadcast use vstd::seq_lib::group_filter_ensures;

                assert(active.filter(|other: ProgramSegmentId| other != id).contains(segment));
            },
            _ => {},
        }
    }
}

proof fn lemma_alignments_grow<'data>(
    sizes: &OutputSectionPartMap<u64>,
    segments: &ProgramSegments,
    events: Seq<OrderEvent<'data>>,
    base: Alignment,
    sections: &OutputSections<'data>,
    id: u64,
    from: int,
    to: int,
)
    requires
        0 <= from <= to,
        segment_alignments::alignments_before(
            sizes,
            segments,
            events,
            base,
            sections,
            from,
        ).0.contains_key(id),
    ensures
        ({
            let before = segment_alignments::alignments_before(
                sizes,
                segments,
                events,
                base,
                sections,
                from,
            ).0;
            let after = segment_alignments::alignments_before(
                sizes,
                segments,
                events,
                base,
                sections,
                to,
            ).0;
            after.contains_key(id) && before[id] <= after[id]
        }),
    decreases to,
{
    if from < to {
        lemma_alignments_grow(sizes, segments, events, base, sections, id, from, to - 1);
    }
}

/// A segment that is loaded is aligned for each section that is emitted while it is open.
pub proof fn lemma_segment_is_aligned_for_its_sections<'data>(
    sizes: &OutputSectionPartMap<u64>,
    segments: &ProgramSegments,
    events: Seq<OrderEvent<'data>>,
    base: Alignment,
    sections: &OutputSections<'data>,
    segment: ProgramSegmentId,
    id: OutputSectionId,
    start: int,
    at: int,
)
    requires
        is_open(events, segment, start, at),
        at < events.len(),
        events[at] == OrderEvent::<'data>::Section(id),
        segments.def(segment).loadable,
        sizes.max_exponent(id, sections) <= 16,
    ensures
        ({
            let exponents = segment_alignments::alignments_before(
                sizes,
                segments,
                events,
                base,
                sections,
                events.len() as int,
            ).0;
            &&& exponents.contains_key(segment.0 as u64)
            &&& sizes.max_exponent(id, sections) <= exponents[segment.0 as u64]
        }),
{
    lemma_open_segment_is_active(sizes, segments, events, base, sections, segment, start, at);
    let (exponents, active) = segment_alignments::alignments_before(
        sizes,
        segments,
        events,
        base,
        sections,
        at,
    );
    let key = segment.0 as u64;
    assert(ProgramSegmentId(key as usize) == segment);
    lemma_alignments_grow(
        sizes,
        segments,
        events,
        base,
        sections,
        key,
        at + 1,
        events.len() as int,
    );
}

/// A segment is aligned no more than for pages and for sections that are emitted.
pub proof fn lemma_segment_is_aligned_for_nothing_else<'data>(
    sizes: &OutputSectionPartMap<u64>,
    segments: &ProgramSegments,
    events: Seq<OrderEvent<'data>>,
    base: Alignment,
    sections: &OutputSections<'data>,
    key: u64,
    count: int,
)
    requires
        0 <= count <= events.len(),
        base.exp() <= 16,
        forall|id: OutputSectionId| #[trigger] sizes.max_exponent(id, sections) <= 16,
        segment_alignments::alignments_before(
            sizes,
            segments,
            events,
            base,
            sections,
            count,
        ).0.contains_key(key),
    ensures
        ({
            let exponent = segment_alignments::alignments_before(
                sizes,
                segments,
                events,
                base,
                sections,
                count,
            ).0[key];
            exponent == base.exp() || exists|i: int|
                0 <= i < count && (#[trigger] events[i]) is Section && sizes.max_exponent(
                    events[i]->Section_0,
                    sections,
                ) == exponent
        }),
    decreases count,
{
    if count > 0 {
        let before = segment_alignments::alignments_before(
            sizes,
            segments,
            events,
            base,
            sections,
            count - 1,
        ).0;
        let event = events[count - 1];
        if before.contains_key(key) {
            lemma_segment_is_aligned_for_nothing_else(
                sizes,
                segments,
                events,
                base,
                sections,
                key,
                count - 1,
            );
            if before[key] != base.exp() {
                let i = choose|i: int|
                    0 <= i < count - 1 && (#[trigger] events[i]) is Section && sizes.max_exponent(
                        events[i]->Section_0,
                        sections,
                    ) == before[key];
                assert(events[i] is Section);
            }
        }
        assert(events[count - 1] == event);
        if event is Section {
            assert(sizes.max_exponent(event->Section_0, sections) <= 16);
        }
    }
}

proof fn lemma_first_in_use<T: DefaultValue>(entries: Seq<(PartId, T)>, from: int)
    requires
        0 <= from <= entries.len(),
    ensures
        match part_alignment::first_in_use(entries, from) {
            Some(part) => exists|k: int|
                from <= k < entries.len() && (#[trigger] entries[k]).0 == part && entries[k].1
                    != T::spec_default() && forall|j: int|
                    from <= j < k ==> (#[trigger] entries[j]).1 == T::spec_default(),
            None => forall|k: int|
                from <= k < entries.len() ==> (#[trigger] entries[k]).1 == T::spec_default(),
        },
    decreases entries.len() - from,
{
    if from < entries.len() {
        let entry = entries[from];
        if entry.1 == T::spec_default() {
            lemma_first_in_use(entries, from + 1);
            if part_alignment::first_in_use(entries, from + 1) is Some {
                let part = part_alignment::first_in_use(entries, from + 1)->0;
                let k = choose|k: int|
                    from + 1 <= k < entries.len() && (#[trigger] entries[k]).0 == part
                        && entries[k].1 != T::spec_default() && forall|j: int|
                        from + 1 <= j < k ==> (#[trigger] entries[j]).1 == T::spec_default();
                assert(entries[k].0 == part);
            }
        } else {
            assert(entries[from].0 == entry.0);
        }
    }
}

/// A section is aligned for each of its parts that is in use, and at least as its least alignment
/// says. It is aligned for nothing else.
pub proof fn lemma_section_is_aligned_for_its_parts<'data>(
    sizes: &OutputSectionPartMap<u64>,
    sections: &OutputSections<'data>,
    id: OutputSectionId,
)
    requires
        sizes.wf(),
        sections.wf(),
        sections.has(id),
        sizes.dense() == sections.platform.built_in_part_count(),
    ensures
        sections.info(id).min_alignment.exp() <= sizes.max_exponent(id, sections),
        forall|part: u32| #[trigger]
            sizes@.contains_key(part) && sections.platform.section_of(part as int) == id.0
                && sizes@[part] > 0 ==> sections.alignment_of(PartId(part)) <= sizes.max_exponent(
                id,
                sections,
            ),
        sizes.max_exponent(id, sections) == sections.info(id).min_alignment.exp() || exists|
            part: u32,
        | #[trigger]
            sizes@.contains_key(part) && sections.platform.section_of(part as int) == id.0
                && sizes@[part] > 0 && sections.alignment_of(PartId(part)) == sizes.max_exponent(
                id,
                sections,
            ),
{
    let range = sections.parts_of(id);
    sections.lemma_numbers_parts(id);
    sections.lemma_one_kind(sizes, id);
    sizes.lemma_entries_in(range);
    let entries = sizes.entries_in(range);
    lemma_first_in_use(entries, 0);
    let platform = sections.platform;
    assert forall|part: u32| #[trigger]
        sizes@.contains_key(part) && platform.section_of(part as int) == id.0 && sizes@[part]
            > 0 implies sections.alignment_of(PartId(part)) <= sizes.max_exponent(id, sections) by {
        crate::output_section_id::lemma_part_round_trip(platform, id.0 as int, part as int);
        assert(crate::output_section_part_map::has_entry(entries, part));
        let j = choose|j: int| 0 <= j < entries.len() && (#[trigger] entries[j]).0.0 == part;
        assert(entries[j].1 == sizes@[part]);
        let first = part_alignment::first_in_use(entries, 0)->0;
        let k = choose|k: int|
            0 <= k < entries.len() && (#[trigger] entries[k]).0 == first && entries[k].1 != 0
                && forall|i: int| 0 <= i < k ==> (#[trigger] entries[i]).1 == 0;
        assert(k <= j);
        assert(entries[k].0.0 <= entries[j].0.0);
        if id.0 >= platform.regular_base() {
            crate::output_section_id::lemma_alignment_round_trip(
                platform,
                id.0 as int,
                part as int,
            );
            crate::output_section_id::lemma_alignment_round_trip(
                platform,
                id.0 as int,
                first.0 as int,
            );
        }
    }
    if part_alignment::first_in_use(entries, 0) is Some {
        let first = part_alignment::first_in_use(entries, 0)->0;
        let k = choose|k: int|
            0 <= k < entries.len() && (#[trigger] entries[k]).0 == first && entries[k].1 != 0
                && forall|i: int| 0 <= i < k ==> (#[trigger] entries[i]).1 == 0;
        assert(sizes@.contains_key(entries[k].0.0));
        assert(sizes@.contains_key(first.0));
        crate::output_section_id::lemma_part_round_trip(platform, id.0 as int, first.0 as int);
    }
}

/// A part gets its own alignment if the section is aligned for it, and otherwise that of the section.
pub proof fn lemma_parts_are_not_aligned_more_than_their_section<'data>(
    sizes: &OutputSectionPartMap<u64>,
    sections: &OutputSections<'data>,
    id: OutputSectionId,
    part: PartId,
)
    ensures
        sizes.capped_exponent(part, id, sections) <= sections.alignment_of(part),
        sizes.capped_exponent(part, id, sections) <= sizes.max_exponent(id, sections),
        sizes.capped_exponent(part, id, sections) == sections.alignment_of(part)
            || sizes.capped_exponent(part, id, sections) == sizes.max_exponent(id, sections),
{
}

/// A section that is in the output but in no segment must not have an address or be allocated, unless
/// a linker script lists the segments. Empty sections that are not in the output do not count.
pub proof fn lemma_sections_outside_segments_are_rejected<'data>(
    active: Seq<Option<SegmentRecord>>,
    layouts: Seq<OutputRecordLayout>,
    sections: &OutputSections<'data>,
    segments: &ProgramSegments,
    has_custom_phdrs: bool,
    id: OutputSectionId,
)
    requires
        forall|k: int| 0 <= k < active.len() ==> (#[trigger] active[k]) is None,
    ensures
        ({
            let layout = layouts[id.0 as int];
            let primary = sections.primary(id);
            let allocated = sections.info(primary).section_attributes.alloc;
            let in_output = layout.file_size > 0 || layout.mem_size > 0
                || sections.output_section_indexes@[primary.0 as int] is Some;
            let result = segment_layout::section_in_segments(
                active,
                layouts,
                sections,
                segments,
                has_custom_phdrs,
                id,
            );
            &&& result is Err <==> in_output && !has_custom_phdrs && (layout.mem_offset != 0
                || allocated)
            &&& result matches Err(error) ==> (if layout.mem_offset != 0 {
                error == SegmentLayoutError::AddressOutsideSegments(id)
            } else {
                error == SegmentLayoutError::AllocOutsideSegments(id)
            })
            &&& result matches Ok(after) ==> after == active
        }),
{
}

proof fn lemma_last_tls(segments: &ProgramSegments, layouts: Seq<SegmentLayout>, count: int)
    requires
        0 <= count <= layouts.len(),
    ensures
        match segment_layout::last_tls(segments, layouts, count) {
            Some(layout) => exists|i: int|
                0 <= i < count && segments.def((#[trigger] layouts[i]).id).tls && layouts[i].sizes
                    == layout,
            None => forall|i: int|
                0 <= i < count ==> !segments.def((#[trigger] layouts[i]).id).tls,
        },
    decreases count,
{
    if count > 0 {
        let last = layouts[count - 1];
        if segments.def(last.id).tls {
            assert(layouts[count - 1].sizes == last.sizes);
        } else {
            lemma_last_tls(segments, layouts, count - 1);
            if segment_layout::last_tls(segments, layouts, count - 1) is Some {
                let layout = segment_layout::last_tls(segments, layouts, count - 1)->0;
                let i = choose|i: int|
                    0 <= i < count - 1 && segments.def((#[trigger] layouts[i]).id).tls
                        && layouts[i].sizes == layout;
                assert(layouts[i].sizes == layout);
            }
        }
    }
}

/// The layout of thread-local data is that of a thread-local segment. There is one if and only if
/// there is such a segment.
pub proof fn lemma_thread_local_layout(segments: &ProgramSegments, layouts: Seq<SegmentLayout>)
    ensures
        match segment_layout::last_tls(segments, layouts, layouts.len() as int) {
            Some(layout) => exists|i: int|
                0 <= i < layouts.len() && segments.def((#[trigger] layouts[i]).id).tls
                    && layouts[i].sizes == layout,
            None => forall|i: int|
                0 <= i < layouts.len() ==> !segments.def((#[trigger] layouts[i]).id).tls,
        },
{
    lemma_last_tls(segments, layouts, layouts.len() as int);
}

/// Calls along a list are made one after the other: the first one gets the initial state, and each
/// leaves the state that the next one gets. There is one image for each call.
pub proof fn lemma_calls_hand_on_state<S, T, U, F: Fn(S, PartId, Alignment, T) -> (S, U)>(
    list: Seq<(PartId, Alignment, T)>,
    initial: S,
    cb: F,
    states: Seq<S>,
    images: Seq<U>,
    k: int,
)
    requires
        part_alignment::runs_along(list, initial, cb, states, images),
        0 <= k < images.len(),
    ensures
        images.len() <= list.len(),
        states.len() == images.len() + 1,
        states.first() == initial,
        call_ensures(
            cb,
            (states[k], list[k].0, list[k].1, list[k].2),
            (states[k + 1], images[k]),
        ),
{
}

} // verus!
