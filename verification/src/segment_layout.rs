//! The sizes and positions of segments.
use crate::alignment::Alignment;
use crate::output_order::{OrderEvent, OutputOrder};
use crate::output_section_id::OutputSectionId;
use crate::output_section_map::OutputSectionMap;
use crate::output_sections::{OutputSections, SectionOutputInfo};
use crate::program_segments::{ProgramSegmentId, ProgramSegments};
use crate::record_layout::{max_u64, min_u64, OutputRecordLayout};
use crate::stable_order;
use crate::stable_order::stable_order;
use vstd::prelude::*;

verus! {

/// The layout of a segment.
#[derive(Clone, Copy, Debug, PartialEq, Eq, Structural)]
pub struct SegmentLayout {
    pub id: ProgramSegmentId,
    pub sizes: OutputRecordLayout,
}

/// The layouts of the segments of the output.
#[derive(Debug)]
pub struct SegmentLayouts {
    /// Segments without active sections are left out, so positions are not segment IDs.
    pub segments: Vec<SegmentLayout>,
    pub tls_layout: Option<OutputRecordLayout>,
}

/// What the headers describe.
#[derive(Debug)]
pub struct HeaderInfo {
    pub num_output_sections_with_content: u32,
    pub active_segment_ids: Vec<ProgramSegmentId>,
}

/// What the arguments say about segments.
#[derive(Clone, Copy, Debug, PartialEq, Eq, Structural)]
pub struct SegmentArgs {
    pub should_output_partial_object: bool,
    pub stack_size_override: Option<u64>,
}

/// Why segments cannot be laid out.
#[derive(Clone, Copy, Debug, PartialEq, Eq, Structural)]
pub enum SegmentLayoutError {
    /// A segment ends that has not started.
    EndWithoutStart(ProgramSegmentId),
    /// A section that is in no segment has an address.
    AddressOutsideSegments(OutputSectionId),
    /// A section that is in no segment is allocated.
    AllocOutsideSegments(OutputSectionId),
    /// The end of a section is not a 64-bit number.
    Overflow,
}

/// What has been seen of a segment so far.
#[derive(Clone, Copy, Debug, PartialEq, Eq, Structural)]
pub struct SegmentRecord {
    pub file_start: u64,
    pub file_end: u64,
    pub mem_start: u64,
    pub mem_end: u64,
    pub lma_start: u64,
    pub lma_end: u64,
    pub alignment: Alignment,
}

/// A segment before any section has been seen. The stack segment holds no sections; it has the
/// size that the arguments ask for.
pub open spec fn started(stack: bool, stack_size: Option<u64>) -> SegmentRecord {
    if stack {
        let size = match stack_size {
            Some(size) => size,
            None => 0,
        };
        SegmentRecord {
            file_start: 0,
            file_end: 0,
            mem_start: 0,
            mem_end: size,
            lma_start: 0,
            lma_end: size,
            alignment: Alignment::spec_one(),
        }
    } else {
        SegmentRecord {
            file_start: u64::MAX,
            file_end: 0,
            mem_start: u64::MAX,
            mem_end: 0,
            lma_start: u64::MAX,
            lma_end: 0,
            alignment: Alignment::spec_one(),
        }
    }
}

/// Whether the ends of a section are 64-bit numbers.
pub open spec fn ends_fit(layout: OutputRecordLayout) -> bool {
    &&& layout.in_range()
    &&& layout.lma_offset + layout.mem_size <= u64::MAX
}

/// The smallest segment that holds what it held before and a section.
pub open spec fn extended(record: SegmentRecord, layout: OutputRecordLayout) -> SegmentRecord {
    SegmentRecord {
        file_start: crate::record_layout::smaller(record.file_start, layout.file_offset),
        file_end: crate::record_layout::larger(record.file_end, layout.spec_file_end() as u64),
        mem_start: crate::record_layout::smaller(record.mem_start, layout.mem_offset),
        mem_end: crate::record_layout::larger(record.mem_end, layout.spec_mem_end() as u64),
        lma_start: crate::record_layout::smaller(record.lma_start, layout.lma_offset),
        lma_end: crate::record_layout::larger(
            record.lma_end,
            (layout.lma_offset + layout.mem_size) as u64,
        ),
        alignment: record.alignment.spec_max(layout.alignment),
    }
}

/// Whether a section is empty and does not end up in the output.
pub open spec fn is_ignored<'data>(
    layouts: Seq<OutputRecordLayout>,
    sections: &OutputSections<'data>,
    id: OutputSectionId,
) -> bool {
    &&& layouts[id.0 as int].file_size == 0
    &&& layouts[id.0 as int].mem_size == 0
    &&& sections.output_section_indexes@[sections.primary(id).0 as int] is None
}

/// Whether a section counts for a segment that is active when it is emitted. Sections that take up
/// thread-local address space only count for the thread-local segment; those that are not
/// allocated do not count for segments that are loaded.
pub open spec fn counts_for<'data>(
    sections: &OutputSections<'data>,
    segments: &ProgramSegments,
    id: OutputSectionId,
    segment: int,
) -> bool {
    let def = segments.defs@[segment];
    &&& sections.info(id).section_attributes.tls_address_space_only ==> def.tls
    &&& def.loadable ==> sections.info(sections.primary(id)).section_attributes.alloc
}

/// Whether no segment is active.
pub open spec fn none_active(active: Seq<Option<SegmentRecord>>) -> bool {
    forall|k: int| 0 <= k < active.len() ==> (#[trigger] active[k]) is None
}

/// Whether a section counts for any active segment.
pub open spec fn counts<'data>(
    active: Seq<Option<SegmentRecord>>,
    sections: &OutputSections<'data>,
    segments: &ProgramSegments,
    id: OutputSectionId,
) -> bool {
    exists|k: int|
        0 <= k < active.len() && (#[trigger] active[k]) is Some && counts_for(
            sections,
            segments,
            id,
            k,
        )
}

/// An active segment after a section has been emitted.
pub open spec fn with_section<'data>(
    record: Option<SegmentRecord>,
    layout: OutputRecordLayout,
    counted: bool,
) -> Option<SegmentRecord> {
    match record {
        Some(record) if counted => Some(extended(record, layout)),
        _ => record,
    }
}

/// The active segments after a section has been emitted.
pub open spec fn section_in_segments<'data>(
    active: Seq<Option<SegmentRecord>>,
    layouts: Seq<OutputRecordLayout>,
    sections: &OutputSections<'data>,
    segments: &ProgramSegments,
    has_custom_phdrs: bool,
    id: OutputSectionId,
) -> Result<Seq<Option<SegmentRecord>>, SegmentLayoutError> {
    let layout = layouts[id.0 as int];
    if is_ignored(layouts, sections, id) {
        Ok(active)
    } else if none_active(active) {
        if has_custom_phdrs {
            Ok(active)
        } else if layout.mem_offset != 0 {
            Err(SegmentLayoutError::AddressOutsideSegments(id))
        } else if sections.info(sections.primary(id)).section_attributes.alloc {
            Err(SegmentLayoutError::AllocOutsideSegments(id))
        } else {
            Ok(active)
        }
    } else if counts(active, sections, segments, id) && !ends_fit(layout) {
        Err(SegmentLayoutError::Overflow)
    } else {
        Ok(
            Seq::new(
                active.len(),
                |k: int| with_section(active[k], layout, counts_for(sections, segments, id, k)),
            ),
        )
    }
}

/// The segments that are active, and those that have ended, after the first `count` events.
pub open spec fn segments_after<'data>(
    layouts: Seq<OutputRecordLayout>,
    sections: &OutputSections<'data>,
    order: &OutputOrder<'data>,
    segments: &ProgramSegments,
    args: SegmentArgs,
    count: int,
) -> Result<(Seq<Option<SegmentRecord>>, Seq<Option<SegmentRecord>>), SegmentLayoutError>
    decreases count,
{
    if count <= 0 {
        let nothing = Seq::new(segments.defs@.len(), |k: int| None::<SegmentRecord>);
        Ok((nothing, nothing))
    } else {
        match segments_after(layouts, sections, order, segments, args, count - 1) {
            Err(error) => Err(error),
            Ok((active, complete)) => match order.events@[count - 1] {
                OrderEvent::SegmentStart(id) => Ok(
                    (
                        active.update(
                            id.0 as int,
                            Some(started(segments.def(id).stack, args.stack_size_override)),
                        ),
                        complete,
                    ),
                ),
                OrderEvent::SegmentEnd(id) => if active[id.0 as int] is None {
                    Err(SegmentLayoutError::EndWithoutStart(id))
                } else {
                    Ok(
                        (
                            active.update(id.0 as int, None),
                            complete.update(id.0 as int, active[id.0 as int]),
                        ),
                    )
                },
                OrderEvent::Section(id) => match section_in_segments(
                    active,
                    layouts,
                    sections,
                    segments,
                    order.has_custom_phdrs,
                    id,
                ) {
                    Err(error) => Err(error),
                    Ok(active) => Ok((active, complete)),
                },
                _ => Ok((active, complete)),
            },
        }
    }
}

/// The layout of a segment that has ended. One that holds no section is empty.
pub open spec fn sizes_of(record: SegmentRecord) -> OutputRecordLayout {
    if record.file_start <= record.file_end {
        OutputRecordLayout {
            file_size: (record.file_end - record.file_start) as u64,
            mem_size: (record.mem_end - record.mem_start) as u64,
            alignment: record.alignment,
            file_offset: record.file_start,
            mem_offset: record.mem_start,
            lma_offset: record.lma_start,
        }
    } else {
        OutputRecordLayout {
            file_size: 0,
            mem_size: 0,
            alignment: record.alignment,
            file_offset: 0,
            mem_offset: 0,
            lma_offset: 0,
        }
    }
}

/// The layouts of the given segments, in the given order.
pub open spec fn unsorted_layouts(
    complete: Seq<Option<SegmentRecord>>,
    ids: Seq<ProgramSegmentId>,
) -> Seq<SegmentLayout> {
    Seq::new(
        ids.len(),
        |i: int| SegmentLayout { id: ids[i], sizes: sizes_of(complete[ids[i].0 as int]->0) },
    )
}

/// What segments are sorted by: their IDs if a linker script lists them, or else their kind and
/// then their address.
pub open spec fn sort_key(
    segments: &ProgramSegments,
    has_custom_phdrs: bool,
    layout: SegmentLayout,
) -> (u64, u64) {
    if has_custom_phdrs {
        (layout.id.0 as u64, 0)
    } else {
        (segments.def(layout.id).order_key as u64, layout.sizes.mem_offset)
    }
}

/// What the segments are sorted by.
pub open spec fn sort_keys(
    segments: &ProgramSegments,
    has_custom_phdrs: bool,
    layouts: Seq<SegmentLayout>,
) -> Seq<(u64, u64)> {
    Seq::new(layouts.len(), |i: int| sort_key(segments, has_custom_phdrs, layouts[i]))
}

/// The layout of the last of the first `count` segments that is thread-local.
pub open spec fn last_tls(
    segments: &ProgramSegments,
    layouts: Seq<SegmentLayout>,
    count: int,
) -> Option<OutputRecordLayout>
    decreases count,
{
    if count <= 0 {
        None
    } else if segments.def(layouts[count - 1].id).tls {
        Some(layouts[count - 1].sizes)
    } else {
        last_tls(segments, layouts, count - 1)
    }
}

/// Whether an event is the end of a segment.
pub open spec fn ends(events: Seq<OrderEvent>, i: int, segment: int) -> bool {
    0 <= i < events.len() && (events[i] matches OrderEvent::SegmentEnd(id) && id.0 == segment)
}

/// Whether a segment has ended.
pub open spec fn has_ended(events: Seq<OrderEvent>, segment: int, count: int) -> bool {
    exists|i: int| i < count && #[trigger] ends(events, i, segment)
}

/// Whether every segment ends exactly once.
pub open spec fn segments_end_once(events: Seq<OrderEvent>, segments: &ProgramSegments) -> bool {
    &&& forall|segment: int|
        0 <= segment < segments.defs@.len() ==> #[trigger] has_ended(
            events,
            segment,
            events.len() as int,
        )
    &&& forall|i: int, j: int, segment: int|
        #![trigger ends(events, i, segment), ends(events, j, segment)]
        ends(events, i, segment) && ends(events, j, segment) ==> i == j
}

/// Whether a segment that holds something in the file holds it in memory too.
pub open spec fn bounds_ordered(record: Option<SegmentRecord>) -> bool {
    record matches Some(record) ==> (record.file_start <= record.file_end ==> record.mem_start
        <= record.mem_end)
}

/// Whether all segments have ordered bounds.
pub open spec fn all_bounds_ordered(records: Seq<Option<SegmentRecord>>) -> bool {
    forall|k: int| 0 <= k < records.len() ==> bounds_ordered(#[trigger] records[k])
}

proof fn lemma_segments_error<'data>(
    layouts: Seq<OutputRecordLayout>,
    sections: &OutputSections<'data>,
    order: &OutputOrder<'data>,
    segments: &ProgramSegments,
    args: SegmentArgs,
    count: int,
    total: int,
)
    requires
        0 <= count <= total,
        segments_after(layouts, sections, order, segments, args, count) is Err,
    ensures
        segments_after(layouts, sections, order, segments, args, total) == segments_after(
            layouts,
            sections,
            order,
            segments,
            args,
            count,
        ),
    decreases total - count,
{
    if count < total {
        lemma_segments_error(layouts, sections, order, segments, args, count + 1, total);
    }
}

fn start_record(stack: bool, stack_size: Option<u64>) -> (record: SegmentRecord)
    ensures
        record == started(stack, stack_size),
{
    if stack {
        let size: u64 = match stack_size {
            Some(size) => size,
            None => 0,
        };
        SegmentRecord {
            file_start: 0,
            file_end: 0,
            mem_start: 0,
            mem_end: size,
            lma_start: 0,
            lma_end: size,
            alignment: Alignment::one(),
        }
    } else {
        SegmentRecord {
            file_start: u64::MAX,
            file_end: 0,
            mem_start: u64::MAX,
            mem_end: 0,
            lma_start: u64::MAX,
            lma_end: 0,
            alignment: Alignment::one(),
        }
    }
}

fn extend_record(record: SegmentRecord, layout: OutputRecordLayout) -> (result: Option<
    SegmentRecord,
>)
    ensures
        result == (if ends_fit(layout) {
            Some(extended(record, layout))
        } else {
            None
        }),
{
    let file_end: u64 = match layout.file_offset.checked_add(layout.file_size) {
        Some(end) => end,
        None => {
            return None;
        },
    };
    let mem_end: u64 = match layout.mem_offset.checked_add(layout.mem_size) {
        Some(end) => end,
        None => {
            return None;
        },
    };
    let lma_end: u64 = match layout.lma_offset.checked_add(layout.mem_size) {
        Some(end) => end,
        None => {
            return None;
        },
    };
    Some(
        SegmentRecord {
            file_start: min_u64(record.file_start, layout.file_offset),
            file_end: max_u64(record.file_end, file_end),
            mem_start: min_u64(record.mem_start, layout.mem_offset),
            mem_end: max_u64(record.mem_end, mem_end),
            lma_start: min_u64(record.lma_start, layout.lma_offset),
            lma_end: max_u64(record.lma_end, lma_end),
            alignment: record.alignment.max(layout.alignment),
        },
    )
}

fn any_active(active: &Vec<Option<SegmentRecord>>) -> (any: bool)
    ensures
        any == !none_active(active@),
{
    let mut k: usize = 0;
    while k < active.len()
        invariant
            k <= active@.len(),
            forall|i: int| 0 <= i < k ==> (#[trigger] active@[i]) is None,
        decreases active@.len() - k,
    {
        if active[k].is_some() {
            return true;
        }
        k = k + 1;
    }
    false
}

fn section_counts_for<'data>(
    sections: &OutputSections<'data>,
    segments: &ProgramSegments,
    id: OutputSectionId,
    segment: usize,
) -> (counted: bool)
    requires
        sections.wf(),
        sections.has(id),
        segment < segments.defs@.len(),
    ensures
        counted == counts_for(sections, segments, id, segment as int),
{
    let info: SectionOutputInfo<'data> = sections.output_info(id);
    if info.section_attributes.tls_address_space_only && !segments.is_tls_segment(
        ProgramSegmentId(segment),
    ) {
        return false;
    }
    sections.section_flags(sections.primary_output_section(id)).alloc || !segments.is_load_segment(
        ProgramSegmentId(segment),
    )
}

fn extend_segments<'data>(
    active: &mut Vec<Option<SegmentRecord>>,
    layout: OutputRecordLayout,
    sections: &OutputSections<'data>,
    segments: &ProgramSegments,
    id: OutputSectionId,
) -> (result: Result<(), SegmentLayoutError>)
    requires
        sections.wf(),
        sections.has(id),
        old(active)@.len() == segments.defs@.len(),
        all_bounds_ordered(old(active)@),
    ensures
        match result {
            Ok(_) => {
                &&& counts(old(active)@, sections, segments, id) ==> ends_fit(layout)
                &&& final(active)@ == Seq::new(
                    old(active)@.len(),
                    |k: int|
                        with_section(
                            old(active)@[k],
                            layout,
                            counts_for(sections, segments, id, k),
                        ),
                )
                &&& all_bounds_ordered(final(active)@)
            },
            Err(error) => counts(old(active)@, sections, segments, id) && !ends_fit(layout)
                && error == SegmentLayoutError::Overflow,
        },
{
    let ghost before = active@;
    let mut k: usize = 0;
    while k < active.len()
        invariant
            sections.wf(),
            sections.has(id),
            before == old(active)@,
            active@.len() == before.len(),
            before.len() == segments.defs@.len(),
            k <= active@.len(),
            all_bounds_ordered(before),
            forall|i: int| k <= i < active@.len() ==> active@[i] == before[i],
            forall|i: int|
                0 <= i < k ==> #[trigger] active@[i] == with_section(
                    before[i],
                    layout,
                    counts_for(sections, segments, id, i),
                ) && bounds_ordered(active@[i]),
            forall|i: int|
                0 <= i < k && (#[trigger] before[i]) is Some && counts_for(
                    sections,
                    segments,
                    id,
                    i,
                ) ==> ends_fit(layout),
        decreases active@.len() - k,
    {
        assert(bounds_ordered(before[k as int]));
        if let Some(record) = active[k] {
            if section_counts_for(sections, segments, id, k) {
                match extend_record(record, layout) {
                    Some(record) => {
                        active.set(k, Some(record));
                    },
                    None => {
                        return Err(SegmentLayoutError::Overflow);
                    },
                }
            }
        }
        k = k + 1;
    }
    assert(active@ =~= Seq::new(
        before.len(),
        |k: int| with_section(before[k], layout, counts_for(sections, segments, id, k)),
    ));
    Ok(())
}

fn emit_section<'data>(
    active: &mut Vec<Option<SegmentRecord>>,
    layouts: &OutputSectionMap<OutputRecordLayout>,
    sections: &OutputSections<'data>,
    segments: &ProgramSegments,
    has_custom_phdrs: bool,
    id: OutputSectionId,
) -> (result: Result<(), SegmentLayoutError>)
    requires
        sections.wf(),
        sections.has(id),
        layouts@.len() == sections.count(),
        sections.output_section_indexes@.len() == sections.count(),
        old(active)@.len() == segments.defs@.len(),
        all_bounds_ordered(old(active)@),
    ensures
        match result {
            Ok(_) => section_in_segments(
                old(active)@,
                layouts@,
                sections,
                segments,
                has_custom_phdrs,
                id,
            ) == Ok::<_, SegmentLayoutError>(final(active)@) && all_bounds_ordered(final(active)@)
                && final(active)@.len() == old(active)@.len(),
            Err(error) => section_in_segments(
                old(active)@,
                layouts@,
                sections,
                segments,
                has_custom_phdrs,
                id,
            ) == Err::<Seq<Option<SegmentRecord>>, _>(error),
        },
{
    let layout: OutputRecordLayout = *layouts.get(id);
    let target: OutputSectionId = sections.primary_output_section(id);
    if layout.file_size == 0 && layout.mem_size == 0
        && sections.output_section_indexes[target.0 as usize].is_none() {
        return Ok(());
    }
    if !any_active(active) {
        if has_custom_phdrs {
            return Ok(());
        }
        if layout.mem_offset != 0 {
            return Err(SegmentLayoutError::AddressOutsideSegments(id));
        }
        if sections.section_flags(target).alloc {
            return Err(SegmentLayoutError::AllocOutsideSegments(id));
        }
        return Ok(());
    }
    extend_segments(active, layout, sections, segments, id)
}

fn no_records(count: usize) -> (records: Vec<Option<SegmentRecord>>)
    ensures
        records@ == Seq::new(count as nat, |k: int| None::<SegmentRecord>),
{
    let mut records: Vec<Option<SegmentRecord>> = Vec::new();
    while records.len() < count
        invariant
            records@.len() <= count,
            records@ == Seq::new(records@.len(), |k: int| None::<SegmentRecord>),
        decreases count - records@.len(),
    {
        records.push(None);
    }
    records
}

proof fn lemma_has_ended(events: Seq<OrderEvent>, segment: int, count: int)
    requires
        0 <= count < events.len(),
    ensures
        has_ended(events, segment, count + 1) == (has_ended(events, segment, count) || ends(
            events,
            count,
            segment,
        )),
{
    if has_ended(events, segment, count) {
        let i = choose|i: int| i < count && #[trigger] ends(events, i, segment);
        assert(i < count + 1 && ends(events, i, segment));
    }
    if has_ended(events, segment, count + 1) {
        let i = choose|i: int| i < count + 1 && #[trigger] ends(events, i, segment);
        assert(i == count || i < count);
    }
}

/// The records of the segments when they end.
fn complete_segments<'data>(
    layouts: &OutputSectionMap<OutputRecordLayout>,
    sections: &OutputSections<'data>,
    order: &OutputOrder<'data>,
    segments: &ProgramSegments,
    args: SegmentArgs,
) -> (result: Result<Vec<Option<SegmentRecord>>, SegmentLayoutError>)
    requires
        sections.wf(),
        order.wf(sections, segments),
        layouts@.len() == sections.count(),
        sections.output_section_indexes@.len() == sections.count(),
    ensures
        match result {
            Ok(complete) => {
                &&& segments_after(
                    layouts@,
                    sections,
                    order,
                    segments,
                    args,
                    order.events@.len() as int,
                ) matches Ok((_, expected))
                &&& complete@ == expected
                &&& complete@.len() == segments.defs@.len()
                &&& all_bounds_ordered(complete@)
                &&& forall|segment: int|
                    0 <= segment < complete@.len() && has_ended(
                        order.events@,
                        segment,
                        order.events@.len() as int,
                    ) ==> (#[trigger] complete@[segment]) is Some
            },
            Err(error) => segments_after(
                layouts@,
                sections,
                order,
                segments,
                args,
                order.events@.len() as int,
            ) == Err::<(Seq<Option<SegmentRecord>>, Seq<Option<SegmentRecord>>), _>(error),
        },
{
    let mut active: Vec<Option<SegmentRecord>> = no_records(segments.len());
    let mut complete: Vec<Option<SegmentRecord>> = no_records(segments.len());
    let mut i: usize = 0;
    while i < order.events.len()
        invariant
            i <= order.events@.len(),
            sections.wf(),
            order.wf(sections, segments),
            layouts@.len() == sections.count(),
            sections.output_section_indexes@.len() == sections.count(),
            segments_after(layouts@, sections, order, segments, args, i as int) == Ok::<
                _,
                SegmentLayoutError,
            >((active@, complete@)),
            active@.len() == segments.defs@.len(),
            complete@.len() == segments.defs@.len(),
            all_bounds_ordered(active@),
            all_bounds_ordered(complete@),
            forall|segment: int|
                0 <= segment < complete@.len() && has_ended(order.events@, segment, i as int)
                    ==> (#[trigger] complete@[segment]) is Some,
        decreases order.events@.len() - i,
    {
        let event: OrderEvent<'data> = order.events[i];
        assert(order.event_wf(event, sections, segments));
        proof {
            assert forall|segment: int| #[trigger] has_ended(order.events@, segment, i + 1) implies (
            has_ended(order.events@, segment, i as int) || ends(
                order.events@,
                i as int,
                segment,
            )) by {
                lemma_has_ended(order.events@, segment, i as int);
            }
        }
        match event {
            OrderEvent::SegmentStart(id) => {
                active.set(
                    id.0,
                    Some(start_record(segments.is_stack_segment(id), args.stack_size_override)),
                );
            },
            OrderEvent::SegmentEnd(id) => {
                let record: Option<SegmentRecord> = active[id.0];
                assert(bounds_ordered(active@[id.0 as int]));
                if record.is_none() {
                    proof {
                        lemma_segments_error(
                            layouts@,
                            sections,
                            order,
                            segments,
                            args,
                            i + 1,
                            order.events@.len() as int,
                        );
                    }
                    return Err(SegmentLayoutError::EndWithoutStart(id));
                }
                active.set(id.0, None);
                complete.set(id.0, record);
            },
            OrderEvent::Section(id) => {
                match emit_section(
                    &mut active,
                    layouts,
                    sections,
                    segments,
                    order.has_custom_phdrs,
                    id,
                ) {
                    Ok(_) => {},
                    Err(error) => {
                        proof {
                            lemma_segments_error(
                                layouts@,
                                sections,
                                order,
                                segments,
                                args,
                                i + 1,
                                order.events@.len() as int,
                            );
                        }
                        return Err(error);
                    },
                }
            },
            _ => {},
        }
        i = i + 1;
    }
    Ok(complete)
}

fn record_sizes(record: SegmentRecord) -> (sizes: OutputRecordLayout)
    requires
        bounds_ordered(Some(record)),
    ensures
        sizes == sizes_of(record),
{
    if record.file_start <= record.file_end {
        OutputRecordLayout {
            file_size: record.file_end - record.file_start,
            mem_size: record.mem_end - record.mem_start,
            alignment: record.alignment,
            file_offset: record.file_start,
            mem_offset: record.mem_start,
            lma_offset: record.lma_start,
        }
    } else {
        OutputRecordLayout {
            file_size: 0,
            mem_size: 0,
            alignment: record.alignment,
            file_offset: 0,
            mem_offset: 0,
            lma_offset: 0,
        }
    }
}

fn layout_key(
    segments: &ProgramSegments,
    has_custom_phdrs: bool,
    layout: SegmentLayout,
) -> (key: (u64, u64))
    requires
        segments.has(layout.id),
    ensures
        key == sort_key(segments, has_custom_phdrs, layout),
{
    if has_custom_phdrs {
        (layout.id.0 as u64, 0)
    } else {
        (segments.segment_def(layout.id).order_key as u64, layout.sizes.mem_offset)
    }
}

/// Whether the layouts of segments are sorted as they should be.
pub open spec fn sorted_as(
    sorted: Seq<SegmentLayout>,
    unsorted: Seq<SegmentLayout>,
    keys: Seq<(u64, u64)>,
) -> bool {
    exists|order: Seq<usize>| #[trigger]
        stable_order::is_stable_order(order, keys) && sorted == Seq::new(
            order.len(),
            |i: int| unsorted[order[i] as int],
        )
}

fn sort_layouts(unsorted: &Vec<SegmentLayout>, keys: &Vec<(u64, u64)>) -> (sorted: Vec<
    SegmentLayout,
>)
    requires
        keys@.len() == unsorted@.len(),
    ensures
        sorted_as(sorted@, unsorted@, keys@),
{
    let order: Vec<usize> = stable_order(keys);
    let mut sorted: Vec<SegmentLayout> = Vec::new();
    let mut i: usize = 0;
    while i < order.len()
        invariant
            keys@.len() == unsorted@.len(),
            stable_order::is_stable_order(order@, keys@),
            i <= order@.len(),
            sorted@ == Seq::new(i as nat, |k: int| unsorted@[order@[k] as int]),
        decreases order@.len() - i,
    {
        sorted.push(unsorted[order[i]]);
        i = i + 1;
    }
    sorted
}

/// Computes the layouts of the segments. A segment reaches from the first to the last of the
/// sections that count for it. An object file that is linked again has no segments.
pub fn compute_segment_layout<'data>(
    section_layouts: &OutputSectionMap<OutputRecordLayout>,
    sections: &OutputSections<'data>,
    order: &OutputOrder<'data>,
    segments: &ProgramSegments,
    header_info: &HeaderInfo,
    args: SegmentArgs,
) -> (result: Result<SegmentLayouts, SegmentLayoutError>)
    requires
        sections.wf(),
        order.wf(sections, segments),
        section_layouts@.len() == sections.count(),
        sections.output_section_indexes@.len() == sections.count(),
        segments_end_once(order.events@, segments),
        forall|i: int|
            0 <= i < header_info.active_segment_ids@.len() ==> segments.has(
                #[trigger] header_info.active_segment_ids@[i],
            ),
    ensures
        args.should_output_partial_object ==> (result matches Ok(layouts) && layouts.segments@
            == Seq::<SegmentLayout>::empty() && layouts.tls_layout is None),
        !args.should_output_partial_object ==> match segments_after(
            section_layouts@,
            sections,
            order,
            segments,
            args,
            order.events@.len() as int,
        ) {
            Err(error) => result == Err::<SegmentLayouts, _>(error),
            Ok((_, complete)) => {
                let unsorted = unsorted_layouts(complete, header_info.active_segment_ids@);
                &&& result matches Ok(layouts)
                &&& sorted_as(
                    layouts.segments@,
                    unsorted,
                    sort_keys(segments, order.has_custom_phdrs, unsorted),
                )
                &&& layouts.tls_layout == last_tls(segments, unsorted, unsorted.len() as int)
            },
        },
{
    if args.should_output_partial_object {
        return Ok(SegmentLayouts { segments: Vec::new(), tls_layout: None });
    }
    let complete: Vec<Option<SegmentRecord>> = match complete_segments(
        section_layouts,
        sections,
        order,
        segments,
        args,
    ) {
        Ok(complete) => complete,
        Err(error) => {
            return Err(error);
        },
    };
    let ids: &Vec<ProgramSegmentId> = &header_info.active_segment_ids;
    let ghost expected = unsorted_layouts(complete@, ids@);
    let mut unsorted: Vec<SegmentLayout> = Vec::new();
    let mut keys: Vec<(u64, u64)> = Vec::new();
    let mut tls_layout: Option<OutputRecordLayout> = None;
    let mut i: usize = 0;
    while i < ids.len()
        invariant
            i <= ids@.len(),
            forall|i: int| 0 <= i < ids@.len() ==> segments.has(#[trigger] ids@[i]),
            complete@.len() == segments.defs@.len(),
            all_bounds_ordered(complete@),
            forall|segment: int|
                0 <= segment < complete@.len() ==> (#[trigger] complete@[segment]) is Some,
            expected == unsorted_layouts(complete@, ids@),
            unsorted@ == expected.take(i as int),
            keys@ == sort_keys(segments, order.has_custom_phdrs, expected).take(i as int),
            tls_layout == last_tls(segments, expected, i as int),
        decreases ids@.len() - i,
    {
        let id: ProgramSegmentId = ids[i];
        assert(bounds_ordered(complete@[id.0 as int]));
        if let Some(record) = complete[id.0] {
            let layout = SegmentLayout { id, sizes: record_sizes(record) };
            if segments.is_tls_segment(id) {
                tls_layout = Some(layout.sizes);
            }
            keys.push(layout_key(segments, order.has_custom_phdrs, layout));
            unsorted.push(layout);
        }
        i = i + 1;
    }
    assert(expected.take(i as int) =~= expected);
    assert(sort_keys(segments, order.has_custom_phdrs, expected).take(i as int) =~= sort_keys(
        segments,
        order.has_custom_phdrs,
        expected,
    ));
    Ok(SegmentLayouts { segments: sort_layouts(&unsorted, &keys), tls_layout })
}

/// Whether a segment holds a section.
pub open spec fn holds(record: SegmentRecord, layout: OutputRecordLayout) -> bool {
    &&& record.mem_start <= layout.mem_offset
    &&& layout.spec_mem_end() <= record.mem_end
    &&& record.file_start <= layout.file_offset
    &&& layout.spec_file_end() <= record.file_end
    &&& layout.alignment.exp() <= record.alignment.exp()
}

/// Whether an event starts or ends a segment.
pub open spec fn starts_or_ends(event: OrderEvent, segment: int) -> bool {
    match event {
        OrderEvent::SegmentStart(id) => id.0 == segment,
        OrderEvent::SegmentEnd(id) => id.0 == segment,
        _ => false,
    }
}

proof fn lemma_keeps_holding<'data>(
    layouts: Seq<OutputRecordLayout>,
    sections: &OutputSections<'data>,
    order: &OutputOrder<'data>,
    segments: &ProgramSegments,
    args: SegmentArgs,
    segment: int,
    id: OutputSectionId,
    at: int,
    until: int,
)
    requires
        order.wf(sections, segments),
        0 <= segment < segments.defs@.len(),
        0 <= at < until <= order.events@.len(),
        order.events@[at] == OrderEvent::Section(id),
        !is_ignored(layouts, sections, id),
        counts_for(sections, segments, id, segment),
        segments_after(layouts, sections, order, segments, args, at) matches Ok((active, _))
            && active[segment] is Some,
        forall|k: int|
            at < k < until ==> !starts_or_ends(#[trigger] order.events@[k], segment),
    ensures
        segments_after(layouts, sections, order, segments, args, until) matches Ok((active, _))
            ==> (active[segment] matches Some(record) && holds(record, layouts[id.0 as int])),
    decreases until,
{
    lemma_segment_count(layouts, sections, order, segments, args, until - 1);
    if until == at + 1 {
        let (active, _) = segments_after(layouts, sections, order, segments, args, at)->Ok_0;
        assert(active[segment] is Some);
        assert(!none_active(active));
    } else {
        lemma_keeps_holding(
            layouts,
            sections,
            order,
            segments,
            args,
            segment,
            id,
            at,
            until - 1,
        );
        let event = order.events@[until - 1];
        assert(!starts_or_ends(event, segment));
        assert(order.event_wf(event, sections, segments));
    }
}

/// Every segment has a record or none.
pub proof fn lemma_segment_count<'data>(
    layouts: Seq<OutputRecordLayout>,
    sections: &OutputSections<'data>,
    order: &OutputOrder<'data>,
    segments: &ProgramSegments,
    args: SegmentArgs,
    count: int,
)
    requires
        order.wf(sections, segments),
        count <= order.events@.len(),
    ensures
        segments_after(layouts, sections, order, segments, args, count) matches Ok(
            (active, complete),
        ) ==> active.len() == segments.defs@.len() && complete.len() == segments.defs@.len(),
    decreases count,
{
    if count > 0 {
        lemma_segment_count(layouts, sections, order, segments, args, count - 1);
        assert(order.event_wf(order.events@[count - 1], sections, segments));
    }
}

/// A segment holds every section that counts for it and is emitted before it ends.
pub proof fn lemma_segment_holds_sections<'data>(
    layouts: Seq<OutputRecordLayout>,
    sections: &OutputSections<'data>,
    order: &OutputOrder<'data>,
    segments: &ProgramSegments,
    args: SegmentArgs,
    segment: int,
    id: OutputSectionId,
    at: int,
    end: int,
)
    requires
        order.wf(sections, segments),
        0 <= segment < segments.defs@.len(),
        0 <= at < end,
        ends(order.events@, end, segment),
        order.events@[at] == OrderEvent::Section(id),
        !is_ignored(layouts, sections, id),
        counts_for(sections, segments, id, segment),
        segments_after(layouts, sections, order, segments, args, at) matches Ok((active, _))
            && active[segment] is Some,
        forall|k: int| at < k < end ==> !starts_or_ends(#[trigger] order.events@[k], segment),
    ensures
        segments_after(layouts, sections, order, segments, args, end + 1) matches Ok((_, complete))
            ==> (complete[segment] matches Some(record) && holds(record, layouts[id.0 as int])),
{
    lemma_keeps_holding(layouts, sections, order, segments, args, segment, id, at, end);
    lemma_segment_count(layouts, sections, order, segments, args, end);
}

} // verus!
