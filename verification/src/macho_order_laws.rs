//! What holds of the order of the sections and segments of a Mach-O file.
use crate::macho_order;
use crate::macho_order::OrderView;
use crate::output_order::OrderEvent;
use crate::output_section_id::OutputSectionId;
use crate::output_sections::OutputSections;
use crate::program_segments::ProgramSegmentId;
use crate::segment_laws;
use crate::segment_layout;
use vstd::prelude::*;

verus! {

/// Whether an event is the start of a segment.
pub open spec fn starts_at(events: Seq<OrderEvent>, i: int, segment: int) -> bool {
    0 <= i < events.len() && (events[i] matches OrderEvent::SegmentStart(id) && id.0 == segment)
}

/// Whether a segment has started before the given event.
pub open spec fn has_started(events: Seq<OrderEvent>, segment: int, position: int) -> bool {
    exists|i: int| i < position && #[trigger] starts_at(events, i, segment)
}

/// Whether a segment is open at the given event.
pub open spec fn is_open(events: Seq<OrderEvent>, segment: int, position: int) -> bool {
    has_started(events, segment, position) && !segment_layout::has_ended(events, segment, position)
}

/// Whether a segment with a name is open at the given event.
pub open spec fn name_is_open(s: OrderView, name: Seq<u8>, position: int) -> bool {
    exists|segment: int|
        0 <= segment < s.segments.len() && s.segments[segment] == name && #[trigger] is_open(
            s.events,
            segment,
            position,
        )
}

/// Whether an event speaks of a segment that has an ID, or of a section that exists.
pub open spec fn event_exists<'data>(
    event: OrderEvent<'data>,
    segments: nat,
    sections: &OutputSections<'data>,
) -> bool {
    match event {
        OrderEvent::SegmentStart(id) => id.0 < segments,
        OrderEvent::SegmentEnd(id) => id.0 < segments,
        OrderEvent::Section(id) => sections.has(id),
        _ => false,
    }
}

/// Whether an event emits a section, or starts or ends a segment.
pub open spec fn is_plain_event(event: OrderEvent) -> bool {
    match event {
        OrderEvent::SegmentStart(_) => true,
        OrderEvent::SegmentEnd(_) => true,
        OrderEvent::Section(_) => true,
        _ => false,
    }
}

/// Whether a segment is one of those that are open.
pub open spec fn is_among(open: Seq<Option<ProgramSegmentId>>, segment: int) -> bool {
    exists|k: int|
        0 <= k < open.len() && (#[trigger] open[k] matches Some(id) && id.0 == segment)
}

/// Whether every segment starts once, those that are not open have ended, and no segment ends
/// twice, or before it starts.
pub open spec fn order_wf<'data>(
    s: OrderView<'data>,
    names: Seq<Seq<u8>>,
    sections: &OutputSections<'data>,
) -> bool {
    &&& s.open.len() == names.len()
    &&& forall|i: int|
        0 <= i < s.events.len() ==> event_exists(
            #[trigger] s.events[i],
            s.segments.len(),
            sections,
        )
    &&& forall|i: int, j: int, segment: int|
        #![trigger starts_at(s.events, i, segment), starts_at(s.events, j, segment)]
        starts_at(s.events, i, segment) && starts_at(s.events, j, segment) ==> i == j
    &&& forall|i: int, j: int, segment: int|
        #![trigger segment_layout::ends(s.events, i, segment), segment_layout::ends(s.events, j, segment)]
        segment_layout::ends(s.events, i, segment) && segment_layout::ends(s.events, j, segment)
            ==> i == j
    &&& forall|i: int, j: int, segment: int|
        #![trigger starts_at(s.events, i, segment), segment_layout::ends(s.events, j, segment)]
        starts_at(s.events, i, segment) && segment_layout::ends(s.events, j, segment) ==> i < j
    &&& forall|segment: int|
        0 <= segment < s.segments.len() ==> #[trigger] has_started(
            s.events,
            segment,
            s.events.len() as int,
        )
    &&& forall|segment: int|
        0 <= segment < s.segments.len() ==> (#[trigger] segment_layout::has_ended(
            s.events,
            segment,
            s.events.len() as int,
        ) <==> !is_among(s.open, segment))
    &&& forall|k: int|
        0 <= k < s.open.len() ==> (#[trigger] s.open[k] matches Some(id) ==> id.0
            < s.segments.len() && s.segments[id.0 as int] == names[k])
    &&& forall|k: int, l: int|
        0 <= k < l < s.open.len() && (#[trigger] s.open[k]) is Some ==> s.open[k]
            != #[trigger] s.open[l]
}

proof fn lemma_started_prefix(
    events: Seq<OrderEvent>,
    event: OrderEvent,
    segment: int,
    position: int,
)
    requires
        position <= events.len(),
    ensures
        has_started(events.push(event), segment, position) == has_started(
            events,
            segment,
            position,
        ),
        segment_layout::has_ended(events.push(event), segment, position)
            == segment_layout::has_ended(events, segment, position),
{
    let more = events.push(event);
    if has_started(events, segment, position) {
        let i = choose|i: int| i < position && #[trigger] starts_at(events, i, segment);
        assert(starts_at(more, i, segment));
    }
    if has_started(more, segment, position) {
        let i = choose|i: int| i < position && #[trigger] starts_at(more, i, segment);
        assert(starts_at(events, i, segment));
    }
    if segment_layout::has_ended(events, segment, position) {
        let i = choose|i: int|
            i < position && #[trigger] segment_layout::ends(events, i, segment);
        assert(segment_layout::ends(more, i, segment));
    }
    if segment_layout::has_ended(more, segment, position) {
        let i = choose|i: int| i < position && #[trigger] segment_layout::ends(more, i, segment);
        assert(segment_layout::ends(events, i, segment));
    }
}

/// What one more event changes.
proof fn lemma_one_more(events: Seq<OrderEvent>, event: OrderEvent, segment: int)
    ensures
        ({
            let more = events.push(event);
            let last = events.len() as int;
            &&& has_started(more, segment, more.len() as int) == (has_started(
                events,
                segment,
                last,
            ) || starts_at(more, last, segment))
            &&& segment_layout::has_ended(more, segment, more.len() as int) == (
            segment_layout::has_ended(events, segment, last) || segment_layout::ends(
                more,
                last,
                segment,
            ))
            &&& forall|i: int|
                i != last ==> #[trigger] starts_at(more, i, segment) == starts_at(
                    events,
                    i,
                    segment,
                )
            &&& forall|i: int|
                i != last ==> #[trigger] segment_layout::ends(more, i, segment)
                    == segment_layout::ends(events, i, segment)
        }),
{
    let more = events.push(event);
    let last = events.len() as int;
    lemma_started_prefix(events, event, segment, last);
    if has_started(more, segment, last + 1) {
        let i = choose|i: int| i < last + 1 && #[trigger] starts_at(more, i, segment);
        if i < last {
            assert(has_started(more, segment, last));
        }
    }
    if has_started(more, segment, last) {
        let i = choose|i: int| i < last && #[trigger] starts_at(more, i, segment);
        assert(i < last + 1 && starts_at(more, i, segment));
    }
    if segment_layout::has_ended(more, segment, last + 1) {
        let i = choose|i: int| i < last + 1 && #[trigger] segment_layout::ends(more, i, segment);
        if i < last {
            assert(segment_layout::has_ended(more, segment, last));
        }
    }
    if segment_layout::has_ended(more, segment, last) {
        let i = choose|i: int| i < last && #[trigger] segment_layout::ends(more, i, segment);
        assert(i < last + 1 && segment_layout::ends(more, i, segment));
    }
}

proof fn lemma_emit_step<'data>(
    s: OrderView<'data>,
    names: Seq<Seq<u8>>,
    sections: &OutputSections<'data>,
    id: OutputSectionId,
)
    requires
        order_wf(s, names, sections),
        sections.has(id),
    ensures
        order_wf(macho_order::emit_step(s, id), names, sections),
{
    let event = OrderEvent::Section(id);
    assert forall|segment: int| true implies #[trigger] has_started(
        s.events.push(event),
        segment,
        s.events.push(event).len() as int,
    ) == has_started(s.events, segment, s.events.len() as int) by {
        lemma_one_more(s.events, event, segment);
    }
    assert forall|segment: int| true implies #[trigger] segment_layout::has_ended(
        s.events.push(event),
        segment,
        s.events.push(event).len() as int,
    ) == segment_layout::has_ended(s.events, segment, s.events.len() as int) by {
        lemma_one_more(s.events, event, segment);
    }
    assert forall|i: int, segment: int| #[trigger]
        starts_at(s.events.push(event), i, segment) implies starts_at(s.events, i, segment) by {}
    assert forall|i: int, segment: int| #[trigger]
        segment_layout::ends(s.events.push(event), i, segment) implies segment_layout::ends(
        s.events,
        i,
        segment,
    ) by {}
}


/// Whether no segment starts while another one is open.
pub open spec fn in_turn(events: Seq<OrderEvent>, segments: nat) -> bool {
    forall|i: int, segment: int, other: int|
        #![trigger starts_at(events, i, segment), is_open(events, other, i)]
        starts_at(events, i, segment) && 0 <= other < segments ==> !is_open(events, other, i)
}

proof fn lemma_end_step<'data>(
    s: OrderView<'data>,
    names: Seq<Seq<u8>>,
    sections: &OutputSections<'data>,
    target: Seq<bool>,
    index: int,
)
    requires
        order_wf(s, names, sections),
        0 <= index < names.len(),
    ensures
        order_wf(macho_order::end_step(s, target, index), names, sections),
{
    if let Some(id) = s.open[index] {
        if !target[index] {
            let event = OrderEvent::SegmentEnd(id);
            let t = macho_order::end_step(s, target, index);
            let last = s.events.len() as int;
            assert forall|segment: int| true implies (#[trigger] has_started(
                t.events,
                segment,
                t.events.len() as int,
            ) == has_started(s.events, segment, last)) by {
                lemma_one_more(s.events, event, segment);
            }
            assert forall|segment: int| true implies #[trigger] segment_layout::has_ended(
                t.events,
                segment,
                t.events.len() as int,
            ) == (segment_layout::has_ended(s.events, segment, last) || segment == id.0) by {
                lemma_one_more(s.events, event, segment);
            }
            assert forall|i: int, segment: int| #[trigger]
                starts_at(t.events, i, segment) implies starts_at(s.events, i, segment) by {}
            assert forall|i: int, segment: int| #[trigger]
                segment_layout::ends(t.events, i, segment) implies (segment_layout::ends(
                s.events,
                i,
                segment,
            ) || (i == last && segment == id.0)) by {}
            assert(is_among(s.open, id.0 as int));
            assert(!segment_layout::has_ended(s.events, id.0 as int, last));
            assert forall|i: int| !segment_layout::ends(s.events, i, id.0 as int) by {
                if segment_layout::ends(s.events, i, id.0 as int) {
                    assert(i < last);
                }
            }
            assert forall|segment: int| 0 <= segment < t.segments.len() implies #[trigger] is_among(
                t.open,
                segment,
            ) == (is_among(s.open, segment) && segment != id.0) by {
                if is_among(s.open, segment) && segment != id.0 {
                    let k = choose|k: int|
                        0 <= k < s.open.len() && (#[trigger] s.open[k] matches Some(other)
                            && other.0 == segment);
                    assert(t.open[k] == s.open[k]);
                }
                if is_among(t.open, segment) {
                    let k = choose|k: int|
                        0 <= k < t.open.len() && (#[trigger] t.open[k] matches Some(other)
                            && other.0 == segment);
                    assert(s.open[k] == t.open[k]);
                    if segment == id.0 {
                        assert(s.open[k] == s.open[index]);
                        if k < index {
                            assert(s.open[k] != s.open[index]);
                        } else {
                            assert(s.open[index] != s.open[k]);
                        }
                    }
                }
            }
        }
    }
}

proof fn lemma_start_step<'data>(
    s: OrderView<'data>,
    names: Seq<Seq<u8>>,
    sections: &OutputSections<'data>,
    target: Seq<bool>,
    index: int,
)
    requires
        order_wf(s, names, sections),
        0 <= index < names.len(),
        macho_order::start_step(s, names, target, index).segments.len() <= usize::MAX,
    ensures
        order_wf(macho_order::start_step(s, names, target, index), names, sections),
{
    if s.open[index] is None && target[index] {
        let id = ProgramSegmentId(s.segments.len() as usize);
        let event = OrderEvent::SegmentStart(id);
        let t = macho_order::start_step(s, names, target, index);
        let last = s.events.len() as int;
        assert forall|segment: int| true implies (#[trigger] has_started(
            t.events,
            segment,
            t.events.len() as int,
        ) == (has_started(s.events, segment, last) || segment == id.0)) by {
            lemma_one_more(s.events, event, segment);
        }
        assert forall|segment: int| true implies #[trigger] segment_layout::has_ended(
            t.events,
            segment,
            t.events.len() as int,
        ) == segment_layout::has_ended(s.events, segment, last) by {
            lemma_one_more(s.events, event, segment);
        }
        assert forall|i: int, segment: int| #[trigger]
            starts_at(t.events, i, segment) implies ((starts_at(s.events, i, segment) && segment
            < s.segments.len()) || (i == last && segment == id.0)) by {
            if i < last {
                assert(event_exists(s.events[i], s.segments.len(), sections));
            }
        }
        assert forall|i: int, segment: int| #[trigger]
            segment_layout::ends(t.events, i, segment) implies segment_layout::ends(
            s.events,
            i,
            segment,
        ) && segment < s.segments.len() by {
            assert(event_exists(s.events[i], s.segments.len(), sections));
        }
        assert forall|i: int| 0 <= i < t.events.len() implies event_exists(
            #[trigger] t.events[i],
            t.segments.len(),
            sections,
        ) by {
            if i < last {
                assert(event_exists(s.events[i], s.segments.len(), sections));
            }
        }
        assert(!segment_layout::has_ended(t.events, id.0 as int, t.events.len() as int)) by {
            if segment_layout::has_ended(s.events, id.0 as int, last) {
                let i = choose|i: int|
                    i < last && #[trigger] segment_layout::ends(s.events, i, id.0 as int);
                assert(event_exists(s.events[i], s.segments.len(), sections));
            }
        }
        assert(t.open[index] == Some(id));
        assert forall|segment: int| 0 <= segment < t.segments.len() implies #[trigger] is_among(
            t.open,
            segment,
        ) == (is_among(s.open, segment) || segment == id.0) by {
            if is_among(s.open, segment) {
                let k = choose|k: int|
                    0 <= k < s.open.len() && (#[trigger] s.open[k] matches Some(other) && other.0
                        == segment);
                assert(t.open[k] == s.open[k]);
            }
            if is_among(t.open, segment) {
                let k = choose|k: int|
                    0 <= k < t.open.len() && (#[trigger] t.open[k] matches Some(other) && other.0
                        == segment);
                assert(k == index || s.open[k] == t.open[k]);
            }
        }
        assert forall|k: int| 0 <= k < t.open.len() implies (#[trigger] t.open[k] matches Some(
            other,
        ) ==> other.0 < t.segments.len() && t.segments[other.0 as int] == names[k]) by {
            if k != index {
                assert(t.open[k] == s.open[k]);
            }
        }
        assert forall|k: int, l: int|
            0 <= k < l < t.open.len() && (#[trigger] t.open[k]) is Some implies t.open[k]
            != #[trigger] t.open[l] by {
            assert(k == index || t.open[k] == s.open[k]);
            assert(l == index || t.open[l] == s.open[l]);
        }
    }
}

/// The names that segments can have differ from each other.
pub proof fn lemma_segment_names_differ<'data>(sections: &OutputSections<'data>)
    ensures
        macho_order::segment_names(sections).no_duplicates(),
{
    crate::macho_attributes::lemma_known_names();
    lemma_other_names(sections, sections.count());
}

pub proof fn lemma_other_names<'data>(sections: &OutputSections<'data>, count: int)
    ensures
        macho_order::other_segments(sections, count).no_duplicates(),
        forall|i: int|
            0 <= i < macho_order::other_segments(sections, count).len()
                ==> !macho_order::is_known_segment(
                #[trigger] macho_order::other_segments(sections, count)[i],
            ),
    decreases count,
{
    if count > 0 {
        lemma_other_names(sections, count - 1);
    }
}

/// Whether an event, if it emits a section, does so while exactly the segments that hold it are open.
pub open spec fn in_its_segments<'data>(
    s: OrderView<'data>,
    names: Seq<Seq<u8>>,
    sections: &OutputSections<'data>,
    secondary: Seq<Vec<OutputSectionId>>,
    ids: Seq<OutputSectionId>,
    position: int,
) -> bool {
    match s.events[position] {
        OrderEvent::Section(id) => is_held(s, names, sections, secondary, ids, id, position),
        _ => true,
    }
}

/// Whether the segments that are open at an event are those that hold one of the listed sections:
/// the given section, or the one that it is merged into.
pub open spec fn is_held<'data>(
    s: OrderView<'data>,
    names: Seq<Seq<u8>>,
    sections: &OutputSections<'data>,
    secondary: Seq<Vec<OutputSectionId>>,
    ids: Seq<OutputSectionId>,
    id: OutputSectionId,
    position: int,
) -> bool {
    exists|k: int|
        0 <= k < ids.len() && #[trigger] macho_order::with_secondary(ids[k], secondary).contains(id)
            && holds_what_is_open(s, names, sections, ids[k], position)
}

/// Whether the segments that are open at an event are those that hold a section.
pub open spec fn holds_what_is_open<'data>(
    s: OrderView<'data>,
    names: Seq<Seq<u8>>,
    sections: &OutputSections<'data>,
    id: OutputSectionId,
    position: int,
) -> bool {
    forall|k: int|
        0 <= k < names.len() ==> #[trigger] name_is_open(s, names[k], position)
            == macho_order::wanted(names, sections, id, k)
}

/// Whether the order is as it should be.
spec fn order_inv<'data>(
    s: OrderView<'data>,
    names: Seq<Seq<u8>>,
    sections: &OutputSections<'data>,
    secondary: Seq<Vec<OutputSectionId>>,
    ids: Seq<OutputSectionId>,
) -> bool {
    &&& order_wf(s, names, sections)
    &&& in_turn(s.events, s.segments.len())
    &&& forall|position: int|
        0 <= position < s.events.len() ==> #[trigger] in_its_segments(
            s,
            names,
            sections,
            secondary,
            ids,
            position,
        )
}

/// Whether an order is another one with one more event.
spec fn one_more<'data>(s: OrderView<'data>, t: OrderView<'data>, event: OrderEvent<'data>) -> bool {
    &&& t.events == s.events.push(event)
    &&& t.segments == s.segments || (t.segments.len() == s.segments.len() + 1
        && t.segments.drop_last() == s.segments && (event matches OrderEvent::SegmentStart(id)
        && id.0 == s.segments.len()))
}

proof fn lemma_open_before<'data>(
    s: OrderView<'data>,
    t: OrderView<'data>,
    names: Seq<Seq<u8>>,
    sections: &OutputSections<'data>,
    event: OrderEvent<'data>,
    segment: int,
    position: int,
)
    requires
        order_wf(s, names, sections),
        one_more(s, t, event),
        0 <= position <= s.events.len(),
    ensures
        is_open(t.events, segment, position) == is_open(s.events, segment, position),
        is_open(s.events, segment, position) ==> segment < s.segments.len(),
{
    lemma_started_prefix(s.events, event, segment, position);
    if has_started(s.events, segment, position) {
        let i = choose|i: int| i < position && #[trigger] starts_at(s.events, i, segment);
        assert(event_exists(s.events[i], s.segments.len(), sections));
    }
}

proof fn lemma_name_open_before<'data>(
    s: OrderView<'data>,
    t: OrderView<'data>,
    names: Seq<Seq<u8>>,
    sections: &OutputSections<'data>,
    event: OrderEvent<'data>,
    name: Seq<u8>,
    position: int,
)
    requires
        order_wf(s, names, sections),
        one_more(s, t, event),
        0 <= position <= s.events.len(),
    ensures
        name_is_open(t, name, position) == name_is_open(s, name, position),
{
    if name_is_open(s, name, position) {
        let segment = choose|segment: int|
            0 <= segment < s.segments.len() && s.segments[segment] == name && #[trigger] is_open(
                s.events,
                segment,
                position,
            );
        lemma_open_before(s, t, names, sections, event, segment, position);
        if t.segments != s.segments {
            assert(t.segments.drop_last()[segment] == t.segments[segment]);
        }
    }
    if name_is_open(t, name, position) {
        let segment = choose|segment: int|
            0 <= segment < t.segments.len() && t.segments[segment] == name && #[trigger] is_open(
                t.events,
                segment,
                position,
            );
        lemma_open_before(s, t, names, sections, event, segment, position);
        if t.segments != s.segments {
            assert(t.segments.drop_last()[segment] == t.segments[segment]);
        }
    }
}

/// What holds of the order so far holds with one more event, if it holds of that event.
proof fn lemma_inv_one_more<'data>(
    s: OrderView<'data>,
    t: OrderView<'data>,
    names: Seq<Seq<u8>>,
    sections: &OutputSections<'data>,
    secondary: Seq<Vec<OutputSectionId>>,
    ids: Seq<OutputSectionId>,
    event: OrderEvent<'data>,
)
    requires
        order_inv(s, names, sections, secondary, ids),
        order_wf(t, names, sections),
        one_more(s, t, event),
        event is SegmentStart ==> forall|k: int|
            0 <= k < s.open.len() ==> (#[trigger] s.open[k]) is None,
        event matches OrderEvent::Section(id) ==> is_held(
            s,
            names,
            sections,
            secondary,
            ids,
            id,
            s.events.len() as int,
        ),
    ensures
        order_inv(t, names, sections, secondary, ids),
{
    let last = s.events.len() as int;
    assert forall|i: int, segment: int, other: int|
        #![trigger starts_at(t.events, i, segment), is_open(t.events, other, i)]
        starts_at(t.events, i, segment) && 0 <= other < t.segments.len() implies !is_open(
        t.events,
        other,
        i,
    ) by {
        lemma_open_before(s, t, names, sections, event, other, i);
        if i < last {
            assert(starts_at(s.events, i, segment));
        } else if other < s.segments.len() {
            assert(!is_among(s.open, other));
            assert(segment_layout::has_ended(s.events, other, last));
        }
    }
    assert forall|position: int| 0 <= position < t.events.len() implies #[trigger] in_its_segments(
        t,
        names,
        sections,
        secondary,
        ids,
        position,
    ) by {
        assert forall|id: OutputSectionId|
            holds_what_is_open(s, names, sections, id, position) implies #[trigger] holds_what_is_open(
            t,
            names,
            sections,
            id,
            position,
        ) by {
            assert forall|k: int| 0 <= k < names.len() implies #[trigger] name_is_open(
                t,
                names[k],
                position,
            ) == macho_order::wanted(names, sections, id, k) by {
                lemma_name_open_before(s, t, names, sections, event, names[k], position);
            }
        }
        if position < last {
            assert(in_its_segments(s, names, sections, secondary, ids, position));
            assert(t.events[position] == s.events[position]);
            if let OrderEvent::Section(id) = s.events[position] {
                let k = choose|k: int|
                    0 <= k < ids.len() && #[trigger] macho_order::with_secondary(
                        ids[k],
                        secondary,
                    ).contains(id) && holds_what_is_open(s, names, sections, ids[k], position);
                assert(holds_what_is_open(t, names, sections, ids[k], position));
            }
        } else if let OrderEvent::Section(id) = event {
            let k = choose|k: int|
                0 <= k < ids.len() && #[trigger] macho_order::with_secondary(
                    ids[k],
                    secondary,
                ).contains(id) && holds_what_is_open(s, names, sections, ids[k], last);
            assert(holds_what_is_open(t, names, sections, ids[k], last));
        }
    }
}

/// The segments that are open in the end are those that are open at the next event.
proof fn lemma_open_now<'data>(
    s: OrderView<'data>,
    names: Seq<Seq<u8>>,
    sections: &OutputSections<'data>,
    id: OutputSectionId,
)
    requires
        order_wf(s, names, sections),
        forall|k: int|
            0 <= k < names.len() ==> (#[trigger] s.open[k] is Some) == macho_order::wanted(
                names,
                sections,
                id,
                k,
            ),
    ensures
        holds_what_is_open(s, names, sections, id, s.events.len() as int),
{
    let last = s.events.len() as int;
    assert forall|k: int| 0 <= k < names.len() implies #[trigger] name_is_open(s, names[k], last)
        == macho_order::wanted(names, sections, id, k) by {
        if let Some(open) = s.open[k] {
            assert(is_among(s.open, open.0 as int));
            assert(has_started(s.events, open.0 as int, last));
            assert(is_open(s.events, open.0 as int, last));
        }
        if name_is_open(s, names[k], last) {
            let segment = choose|segment: int|
                0 <= segment < s.segments.len() && s.segments[segment] == names[k]
                    && #[trigger] is_open(s.events, segment, last);
            assert(is_among(s.open, segment));
            let l = choose|l: int|
                0 <= l < s.open.len() && (#[trigger] s.open[l] matches Some(other) && other.0
                    == segment);
            assert(s.open[l] is Some);
            assert(names[l] == names[k]);
        }
    }
}

proof fn lemma_ended<'data>(
    s: OrderView<'data>,
    names: Seq<Seq<u8>>,
    sections: &OutputSections<'data>,
    secondary: Seq<Vec<OutputSectionId>>,
    ids: Seq<OutputSectionId>,
    target: Seq<bool>,
    count: int,
)
    requires
        order_inv(s, names, sections, secondary, ids),
        target.len() == names.len(),
        0 <= count <= names.len(),
    ensures
        order_inv(macho_order::ended(s, target, count), names, sections, secondary, ids),
        macho_order::ended(s, target, count).segments == s.segments,
        forall|k: int|
            0 <= k < count ==> ((#[trigger] macho_order::ended(s, target, count).open[k]) is Some
                ==> target[k]),
    decreases count,
{
    if count > 0 {
        lemma_ended(s, names, sections, secondary, ids, target, count - 1);
        let before = macho_order::ended(s, target, count - 1);
        let after = macho_order::ended(s, target, count);
        lemma_end_step(before, names, sections, target, count - 1);
        if let Some(id) = before.open[count - 1] {
            if !target[count - 1] {
                lemma_inv_one_more(
                    before,
                    after,
                    names,
                    sections,
                    secondary,
                    ids,
                    OrderEvent::SegmentEnd(id),
                );
            }
        }
        assert forall|k: int| 0 <= k < count && (#[trigger] after.open[k]) is Some implies target[k] by {
            if k < count - 1 {
                assert(before.open[k] == after.open[k]);
            }
        }
    }
}

proof fn lemma_started<'data>(
    s: OrderView<'data>,
    names: Seq<Seq<u8>>,
    sections: &OutputSections<'data>,
    secondary: Seq<Vec<OutputSectionId>>,
    ids: Seq<OutputSectionId>,
    target: Seq<bool>,
    count: int,
)
    requires
        order_inv(s, names, sections, secondary, ids),
        target.len() == names.len(),
        0 <= count <= names.len(),
        forall|k: int| 0 <= k < names.len() ==> ((#[trigger] s.open[k]) is Some ==> target[k]),
        forall|k: int, l: int|
            0 <= k < l < names.len() ==> !(#[trigger] target[k] && #[trigger] target[l]),
        macho_order::started(s, names, target, count).segments.len() <= usize::MAX,
    ensures
        order_inv(macho_order::started(s, names, target, count), names, sections, secondary, ids),
        forall|k: int|
            0 <= k < names.len() ==> ((#[trigger] macho_order::started(
                s,
                names,
                target,
                count,
            ).open[k]) is Some ==> target[k]),
        forall|k: int|
            0 <= k < count && target[k] ==> (#[trigger] macho_order::started(
                s,
                names,
                target,
                count,
            ).open[k]) is Some,
    decreases count,
{
    if count > 0 {
        lemma_started(s, names, sections, secondary, ids, target, count - 1);
        let before = macho_order::started(s, names, target, count - 1);
        let after = macho_order::started(s, names, target, count);
        lemma_start_step(before, names, sections, target, count - 1);
        if before.open[count - 1] is None && target[count - 1] {
            let id = ProgramSegmentId(before.segments.len() as usize);
            assert(after.segments.drop_last() =~= before.segments);
            assert forall|k: int| 0 <= k < before.open.len() implies (
            #[trigger] before.open[k]) is None by {
                if before.open[k] is Some {
                    assert(target[k]);
                    assert(target[count - 1]);
                }
            }
            lemma_inv_one_more(
                before,
                after,
                names,
                sections,
                secondary,
                ids,
                OrderEvent::SegmentStart(id),
            );
        }
        assert forall|k: int| 0 <= k < names.len() && k != count - 1 implies #[trigger] after.open[k]
            == before.open[k] by {}
    }
}

proof fn lemma_emitted<'data>(
    s: OrderView<'data>,
    names: Seq<Seq<u8>>,
    sections: &OutputSections<'data>,
    secondary: Seq<Vec<OutputSectionId>>,
    ids: Seq<OutputSectionId>,
    listed: int,
    count: int,
)
    requires
        order_inv(s, names, sections, secondary, ids),
        macho_order::secondary_wf(sections, secondary),
        macho_order::ids_exist(sections, ids),
        0 <= listed < ids.len(),
        0 <= count <= macho_order::with_secondary(ids[listed], secondary).len(),
        forall|k: int|
            0 <= k < names.len() ==> (#[trigger] s.open[k] is Some) == macho_order::wanted(
                names,
                sections,
                ids[listed],
                k,
            ),
    ensures
        ({
            let brought = macho_order::with_secondary(ids[listed], secondary);
            let t = macho_order::emitted(s, brought, count);
            &&& order_inv(t, names, sections, secondary, ids)
            &&& t.open == s.open
        }),
    decreases count,
{
    if count > 0 {
        lemma_emitted(s, names, sections, secondary, ids, listed, count - 1);
        let brought = macho_order::with_secondary(ids[listed], secondary);
        let before = macho_order::emitted(s, brought, count - 1);
        let id = brought[count - 1];
        assert(sections.has(ids[listed]));
        assert(sections.has(id)) by {
            if count > 1 {
                assert(id == secondary[ids[listed].0 as int]@[count - 2]);
            }
        }
        assert(macho_order::with_secondary(ids[listed], secondary).contains(id));
        lemma_emit_step(before, names, sections, id);
        lemma_open_now(before, names, sections, ids[listed]);
        assert(is_held(
            before,
            names,
            sections,
            secondary,
            ids,
            id,
            before.events.len() as int,
        ));
        lemma_inv_one_more(
            before,
            macho_order::emit_step(before, id),
            names,
            sections,
            secondary,
            ids,
            OrderEvent::Section(id),
        );
    }
}

proof fn lemma_ended_segments<'data>(s: OrderView<'data>, target: Seq<bool>, count: int)
    ensures
        macho_order::ended(s, target, count).segments == s.segments,
    decreases count,
{
    if count > 0 {
        lemma_ended_segments(s, target, count - 1);
    }
}

proof fn lemma_started_segments<'data>(
    s: OrderView<'data>,
    names: Seq<Seq<u8>>,
    target: Seq<bool>,
    count: int,
)
    ensures
        s.segments.len() <= macho_order::started(s, names, target, count).segments.len(),
    decreases count,
{
    if count > 0 {
        lemma_started_segments(s, names, target, count - 1);
    }
}

proof fn lemma_emitted_segments<'data>(s: OrderView<'data>, ids: Seq<OutputSectionId>, count: int)
    ensures
        macho_order::emitted(s, ids, count).segments == s.segments,
    decreases count,
{
    if count > 0 {
        lemma_emitted_segments(s, ids, count - 1);
    }
}

proof fn lemma_order_after<'data>(
    names: Seq<Seq<u8>>,
    sections: &OutputSections<'data>,
    secondary: Seq<Vec<OutputSectionId>>,
    ids: Seq<OutputSectionId>,
    count: int,
)
    requires
        macho_order::secondary_wf(sections, secondary),
        macho_order::ids_exist(sections, ids),
        names.no_duplicates(),
        0 <= count <= ids.len(),
        macho_order::order_after(names, sections, secondary, ids, count).segments.len()
            <= usize::MAX,
    ensures
        order_inv(
            macho_order::order_after(names, sections, secondary, ids, count),
            names,
            sections,
            secondary,
            ids,
        ),
    decreases count,
{
    if count > 0 {
        let before = macho_order::order_after(names, sections, secondary, ids, count - 1);
        let id = ids[count - 1];
        let target = macho_order::all_wanted(names, sections, id);
        let brought = macho_order::with_secondary(id, secondary);
        let n = names.len() as int;
        let closed_some = macho_order::ended(before, target, n);
        let opened = macho_order::started(closed_some, names, target, n);
        lemma_ended_segments(before, target, n);
        lemma_started_segments(closed_some, names, target, n);
        lemma_emitted_segments(opened, brought, brought.len() as int);
        lemma_order_after(names, sections, secondary, ids, count - 1);
        lemma_ended(before, names, sections, secondary, ids, target, n);
        assert forall|k: int, l: int| 0 <= k < l < n implies !(#[trigger] target[k]
            && #[trigger] target[l]) by {
            assert(names[k] != names[l]);
        }
        lemma_started(closed_some, names, sections, secondary, ids, target, n);
        assert forall|k: int| 0 <= k < n implies (#[trigger] opened.open[k] is Some)
            == macho_order::wanted(names, sections, id, k) by {
            assert(target[k] == macho_order::wanted(names, sections, id, k));
        }
        lemma_emitted(
            opened,
            names,
            sections,
            secondary,
            ids,
            count - 1,
            brought.len() as int,
        );
    } else {
        let s = macho_order::order_after(names, sections, secondary, ids, count);
        assert(s.events.len() == 0);
        assert(s.segments.len() == 0);
    }
}

/// Every segment starts and ends once, and no segment starts while another one is open. Every
/// section is emitted while exactly the segments that hold it, or that hold the section it is merged
/// into, are open.
pub proof fn lemma_segments_start_and_end<'data>(
    names: Seq<Seq<u8>>,
    sections: &OutputSections<'data>,
    secondary: Seq<Vec<OutputSectionId>>,
    ids: Seq<OutputSectionId>,
)
    requires
        macho_order::secondary_wf(sections, secondary),
        macho_order::ids_exist(sections, ids),
        names.no_duplicates(),
        macho_order::ordered(names, sections, secondary, ids).segments.len() <= usize::MAX,
    ensures
        ({
            let s = macho_order::ordered(names, sections, secondary, ids);
            &&& order_wf(s, names, sections)
            &&& forall|segment: int|
                0 <= segment < s.segments.len() ==> #[trigger] segment_layout::has_ended(
                    s.events,
                    segment,
                    s.events.len() as int,
                )
            &&& in_turn(s.events, s.segments.len())
            &&& forall|position: int|
                0 <= position < s.events.len() ==> #[trigger] in_its_segments(
                    s,
                    names,
                    sections,
                    secondary,
                    ids,
                    position,
                )
        }),
{
    let n = names.len() as int;
    let before = macho_order::order_after(names, sections, secondary, ids, ids.len() as int);
    let target = macho_order::none_wanted(names);
    let s = macho_order::ordered(names, sections, secondary, ids);
    lemma_ended_segments(before, target, n);
    lemma_order_after(names, sections, secondary, ids, ids.len() as int);
    lemma_ended(before, names, sections, secondary, ids, target, n);
    assert forall|segment: int| 0 <= segment < s.segments.len() implies
        #[trigger] segment_layout::has_ended(s.events, segment, s.events.len() as int) by {
        if is_among(s.open, segment) {
            let k = choose|k: int|
                0 <= k < s.open.len() && (#[trigger] s.open[k] matches Some(other) && other.0
                    == segment);
            assert(target[k]);
        }
    }
}

/// A segment that has ended starts and ends once.
pub proof fn lemma_opens_once<'data>(
    s: OrderView<'data>,
    names: Seq<Seq<u8>>,
    sections: &OutputSections<'data>,
    segment: ProgramSegmentId,
)
    requires
        order_wf(s, names, sections),
        segment.0 < s.segments.len(),
        segment_layout::has_ended(s.events, segment.0 as int, s.events.len() as int),
    ensures
        segment_laws::opens_once(s.events, segment),
{
    let last = s.events.len() as int;
    assert(has_started(s.events, segment.0 as int, last));
    let start = choose|i: int| i < last && #[trigger] starts_at(s.events, i, segment.0 as int);
    let end = choose|i: int|
        i < last && #[trigger] segment_layout::ends(s.events, i, segment.0 as int);
    assert forall|i: int|
        0 <= i < s.events.len() && segment_layout::starts_or_ends(
            #[trigger] s.events[i],
            segment.0 as int,
        ) implies i == start || i == end by {
        assert(starts_at(s.events, i, segment.0 as int) || segment_layout::ends(
            s.events,
            i,
            segment.0 as int,
        ));
    }
    assert(segment_laws::open_during(s.events, segment, start, end));
}

} // verus!
