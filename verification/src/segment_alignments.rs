//! The alignments of segments that are loaded.
use crate::alignment::Alignment;
use crate::hash_maps::IdMap;
use crate::output_order::{OrderEvent, OutputOrder};
use crate::output_section_part_map::OutputSectionPartMap;
use crate::output_sections::OutputSections;
use crate::program_segments::{ProgramSegmentId, ProgramSegments};
use vstd::prelude::*;

verus! {

/// Raises the exponents of some segments.
pub open spec fn raised(exponents: Map<u64, u64>, active: Seq<ProgramSegmentId>, exponent: u64) -> Map<
    u64,
    u64,
> {
    Map::new(
        |id: u64| exponents.contains_key(id),
        |id: u64|
            if exponents[id] < exponent && active.contains(ProgramSegmentId(id as usize)) {
                exponent
            } else {
                exponents[id]
            },
    )
}

/// The loaded segments that have started and not ended before an event, and the exponents of the
/// alignments of all that have started. A segment is aligned for all sections in it, and not
/// less than loaded segments are in general.
pub open spec fn alignments_before<'data>(
    sizes: &OutputSectionPartMap<u64>,
    segments: &ProgramSegments,
    events: Seq<OrderEvent<'data>>,
    base: Alignment,
    sections: &OutputSections<'data>,
    end: int,
) -> (Map<u64, u64>, Seq<ProgramSegmentId>)
    decreases end,
{
    if end <= 0 {
        (Map::empty(), Seq::empty())
    } else {
        let (exponents, active) = alignments_before(
            sizes,
            segments,
            events,
            base,
            sections,
            end - 1,
        );
        match events[end - 1] {
            OrderEvent::SegmentStart(id) => if segments.def(id).loadable {
                (
                    if exponents.contains_key(id.0 as u64) {
                        exponents
                    } else {
                        exponents.insert(id.0 as u64, base.exp() as u64)
                    },
                    active.push(id),
                )
            } else {
                (exponents, active)
            },
            OrderEvent::SegmentEnd(id) => (
                exponents,
                active.filter(|other: ProgramSegmentId| other != id),
            ),
            OrderEvent::Section(id) => (
                raised(exponents, active, sizes.max_exponent(id, sections) as u64),
                active,
            ),
            _ => (exponents, active),
        }
    }
}

fn remove_segment(active: &Vec<ProgramSegmentId>, id: ProgramSegmentId) -> (kept: Vec<
    ProgramSegmentId,
>)
    ensures
        kept@ == active@.filter(|other: ProgramSegmentId| other != id),
{
    let mut kept: Vec<ProgramSegmentId> = Vec::new();
    let mut i: usize = 0;
    let ghost keep = |other: ProgramSegmentId| other != id;
    while i < active.len()
        invariant
            i <= active@.len(),
            keep == (|other: ProgramSegmentId| other != id),
            kept@ == active@.take(i as int).filter(keep),
        decreases active@.len() - i,
    {
        proof {
            reveal(Seq::filter);
            assert(active@.take(i + 1).drop_last() =~= active@.take(i as int));
            assert(active@.take(i + 1).last() == active@[i as int]);
        }
        if active[i].0 != id.0 {
            kept.push(active[i]);
        }
        i = i + 1;
    }
    assert(active@.take(i as int) =~= active@);
    kept
}

fn raise_segments(exponents: &mut IdMap, active: &Vec<ProgramSegmentId>, exponent: u64)
    requires
        forall|i: int|
            0 <= i < active@.len() ==> old(exponents)@.contains_key(
                (#[trigger] active@[i]).0 as u64,
            ),
        forall|id: u64| #[trigger] old(exponents)@.contains_key(id) ==> id <= usize::MAX,
    ensures
        final(exponents)@ == raised(old(exponents)@, active@, exponent),
{
    let ghost before = exponents@;
    let mut i: usize = 0;
    assert(exponents@ =~= raised(before, active@.take(0), exponent));
    while i < active.len()
        invariant
            i <= active@.len(),
            exponents@ == raised(before, active@.take(i as int), exponent),
            forall|i: int|
                0 <= i < active@.len() ==> before.contains_key((#[trigger] active@[i]).0 as u64),
            forall|id: u64| #[trigger] before.contains_key(id) ==> id <= usize::MAX,
        decreases active@.len() - i,
    {
        let ghost now = active@.take(i as int);
        let ghost next = active@.take(i + 1);
        let id: u64 = active[i].0 as u64;
        let ghost previous = exponents@;
        assert(before.contains_key(active@[i as int].0 as u64));
        exponents.raise(id, exponent);
        proof {
            assert(next =~= now.push(active@[i as int]));
            assert forall|other: ProgramSegmentId| next.contains(other) == (now.contains(other)
                || other == active@[i as int]) by {
                if now.contains(other) {
                    let k = choose|k: int| 0 <= k < now.len() && now[k] == other;
                    assert(next[k] == other);
                }
                if other == active@[i as int] {
                    assert(next[i as int] == other);
                }
            }
            assert(exponents@ =~= raised(before, next, exponent));
        }
        i = i + 1;
    }
    assert(active@.take(i as int) =~= active@);
}

/// The exponents of the alignments of all segments that are loaded.
pub fn compute_segment_alignments<'data>(
    sizes: &OutputSectionPartMap<u64>,
    segments: &ProgramSegments,
    output_order: &OutputOrder<'data>,
    base: Alignment,
    sections: &OutputSections<'data>,
) -> (exponents: IdMap)
    requires
        sizes.wf(),
        sections.wf(),
        output_order.wf(sections, segments),
        sizes.dense() == sections.platform.built_in_part_count(),
    ensures
        exponents@ == alignments_before(
            sizes,
            segments,
            output_order.events@,
            base,
            sections,
            output_order.events@.len() as int,
        ).0,
        forall|id: u64| #[trigger] exponents@.contains_key(id) ==> exponents@[id] <= 16,
{
    let mut exponents: IdMap = IdMap::new();
    let mut active: Vec<ProgramSegmentId> = Vec::new();
    let base_exponent: u8 = base.exponent();
    let mut i: usize = 0;
    while i < output_order.events.len()
        invariant
            i <= output_order.events@.len(),
            sizes.wf(),
            sections.wf(),
            output_order.wf(sections, segments),
            sizes.dense() == sections.platform.built_in_part_count(),
            base_exponent == base.exp(),
            base_exponent <= 16,
            (exponents@, active@) == alignments_before(
                sizes,
                segments,
                output_order.events@,
                base,
                sections,
                i as int,
            ),
            forall|id: u64| #[trigger]
                exponents@.contains_key(id) ==> exponents@[id] <= 16 && id <= usize::MAX,
            forall|k: int|
                0 <= k < active@.len() ==> exponents@.contains_key((#[trigger] active@[k]).0 as u64),
        decreases output_order.events@.len() - i,
    {
        let event: OrderEvent<'data> = output_order.events[i];
        assert(output_order.event_wf(event, sections, segments));
        match event {
            OrderEvent::SegmentStart(id) => {
                if segments.is_load_segment(id) {
                    if !exponents.contains_key(id.0 as u64) {
                        exponents.insert(id.0 as u64, base_exponent as u64);
                    }
                    active.push(id);
                }
            },
            OrderEvent::SegmentEnd(id) => {
                let ghost before = active@;
                active = remove_segment(&active, id);
                proof {
                    let keep = |other: ProgramSegmentId| other != id;
                    assert forall|k: int| 0 <= k < active@.len() implies exponents@.contains_key(
                        (#[trigger] active@[k]).0 as u64,
                    ) by {
                        assert(before.filter(keep).contains(active@[k]));
                        before.lemma_filter_contains_rev(keep, active@[k]);
                    }
                }
            },
            OrderEvent::Section(id) => {
                let exponent: u8 = sizes.max_alignment(id, sections).exponent();
                raise_segments(&mut exponents, &active, exponent as u64);
            },
            _ => {},
        }
        i = i + 1;
    }
    exponents
}

} // verus!
