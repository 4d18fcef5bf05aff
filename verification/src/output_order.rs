//! The order in which sections and segments are emitted.
use crate::expression::{Expression, SymbolLoc};
use crate::output_section_id::OutputSectionId;
use crate::output_sections::OutputSections;
use crate::program_segments::{ProgramSegmentId, ProgramSegments};
use vstd::prelude::*;

verus! {

/// One step of the output.
#[derive(Clone, Copy, Debug)]
pub enum OrderEvent<'data> {
    /// `. = expression`; the value goes to the location counter with the given index.
    SetLocation(Expression<'data>, SymbolLoc, usize),
    /// `. = expression` inside a section.
    SetLocationRelative(Expression<'data>, OutputSectionId, SymbolLoc, usize),
    /// The address that a section description gives.
    SetSectionAddress(Expression<'data>),
    SegmentStart(ProgramSegmentId),
    SegmentEnd(ProgramSegmentId),
    Section(OutputSectionId),
}

/// The order in which sections and segments are emitted.
pub struct OutputOrder<'data> {
    pub events: Vec<OrderEvent<'data>>,
    /// The sections in the order in which linker scripts list them.
    pub script_section_order: Vec<OutputSectionId>,
    pub num_location_counters: usize,
    pub has_custom_phdrs: bool,
}

/// Whether `.` is something that exists.
pub open spec fn location_exists(loc: SymbolLoc, count: int) -> bool {
    loc matches SymbolLoc::LocationCounter(index) ==> index < count
}

impl<'data> OutputOrder<'data> {
    /// Whether an event speaks of sections, segments and location counters that exist.
    pub open spec fn event_wf(
        &self,
        event: OrderEvent<'data>,
        sections: &OutputSections<'data>,
        segments: &ProgramSegments,
    ) -> bool {
        match event {
            OrderEvent::SetLocation(_, loc, index) => index < self.num_location_counters
                && location_exists(loc, self.num_location_counters as int),
            OrderEvent::SetLocationRelative(_, id, loc, index) => sections.has(id) && index
                < self.num_location_counters && location_exists(
                loc,
                self.num_location_counters as int,
            ),
            OrderEvent::SetSectionAddress(_) => true,
            OrderEvent::SegmentStart(id) => segments.has(id),
            OrderEvent::SegmentEnd(id) => segments.has(id),
            OrderEvent::Section(id) => sections.has(id),
        }
    }

    /// Whether all events speak of sections, segments and location counters that exist.
    pub open spec fn wf(&self, sections: &OutputSections<'data>, segments: &ProgramSegments) -> bool {
        &&& forall|i: int|
            0 <= i < self.events@.len() ==> self.event_wf(
                #[trigger] self.events@[i],
                sections,
                segments,
            )
        &&& forall|i: int|
            0 <= i < self.script_section_order@.len() ==> sections.has(
                #[trigger] self.script_section_order@[i],
            )
    }
}

/// The section that an event emits.
pub open spec fn emitted_section(event: OrderEvent) -> Option<OutputSectionId> {
    match event {
        OrderEvent::Section(id) => Some(id),
        _ => None,
    }
}

/// The sections that the events from the given position on emit, in order.
pub open spec fn sections_from(events: Seq<OrderEvent>, from: int) -> Seq<OutputSectionId>
    decreases events.len() - from,
{
    if from < 0 || from >= events.len() {
        Seq::empty()
    } else {
        match emitted_section(events[from]) {
            Some(id) => seq![id] + sections_from(events, from + 1),
            None => sections_from(events, from + 1),
        }
    }
}

/// The sections that the events from the given position on emit, in order.
pub fn collect_sections_from<'data>(
    events: &Vec<OrderEvent<'data>>,
    from: usize,
) -> (ids: Vec<OutputSectionId>)
    requires
        from <= events@.len(),
    ensures
        ids@ == sections_from(events@, from as int),
{
    let mut ids: Vec<OutputSectionId> = Vec::new();
    let mut i: usize = from;
    while i < events.len()
        invariant
            from <= i <= events@.len(),
            sections_from(events@, from as int) == ids@ + sections_from(events@, i as int),
        decreases events@.len() - i,
    {
        match events[i] {
            OrderEvent::Section(id) => {
                let ghost before = ids@;
                ids.push(id);
                assert(before + (seq![id] + sections_from(events@, i + 1)) =~= ids@ + sections_from(
                    events@,
                    i + 1,
                ));
            },
            _ => {},
        }
        i = i + 1;
    }
    assert(ids@ + sections_from(events@, i as int) =~= ids@);
    ids
}

} // verus!
