//! The order of the sections and segments of a Mach-O file.
use crate::emission_laws;
use crate::layout_laws;
use crate::macho_attributes;
use crate::macho_attributes::SegmentName;
use crate::macho_order_laws;
use crate::macho_segments;
use crate::macho_segments::{
    requested_segment, should_include_in_segment, MachOSegmentDef, SinglePartSectionId,
};
use crate::output_order::{OrderEvent, OutputOrder};
use crate::output_section_id::{file_header, OutputSectionId};
use crate::output_section_map::OutputSectionMap;
use crate::output_sections::OutputSections;
use crate::program_segments::{ProgramSegmentDef, ProgramSegmentId, ProgramSegments};
use crate::section_classes;
use crate::section_classes::{
    classify_sections, script_section_order, secondary_sections, CustomSectionIds, OrphanClass,
};
use crate::segment_laws;
use crate::segment_layout;
use vstd::prelude::*;

verus! {

/// The names of segments.
pub open spec fn names_of(segments: Seq<MachOSegmentDef>) -> Seq<Seq<u8>> {
    Seq::new(segments.len(), |i: int| segments[i].name.bytes@)
}

/// Whether a segment holds a section.
pub open spec fn wanted<'data>(
    names: Seq<Seq<u8>>,
    sections: &OutputSections<'data>,
    id: OutputSectionId,
    segment: int,
) -> bool {
    macho_segments::included(names[segment], sections.info(id).kind, id)
}

/// The segments that hold a section.
pub open spec fn all_wanted<'data>(
    names: Seq<Seq<u8>>,
    sections: &OutputSections<'data>,
    id: OutputSectionId,
) -> Seq<bool> {
    Seq::new(names.len(), |i: int| wanted(names, sections, id, i))
}

/// The order so far.
pub struct OrderView<'data> {
    /// For each name, the segment with that name that is open.
    pub open: Seq<Option<ProgramSegmentId>>,
    /// The names of the segments that have started.
    pub segments: Seq<Seq<u8>>,
    pub events: Seq<OrderEvent<'data>>,
}

/// Ends the segment with a name if it is open and should not be.
pub open spec fn end_step<'data>(
    s: OrderView<'data>,
    target: Seq<bool>,
    index: int,
) -> OrderView<'data> {
    match s.open[index] {
        Some(id) if !target[index] => OrderView {
            open: s.open.update(index, None),
            events: s.events.push(OrderEvent::SegmentEnd(id)),
            ..s
        },
        _ => s,
    }
}

/// Ends the segments with the first `count` names that are open and should not be.
pub open spec fn ended<'data>(s: OrderView<'data>, target: Seq<bool>, count: int) -> OrderView<
    'data,
>
    decreases count,
{
    if count <= 0 {
        s
    } else {
        end_step(ended(s, target, count - 1), target, count - 1)
    }
}

/// Starts a segment with a name if none is open and one should be.
pub open spec fn start_step<'data>(
    s: OrderView<'data>,
    names: Seq<Seq<u8>>,
    target: Seq<bool>,
    index: int,
) -> OrderView<'data> {
    let id = ProgramSegmentId(s.segments.len() as usize);
    if s.open[index] is None && target[index] {
        OrderView {
            open: s.open.update(index, Some(id)),
            segments: s.segments.push(names[index]),
            events: s.events.push(OrderEvent::SegmentStart(id)),
        }
    } else {
        s
    }
}

/// Starts segments with those of the first `count` names that should be open and are not.
pub open spec fn started<'data>(
    s: OrderView<'data>,
    names: Seq<Seq<u8>>,
    target: Seq<bool>,
    count: int,
) -> OrderView<'data>
    decreases count,
{
    if count <= 0 {
        s
    } else {
        start_step(started(s, names, target, count - 1), names, target, count - 1)
    }
}

/// Emits a section.
pub open spec fn emit_step<'data>(s: OrderView<'data>, id: OutputSectionId) -> OrderView<'data> {
    OrderView { events: s.events.push(OrderEvent::Section(id)), ..s }
}

/// Emits the first `count` sections of a list.
pub open spec fn emitted<'data>(
    s: OrderView<'data>,
    ids: Seq<OutputSectionId>,
    count: int,
) -> OrderView<'data>
    decreases count,
{
    if count <= 0 {
        s
    } else {
        emit_step(emitted(s, ids, count - 1), ids[count - 1])
    }
}

/// A section and those that are merged into it.
pub open spec fn with_secondary(
    id: OutputSectionId,
    secondary: Seq<Vec<OutputSectionId>>,
) -> Seq<OutputSectionId> {
    seq![id] + secondary[id.0 as int]@
}

/// Ends the segments that do not hold a section and starts those that do.
pub open spec fn switched<'data>(
    s: OrderView<'data>,
    names: Seq<Seq<u8>>,
    target: Seq<bool>,
) -> OrderView<'data> {
    started(ended(s, target, names.len() as int), names, target, names.len() as int)
}

/// Adds a section: the segments that do not hold it end, those that do start, and the section comes
/// with those that are merged into it.
pub open spec fn section_step<'data>(
    s: OrderView<'data>,
    names: Seq<Seq<u8>>,
    sections: &OutputSections<'data>,
    secondary: Seq<Vec<OutputSectionId>>,
    id: OutputSectionId,
) -> OrderView<'data> {
    let brought = with_secondary(id, secondary);
    emitted(switched(s, names, all_wanted(names, sections, id)), brought, brought.len() as int)
}

/// The order before anything is added.
pub open spec fn empty_order<'data>(names: Seq<Seq<u8>>) -> OrderView<'data> {
    OrderView {
        open: Seq::new(names.len(), |i: int| None),
        segments: Seq::empty(),
        events: Seq::empty(),
    }
}

/// The order after the first `count` sections of a list.
pub open spec fn order_after<'data>(
    names: Seq<Seq<u8>>,
    sections: &OutputSections<'data>,
    secondary: Seq<Vec<OutputSectionId>>,
    ids: Seq<OutputSectionId>,
    count: int,
) -> OrderView<'data>
    decreases count,
{
    if count <= 0 {
        empty_order(names)
    } else {
        section_step(
            order_after(names, sections, secondary, ids, count - 1),
            names,
            sections,
            secondary,
            ids[count - 1],
        )
    }
}

/// No segment is to be open.
pub open spec fn none_wanted(names: Seq<Seq<u8>>) -> Seq<bool> {
    Seq::new(names.len(), |i: int| false)
}

/// The order of the sections of a list. At the end, all segments end.
pub open spec fn ordered<'data>(
    names: Seq<Seq<u8>>,
    sections: &OutputSections<'data>,
    secondary: Seq<Vec<OutputSectionId>>,
    ids: Seq<OutputSectionId>,
) -> OrderView<'data> {
    ended(
        order_after(names, sections, secondary, ids, ids.len() as int),
        none_wanted(names),
        names.len() as int,
    )
}

/// Whether segments are what their names say.
pub open spec fn as_named(segments: Seq<MachOSegmentDef>) -> bool {
    forall|i: int|
        0 <= i < segments.len() ==> (#[trigger] segments[i]).prot == MachOSegmentDef::prot_of(
            segments[i].name.bytes@,
        ) && segments[i].flags == MachOSegmentDef::flags_of(segments[i].name.bytes@)
}

/// Collects the order in which sections and segments are emitted. A segment gets its ID when it
/// starts, so there are no segments but those that some section is in.
pub struct OutputOrderBuilder<'a, 'data> {
    segment_defs: Vec<MachOSegmentDef>,
    sections: &'a OutputSections<'data>,
    secondary: &'a OutputSectionMap<Vec<OutputSectionId>>,
    open: Vec<Option<ProgramSegmentId>>,
    segments: Vec<MachOSegmentDef>,
    events: Vec<OrderEvent<'data>>,
}

/// Whether secondary sections exist.
pub open spec fn secondary_wf<'data>(
    sections: &OutputSections<'data>,
    secondary: Seq<Vec<OutputSectionId>>,
) -> bool {
    &&& secondary.len() == sections.count()
    &&& forall|i: int, k: int|
        0 <= i < secondary.len() && 0 <= k < secondary[i]@.len() ==> sections.has(
            #[trigger] secondary[i]@[k],
        )
}

impl<'a, 'data> OutputOrderBuilder<'a, 'data> {
    /// The names that segments can have.
    pub closed spec fn names(&self) -> Seq<Seq<u8>> {
        names_of(self.segment_defs@)
    }

    pub closed spec fn of(&self) -> &OutputSections<'data> {
        self.sections
    }

    pub closed spec fn merged(&self) -> Seq<Vec<OutputSectionId>> {
        self.secondary@
    }

    /// The order so far.
    pub closed spec fn so_far(&self) -> OrderView<'data> {
        OrderView {
            open: self.open@,
            segments: names_of(self.segments@),
            events: self.events@,
        }
    }

    pub closed spec fn wf(&self) -> bool {
        &&& self.sections.wf()
        &&& secondary_wf(self.sections, self.secondary@)
        &&& self.open@.len() == self.segment_defs@.len()
        &&& as_named(self.segment_defs@)
        &&& as_named(self.segments@)
    }

    spec fn same_setting(&self, other: &Self) -> bool {
        &&& self.segment_defs == other.segment_defs
        &&& self.sections == other.sections
        &&& self.secondary == other.secondary
    }

    /// Nothing has been emitted, and no segment is open.
    pub fn new(
        segment_defs: Vec<MachOSegmentDef>,
        sections: &'a OutputSections<'data>,
        secondary: &'a OutputSectionMap<Vec<OutputSectionId>>,
    ) -> (builder: OutputOrderBuilder<'a, 'data>)
        requires
            sections.wf(),
            secondary_wf(sections, secondary@),
            as_named(segment_defs@),
        ensures
            builder.wf(),
            builder.names() == names_of(segment_defs@),
            builder.of() == sections,
            builder.merged() == secondary@,
            builder.so_far() == empty_order(names_of(segment_defs@)),
    {
        let mut open: Vec<Option<ProgramSegmentId>> = Vec::new();
        let mut i: usize = 0;
        while i < segment_defs.len()
            invariant
                i <= segment_defs@.len(),
                open@ == Seq::new(i as nat, |k: int| None::<ProgramSegmentId>),
            decreases segment_defs@.len() - i,
        {
            open.push(None);
            assert(open@ =~= Seq::new((i + 1) as nat, |k: int| None::<ProgramSegmentId>));
            i = i + 1;
        }
        let builder = OutputOrderBuilder {
            segment_defs,
            sections,
            secondary,
            open,
            segments: Vec::new(),
            events: Vec::new(),
        };
        proof {
            let start = empty_order::<'data>(names_of(segment_defs@));
            assert(builder.so_far().open =~= start.open);
            assert(builder.so_far().segments =~= start.segments);
            assert(builder.so_far().events =~= start.events);
        }
        builder
    }

    fn target(&self, id: OutputSectionId) -> (target: Vec<bool>)
        requires
            self.wf(),
            self.of().has(id),
        ensures
            target@ == all_wanted(self.names(), self.of(), id),
    {
        let mut target: Vec<bool> = Vec::new();
        let mut i: usize = 0;
        while i < self.segment_defs.len()
            invariant
                i <= self.segment_defs@.len(),
                self.of().has(id),
                target@.len() == i,
                forall|k: int|
                    0 <= k < i ==> target@[k] == wanted(self.names(), self.of(), id, k),
            decreases self.segment_defs@.len() - i,
        {
            target.push(should_include_in_segment(self.sections, id, self.segment_defs[i]));
            i = i + 1;
        }
        assert(target@ =~= all_wanted(self.names(), self.of(), id));
        target
    }

    fn end_segments(&mut self, target: &Vec<bool>)
        requires
            old(self).wf(),
            target@.len() == old(self).names().len(),
        ensures
            final(self).wf(),
            final(self).same_setting(old(self)),
            final(self).so_far() == ended(old(self).so_far(), target@, target@.len() as int),
    {
        let mut i: usize = 0;
        while i < target.len()
            invariant
                i <= target@.len(),
                self.wf(),
                self.same_setting(old(self)),
                target@.len() == self.segment_defs@.len(),
                self.so_far() == ended(old(self).so_far(), target@, i as int),
            decreases target@.len() - i,
        {
            if let Some(id) = self.open[i] {
                if !target[i] {
                    self.events.push(OrderEvent::SegmentEnd(id));
                    self.open.set(i, None);
                }
            }
            i = i + 1;
        }
    }

    fn start_segments(&mut self, target: &Vec<bool>)
        requires
            old(self).wf(),
            target@.len() == old(self).names().len(),
        ensures
            final(self).wf(),
            final(self).same_setting(old(self)),
            final(self).so_far() == started(
                old(self).so_far(),
                old(self).names(),
                target@,
                target@.len() as int,
            ),
    {
        let mut i: usize = 0;
        while i < target.len()
            invariant
                i <= target@.len(),
                self.wf(),
                self.same_setting(old(self)),
                target@.len() == self.segment_defs@.len(),
                self.so_far() == started(
                    old(self).so_far(),
                    old(self).names(),
                    target@,
                    i as int,
                ),
            decreases target@.len() - i,
        {
            if self.open[i].is_none() && target[i] {
                let id: ProgramSegmentId = ProgramSegmentId(self.segments.len());
                let ghost before = self.segments@;
                self.events.push(OrderEvent::SegmentStart(id));
                self.open.set(i, Some(id));
                self.segments.push(self.segment_defs[i]);
                assert(names_of(self.segments@) =~= names_of(before).push(
                    self.segment_defs@[i as int].name.bytes@,
                ));
            }
            i = i + 1;
        }
    }

    /// Emits a section and those that are merged into it, in the segments that hold it.
    pub fn add_section(&mut self, id: OutputSectionId)
        requires
            old(self).wf(),
            old(self).of().has(id),
        ensures
            final(self).wf(),
            final(self).names() == old(self).names(),
            final(self).of() == old(self).of(),
            final(self).merged() == old(self).merged(),
            final(self).so_far() == section_step(
                old(self).so_far(),
                old(self).names(),
                old(self).of(),
                old(self).merged(),
                id,
            ),
    {
        let target: Vec<bool> = self.target(id);
        self.end_segments(&target);
        self.start_segments(&target);
        let ghost before = self.so_far();
        let ghost all = with_secondary(id, self.secondary@);
        assert(emitted(before, all, 0) == before);
        self.events.push(OrderEvent::Section(id));
        let count: usize = self.secondary.get(id).len();
        let mut i: usize = 0;
        assert(emitted(before, all, 1) == self.so_far());
        while i < count
            invariant
                i <= count,
                self.wf(),
                self.same_setting(old(self)),
                self.of().has(id),
                count == self.secondary@[id.0 as int]@.len(),
                all == with_secondary(id, self.secondary@),
                self.so_far() == emitted(before, all, i + 1),
            decreases count - i,
        {
            let merged: OutputSectionId = self.secondary.get(id)[i];
            self.events.push(OrderEvent::Section(merged));
            assert(all[i + 1] == merged);
            i = i + 1;
        }
    }

    /// Ends the segments that are open. Returns the events and the segments.
    pub fn build(self) -> (result: (Vec<OrderEvent<'data>>, Vec<MachOSegmentDef>))
        requires
            self.wf(),
        ensures
            ({
                let end = ended(
                    self.so_far(),
                    none_wanted(self.names()),
                    self.names().len() as int,
                );
                &&& result.0@ == end.events
                &&& names_of(result.1@) == end.segments
            }),
            as_named(result.1@),
    {
        let mut builder: OutputOrderBuilder<'a, 'data> = self;
        let mut target: Vec<bool> = Vec::new();
        while target.len() < builder.segment_defs.len()
            invariant
                builder == self,
                target@.len() <= builder.segment_defs@.len(),
                target@ == Seq::new(target@.len(), |i: int| false),
            decreases builder.segment_defs@.len() - target@.len(),
        {
            target.push(false);
        }
        assert(target@ =~= none_wanted(self.names()));
        builder.end_segments(&target);
        (builder.events, builder.segments)
    }
}

/// Whether the linker places the sections of a segment in a way of their own.
pub open spec fn is_known_segment(name: Seq<u8>) -> bool {
    name == macho_attributes::pagezero_name() || name == macho_attributes::text_name() || name
        == macho_attributes::data_const_name() || name == macho_attributes::data_name() || name
        == macho_attributes::linkedit_name()
}

/// The other segments that the first `count` sections ask for, each once, in the order in which
/// they are first asked for.
pub open spec fn other_segments<'data>(sections: &OutputSections<'data>, count: int) -> Seq<Seq<u8>>
    decreases count,
{
    if count <= 0 {
        Seq::empty()
    } else {
        let before = other_segments(sections, count - 1);
        match macho_segments::segment_of(sections.infos()[count - 1].kind) {
            Some(name) => if is_known_segment(name) || before.contains(name) {
                before
            } else {
                before.push(name)
            },
            None => before,
        }
    }
}

/// The names that segments can have, in order.
pub open spec fn segment_names<'data>(sections: &OutputSections<'data>) -> Seq<Seq<u8>> {
    seq![
        macho_attributes::text_name(),
        macho_attributes::data_const_name(),
        macho_attributes::data_name(),
    ] + other_segments(sections, sections.count()) + seq![macho_attributes::linkedit_name()]
}

/// Those of the first `count` sections of a list that ask for a segment.
pub open spec fn in_segment<'data>(
    sections: &OutputSections<'data>,
    ids: Seq<OutputSectionId>,
    segment: Seq<u8>,
    count: int,
) -> Seq<OutputSectionId>
    decreases count,
{
    if count <= 0 {
        Seq::empty()
    } else {
        let before = in_segment(sections, ids, segment, count - 1);
        if macho_segments::segment_of(sections.info(ids[count - 1]).kind) == Some(segment) {
            before.push(ids[count - 1])
        } else {
            before
        }
    }
}

/// All section IDs, in order.
pub open spec fn all_ids<'data>(sections: &OutputSections<'data>) -> Seq<OutputSectionId> {
    Seq::new(sections.count() as nat, |i: int| OutputSectionId(i as u32))
}

/// The sections of a kind that ask for a segment.
pub open spec fn class_in_segment<'data>(
    sections: &OutputSections<'data>,
    custom: &CustomSectionIds,
    class: OrphanClass,
    segment: Seq<u8>,
) -> Seq<OutputSectionId> {
    in_segment(sections, custom.of(class), segment, custom.of(class).len() as int)
}

/// The sections of the first `count` of some segments, segment by segment.
pub open spec fn segment_by_segment<'data>(
    sections: &OutputSections<'data>,
    segments: Seq<Seq<u8>>,
    count: int,
) -> Seq<OutputSectionId>
    decreases count,
{
    if count <= 0 {
        Seq::empty()
    } else {
        segment_by_segment(sections, segments, count - 1) + in_segment(
            sections,
            all_ids(sections),
            segments[count - 1],
            sections.count(),
        )
    }
}

/// The sections of the text segment: the headers, the instructions, the stubs, and what is read.
pub open spec fn text_sections<'data>(
    sections: &OutputSections<'data>,
    custom: &CustomSectionIds,
) -> Seq<OutputSectionId> {
    let text = macho_attributes::text_name();
    seq![OutputSectionId(1), SinglePartSectionId::LoadCommands.id()] + class_in_segment(
        sections,
        custom,
        OrphanClass::Exec,
        text,
    ) + seq![SinglePartSectionId::PltGot.id()] + class_in_segment(
        sections,
        custom,
        OrphanClass::Ro,
        text,
    ) + seq![SinglePartSectionId::Got.id()]
}

/// The sections from inputs that ask for a data segment, kind by kind.
pub open spec fn data_sections<'data>(
    sections: &OutputSections<'data>,
    custom: &CustomSectionIds,
    segment: Seq<u8>,
    thread_local: bool,
) -> Seq<OutputSectionId> {
    class_in_segment(sections, custom, OrphanClass::Exec, segment) + class_in_segment(
        sections,
        custom,
        OrphanClass::Ro,
        segment,
    ) + class_in_segment(sections, custom, OrphanClass::Data, segment) + (if thread_local {
        class_in_segment(sections, custom, OrphanClass::Tdata, segment) + class_in_segment(
            sections,
            custom,
            OrphanClass::Tbss,
            segment,
        )
    } else {
        Seq::empty()
    }) + class_in_segment(sections, custom, OrphanClass::Bss, segment)
}

/// The tables that the linker writes.
pub open spec fn table_sections() -> Seq<OutputSectionId> {
    seq![
        SinglePartSectionId::Strtab.id(),
        SinglePartSectionId::ChainedFixupTable.id(),
        SinglePartSectionId::ExportsTrie.id(),
        SinglePartSectionId::SymtabGlobal.id(),
        SinglePartSectionId::CodeSignature.id(),
    ]
}

/// The primary sections in the order in which they are emitted.
pub open spec fn section_list<'data>(
    sections: &OutputSections<'data>,
    custom: &CustomSectionIds,
) -> Seq<OutputSectionId> {
    let others = other_segments(sections, sections.count());
    text_sections(sections, custom) + data_sections(
        sections,
        custom,
        macho_attributes::data_const_name(),
        false,
    ) + data_sections(sections, custom, macho_attributes::data_name(), true) + segment_by_segment(
        sections,
        others,
        others.len() as int,
    ) + table_sections()
}

/// Whether the listed sections exist.
pub open spec fn ids_exist<'data>(
    sections: &OutputSections<'data>,
    ids: Seq<OutputSectionId>,
) -> bool {
    forall|i: int| 0 <= i < ids.len() ==> sections.has(#[trigger] ids[i])
}

/// Whether the sections that no rule places exist.
pub open spec fn custom_exist<'data>(
    sections: &OutputSections<'data>,
    custom: &CustomSectionIds,
) -> bool {
    forall|class: OrphanClass| ids_exist(sections, #[trigger] custom.of(class))
}

/// Adds the sections of a list that ask for a segment.
pub fn add_sections_in_segment<'data>(
    order: &mut Vec<OutputSectionId>,
    sections: &OutputSections<'data>,
    ids: &Vec<OutputSectionId>,
    segment: SegmentName,
)
    requires
        ids_exist(sections, ids@),
        ids_exist(sections, old(order)@),
    ensures
        final(order)@ == old(order)@ + in_segment(
            sections,
            ids@,
            segment.bytes@,
            ids@.len() as int,
        ),
        ids_exist(sections, final(order)@),
{
    let ghost before = order@;
    let mut i: usize = 0;
    assert(before =~= before + in_segment(sections, ids@, segment.bytes@, 0));
    while i < ids.len()
        invariant
            i <= ids@.len(),
            before == old(order)@,
            ids_exist(sections, ids@),
            ids_exist(sections, order@),
            order@ == before + in_segment(sections, ids@, segment.bytes@, i as int),
        decreases ids@.len() - i,
    {
        assert(sections.has(ids@[i as int]));
        if let Some(name) = requested_segment(sections.output_info(ids[i]).kind) {
            if name.is(segment) {
                order.push(ids[i]);
                assert(order@ =~= before + in_segment(sections, ids@, segment.bytes@, i + 1));
            }
        }
        i = i + 1;
    }
}

/// The bytes of segment names.
pub open spec fn name_bytes(names: Seq<SegmentName>) -> Seq<Seq<u8>> {
    Seq::new(names.len(), |i: int| names[i].bytes@)
}

fn contains_name(names: &Vec<SegmentName>, name: SegmentName) -> (found: bool)
    ensures
        found == name_bytes(names@).contains(name.bytes@),
{
    let mut i: usize = 0;
    while i < names.len()
        invariant
            i <= names@.len(),
            forall|k: int| 0 <= k < i ==> (#[trigger] name_bytes(names@)[k]) != name.bytes@,
        decreases names@.len() - i,
    {
        if names[i].is(name) {
            assert(name_bytes(names@)[i as int] == name.bytes@);
            return true;
        }
        i = i + 1;
    }
    false
}

fn is_known(name: SegmentName) -> (known: bool)
    ensures
        known == is_known_segment(name.bytes@),
{
    name.is(SegmentName::pagezero()) || name.is(SegmentName::text()) || name.is(
        SegmentName::data_const(),
    ) || name.is(SegmentName::data()) || name.is(SegmentName::linkedit())
}

fn find_other_segments<'data>(sections: &OutputSections<'data>) -> (names: Vec<SegmentName>)
    requires
        sections.wf(),
    ensures
        name_bytes(names@) == other_segments(sections, sections.count()),
{
    let mut names: Vec<SegmentName> = Vec::new();
    let count: usize = sections.num_sections();
    let mut i: usize = 0;
    assert(name_bytes(names@) =~= other_segments(sections, 0));
    while i < count
        invariant
            i <= count,
            count == sections.count(),
            sections.wf(),
            name_bytes(names@) == other_segments(sections, i as int),
        decreases count - i,
    {
        assert(sections.platform.base_part(sections.count()) <= u32::MAX);
        let id: OutputSectionId = OutputSectionId(i as u32);
        if let Some(name) = requested_segment(sections.output_info(id).kind) {
            if !is_known(name) && !contains_name(&names, name) {
                let ghost before = names@;
                names.push(name);
                assert(name_bytes(names@) =~= name_bytes(before).push(name.bytes@));
            }
        }
        i = i + 1;
    }
    names
}

fn make_segment_defs<'data>(
    sections: &OutputSections<'data>,
    others: &Vec<SegmentName>,
) -> (defs: Vec<MachOSegmentDef>)
    requires
        name_bytes(others@) == other_segments(sections, sections.count()),
    ensures
        names_of(defs@) == segment_names(sections),
        as_named(defs@),
{
    let mut defs: Vec<MachOSegmentDef> = Vec::new();
    defs.push(MachOSegmentDef::new(SegmentName::text()));
    defs.push(MachOSegmentDef::new(SegmentName::data_const()));
    defs.push(MachOSegmentDef::new(SegmentName::data()));
    let ghost fixed = names_of(defs@);
    let mut i: usize = 0;
    assert(fixed =~= fixed + name_bytes(others@).take(0));
    while i < others.len()
        invariant
            i <= others@.len(),
            names_of(defs@) == fixed + name_bytes(others@).take(i as int),
            as_named(defs@),
        decreases others@.len() - i,
    {
        let ghost before = defs@;
        defs.push(MachOSegmentDef::new(others[i]));
        assert(names_of(defs@) =~= names_of(before).push(others@[i as int].bytes@));
        assert(name_bytes(others@).take(i + 1) =~= name_bytes(others@).take(i as int).push(
            others@[i as int].bytes@,
        ));
        assert(names_of(defs@) =~= fixed + name_bytes(others@).take(i + 1));
        i = i + 1;
    }
    assert(name_bytes(others@).take(others@.len() as int) =~= name_bytes(others@));
    let ghost before = defs@;
    defs.push(MachOSegmentDef::new(SegmentName::linkedit()));
    assert(names_of(defs@) =~= names_of(before).push(macho_attributes::linkedit_name()));
    assert(fixed =~= seq![
        macho_attributes::text_name(),
        macho_attributes::data_const_name(),
        macho_attributes::data_name(),
    ]);
    assert(names_of(defs@) =~= segment_names(sections));
    defs
}

fn add_text_sections<'data>(
    order: &mut Vec<OutputSectionId>,
    sections: &OutputSections<'data>,
    custom: &CustomSectionIds,
)
    requires
        old(order)@.len() == 0,
        sections.count() >= 11,
        custom_exist(sections, custom),
    ensures
        final(order)@ == text_sections(sections, custom),
        ids_exist(sections, final(order)@),
{
    assert(ids_exist(sections, custom.of(OrphanClass::Exec)));
    assert(ids_exist(sections, custom.of(OrphanClass::Ro)));
    order.push(file_header());
    order.push(SinglePartSectionId::LoadCommands.output_section_id());
    assert(order@ =~= seq![OutputSectionId(1), SinglePartSectionId::LoadCommands.id()]);
    let text: SegmentName = SegmentName::text();
    add_sections_in_segment(order, sections, &custom.exec_ids, text);
    let ghost so_far = order@;
    order.push(SinglePartSectionId::PltGot.output_section_id());
    assert(order@ =~= so_far + seq![SinglePartSectionId::PltGot.id()]);
    add_sections_in_segment(order, sections, &custom.ro, text);
    let ghost so_far = order@;
    order.push(SinglePartSectionId::Got.output_section_id());
    assert(order@ =~= so_far + seq![SinglePartSectionId::Got.id()]);
}

fn add_data_sections<'data>(
    order: &mut Vec<OutputSectionId>,
    sections: &OutputSections<'data>,
    custom: &CustomSectionIds,
    segment: SegmentName,
    thread_local: bool,
)
    requires
        custom_exist(sections, custom),
        ids_exist(sections, old(order)@),
    ensures
        final(order)@ == old(order)@ + data_sections(
            sections,
            custom,
            segment.bytes@,
            thread_local,
        ),
        ids_exist(sections, final(order)@),
{
    assert(ids_exist(sections, custom.of(OrphanClass::Exec)));
    assert(ids_exist(sections, custom.of(OrphanClass::Ro)));
    assert(ids_exist(sections, custom.of(OrphanClass::Data)));
    assert(ids_exist(sections, custom.of(OrphanClass::Tdata)));
    assert(ids_exist(sections, custom.of(OrphanClass::Tbss)));
    assert(ids_exist(sections, custom.of(OrphanClass::Bss)));
    add_sections_in_segment(order, sections, &custom.exec_ids, segment);
    add_sections_in_segment(order, sections, &custom.ro, segment);
    add_sections_in_segment(order, sections, &custom.data, segment);
    if thread_local {
        add_sections_in_segment(order, sections, &custom.tdata, segment);
        add_sections_in_segment(order, sections, &custom.tbss, segment);
    }
    add_sections_in_segment(order, sections, &custom.bss, segment);
    assert(order@ =~= old(order)@ + data_sections(
        sections,
        custom,
        segment.bytes@,
        thread_local,
    ));
}

fn list_all_ids<'data>(sections: &OutputSections<'data>) -> (ids: Vec<OutputSectionId>)
    requires
        sections.wf(),
    ensures
        ids@ == all_ids(sections),
        ids_exist(sections, ids@),
{
    let mut ids: Vec<OutputSectionId> = Vec::new();
    let count: usize = sections.num_sections();
    let mut i: usize = 0;
    while i < count
        invariant
            i <= count,
            count == sections.count(),
            sections.wf(),
            ids@.len() == i,
            forall|k: int| 0 <= k < i ==> ids@[k] == OutputSectionId(k as u32),
        decreases count - i,
    {
        assert(sections.platform.base_part(sections.count()) <= u32::MAX);
        ids.push(OutputSectionId(i as u32));
        i = i + 1;
    }
    assert(ids@ =~= all_ids(sections));
    ids
}

fn list_sections<'data>(
    sections: &OutputSections<'data>,
    custom: &CustomSectionIds,
    others: &Vec<SegmentName>,
) -> (order: Vec<OutputSectionId>)
    requires
        sections.wf(),
        sections.count() >= 11,
        custom_exist(sections, custom),
        name_bytes(others@) == other_segments(sections, sections.count()),
    ensures
        order@ == section_list(sections, custom),
        ids_exist(sections, order@),
{
    let mut order: Vec<OutputSectionId> = Vec::new();
    add_text_sections(&mut order, sections, custom);
    add_data_sections(&mut order, sections, custom, SegmentName::data_const(), false);
    add_data_sections(&mut order, sections, custom, SegmentName::data(), true);
    let ghost known = order@;
    let ghost segments = other_segments(sections, sections.count());
    let ids: Vec<OutputSectionId> = list_all_ids(sections);
    let mut i: usize = 0;
    assert(known =~= known + segment_by_segment(sections, segments, 0));
    while i < others.len()
        invariant
            i <= others@.len(),
            ids@ == all_ids(sections),
            ids_exist(sections, ids@),
            ids_exist(sections, order@),
            name_bytes(others@) == segments,
            order@ == known + segment_by_segment(sections, segments, i as int),
        decreases others@.len() - i,
    {
        assert(segments[i as int] == others@[i as int].bytes@);
        add_sections_in_segment(&mut order, sections, &ids, others[i]);
        assert(order@ =~= known + segment_by_segment(sections, segments, i + 1));
        i = i + 1;
    }
    assert(segments.len() == others@.len());
    let ghost before = order@;
    order.push(SinglePartSectionId::Strtab.output_section_id());
    order.push(SinglePartSectionId::ChainedFixupTable.output_section_id());
    order.push(SinglePartSectionId::ExportsTrie.output_section_id());
    order.push(SinglePartSectionId::SymtabGlobal.output_section_id());
    order.push(SinglePartSectionId::CodeSignature.output_section_id());
    assert(order@ =~= before + table_sections());
    order
}

/// What layout knows of segments.
pub open spec fn properties_of(segments: Seq<MachOSegmentDef>) -> Seq<ProgramSegmentDef> {
    Seq::new(segments.len(), |i: int| segments[i].spec_properties())
}

fn collect_properties(segments: &Vec<MachOSegmentDef>) -> (program_segments: ProgramSegments)
    ensures
        program_segments.defs@ == properties_of(segments@),
        segments@.len() <= usize::MAX,
{
    let mut defs: Vec<ProgramSegmentDef> = Vec::new();
    let mut i: usize = 0;
    while i < segments.len()
        invariant
            i <= segments@.len(),
            defs@.len() == i,
            forall|k: int| 0 <= k < i ==> defs@[k] == segments@[k].spec_properties(),
        decreases segments@.len() - i,
    {
        defs.push(segments[i].properties());
        i = i + 1;
    }
    assert(defs@ =~= properties_of(segments@));
    ProgramSegments { defs }
}

/// The order of the sections and segments of a Mach-O file, and the segments.
pub struct MachOOrder<'data> {
    pub order: OutputOrder<'data>,
    pub segments: Vec<MachOSegmentDef>,
    pub program_segments: ProgramSegments,
}

/// Whether an order is the one in which the listed sections are emitted.
pub open spec fn is_order_of<'data>(
    result: &MachOOrder<'data>,
    sections: &OutputSections<'data>,
    secondary: Seq<Vec<OutputSectionId>>,
    ids: Seq<OutputSectionId>,
) -> bool {
    let expected = ordered(segment_names(sections), sections, secondary, ids);
    &&& result.order.events@ == expected.events
    &&& names_of(result.segments@) == expected.segments
}

impl<'data> MachOOrder<'data> {
    /// Whether the segments are what their names say, each of them starts and ends once, none starts
    /// while another one is open, and no linker script has a say in the order: it holds sections
    /// and the bounds of segments only.
    pub open spec fn wf(&self, sections: &OutputSections<'data>) -> bool {
        &&& as_named(self.segments@)
        &&& self.program_segments.defs@ == properties_of(self.segments@)
        &&& self.order.wf(sections, &self.program_segments)
        &&& segment_layout::segments_end_once(self.order.events@, &self.program_segments)
        &&& forall|segment: ProgramSegmentId|
            segment.0 < self.segments@.len() ==> #[trigger] segment_laws::opens_once(
                self.order.events@,
                segment,
            )
        &&& macho_order_laws::in_turn(self.order.events@, self.segments@.len())
        &&& forall|i: int|
            0 <= i < self.order.events@.len() ==> macho_order_laws::is_plain_event(
                #[trigger] self.order.events@[i],
            )
        &&& self.order.num_location_counters == 0
        &&& !self.order.has_custom_phdrs
    }
}

proof fn lemma_result_wf<'data>(
    result: &MachOOrder<'data>,
    sections: &OutputSections<'data>,
    secondary: Seq<Vec<OutputSectionId>>,
    ids: Seq<OutputSectionId>,
)
    requires
        secondary_wf(sections, secondary),
        ids_exist(sections, ids),
        is_order_of(result, sections, secondary, ids),
        as_named(result.segments@),
        result.program_segments.defs@ == properties_of(result.segments@),
        result.segments@.len() <= usize::MAX,
        ids_exist(sections, result.order.script_section_order@),
        result.order.num_location_counters == 0,
        !result.order.has_custom_phdrs,
    ensures
        result.wf(sections),
{
    let names = segment_names(sections);
    let expected = ordered(names, sections, secondary, ids);
    assert(names_of(result.segments@).len() == result.segments@.len());
    macho_order_laws::lemma_segment_names_differ(sections);
    macho_order_laws::lemma_segments_start_and_end(names, sections, secondary, ids);
    assert forall|segment: ProgramSegmentId| segment.0 < result.segments@.len() implies
        #[trigger] segment_laws::opens_once(result.order.events@, segment) by {
        macho_order_laws::lemma_opens_once(expected, names, sections, segment);
    }
    assert forall|k: int| 0 <= k < result.order.events@.len() implies result.order.event_wf(
        #[trigger] result.order.events@[k],
        sections,
        &result.program_segments,
    ) by {
        assert(macho_order_laws::event_exists(
            expected.events[k],
            expected.segments.len(),
            sections,
        ));
    }
    assert forall|k: int| 0 <= k < result.order.events@.len() implies
        macho_order_laws::is_plain_event(#[trigger] result.order.events@[k]) by {
        assert(macho_order_laws::event_exists(
            expected.events[k],
            expected.segments.len(),
            sections,
        ));
    }
}

fn order_sections<'data>(
    segment_defs: Vec<MachOSegmentDef>,
    sections: &OutputSections<'data>,
    secondary: &OutputSectionMap<Vec<OutputSectionId>>,
    ids: &Vec<OutputSectionId>,
) -> (result: (Vec<OrderEvent<'data>>, Vec<MachOSegmentDef>))
    requires
        sections.wf(),
        secondary_wf(sections, secondary@),
        ids_exist(sections, ids@),
        as_named(segment_defs@),
    ensures
        ({
            let expected = ordered(names_of(segment_defs@), sections, secondary@, ids@);
            &&& result.0@ == expected.events
            &&& names_of(result.1@) == expected.segments
        }),
        as_named(result.1@),
{
    let ghost names = names_of(segment_defs@);
    let mut builder: OutputOrderBuilder<'_, 'data> = OutputOrderBuilder::new(
        segment_defs,
        sections,
        secondary,
    );
    let mut i: usize = 0;
    while i < ids.len()
        invariant
            i <= ids@.len(),
            ids_exist(sections, ids@),
            builder.wf(),
            builder.of() == sections,
            builder.merged() == secondary@,
            builder.names() == names,
            builder.so_far() == order_after(names, sections, secondary@, ids@, i as int),
        decreases ids@.len() - i,
    {
        assert(sections.has(ids@[i as int]));
        builder.add_section(ids[i]);
        i = i + 1;
    }
    builder.build()
}

/// Decides the order of the sections and segments of a Mach-O file.
pub fn build_output_order_and_program_segments<'data>(
    custom: &CustomSectionIds,
    sections: &OutputSections<'data>,
    secondary: &OutputSectionMap<Vec<OutputSectionId>>,
) -> (result: MachOOrder<'data>)
    requires
        sections.wf(),
        sections.platform == macho_segments::spec_platform_sections(),
        custom_exist(sections, custom),
        secondary_wf(sections, secondary@),
    ensures
        result.wf(sections),
        is_order_of(&result, sections, secondary@, section_list(sections, custom)),
        ids_exist(sections, section_list(sections, custom)),
        result.order.script_section_order@.len() == 0,
{
    let others: Vec<SegmentName> = find_other_segments(sections);
    let segment_defs: Vec<MachOSegmentDef> = make_segment_defs(sections, &others);
    let ids: Vec<OutputSectionId> = list_sections(sections, custom, &others);
    let (events, segments) = order_sections(segment_defs, sections, secondary, &ids);
    let program_segments: ProgramSegments = collect_properties(&segments);
    let result = MachOOrder {
        order: OutputOrder {
            events,
            script_section_order: Vec::new(),
            num_location_counters: 0,
            has_custom_phdrs: false,
        },
        segments,
        program_segments,
    };
    proof {
        lemma_result_wf(&result, sections, secondary@, ids@);
    }
    result
}

proof fn lemma_secondaries_exist<'data>(
    sections: &OutputSections<'data>,
    primary: int,
    count: int,
)
    requires
        sections.wf(),
        0 <= count <= sections.count(),
    ensures
        ids_exist(sections, section_classes::secondaries(sections, primary, count)),
    decreases count,
{
    if count > 0 {
        assert(sections.platform.base_part(sections.count()) <= u32::MAX);
        lemma_secondaries_exist(sections, primary, count - 1);
    }
}

proof fn lemma_orphans_exist<'data>(
    sections: &OutputSections<'data>,
    has_custom_phdrs: bool,
    excluded: Seq<OutputSectionId>,
    class: OrphanClass,
)
    requires
        sections.wf(),
    ensures
        ids_exist(
            sections,
            section_classes::orphans(
                sections,
                has_custom_phdrs,
                excluded,
                class,
                sections.count(),
            ),
        ),
{
    let ids = section_classes::orphans(
        sections,
        has_custom_phdrs,
        excluded,
        class,
        sections.count(),
    );
    assert forall|i: int| 0 <= i < ids.len() implies sections.has(#[trigger] ids[i]) by {
        assert(ids.contains(ids[i]));
        section_classes::lemma_orphans(
            sections,
            has_custom_phdrs,
            excluded,
            class,
            sections.count(),
            ids[i],
        );
    }
}

/// Whether a map lists the sections that are merged into each section.
pub open spec fn lists_secondaries<'data>(
    sections: &OutputSections<'data>,
    secondary: Seq<Vec<OutputSectionId>>,
) -> bool {
    &&& secondary.len() == sections.count()
    &&& forall|primary: int|
        0 <= primary < secondary.len() ==> (#[trigger] secondary[primary])@
            == section_classes::secondaries(sections, primary, sections.count())
}

/// Whether sections that no rule places are sorted by kind.
pub open spec fn lists_orphans<'data>(
    sections: &OutputSections<'data>,
    custom: &CustomSectionIds,
    has_custom_phdrs: bool,
) -> bool {
    forall|class: OrphanClass| #[trigger]
        custom.of(class) == section_classes::orphans(
            sections,
            has_custom_phdrs,
            Seq::empty(),
            class,
            sections.count(),
        )
}

/// Decides the order in which the sections of all inputs are emitted. `scripts` lists the sections
/// that each linker script describes.
pub fn output_order<'data>(
    sections: &OutputSections<'data>,
    scripts: &Vec<Vec<OutputSectionId>>,
    has_custom_phdrs: bool,
) -> (result: MachOOrder<'data>)
    requires
        sections.wf(),
        sections.platform == macho_segments::spec_platform_sections(),
        section_classes::scripts_exist(sections, scripts@),
    ensures
        result.wf(sections),
        exists|secondary: Seq<Vec<OutputSectionId>>, custom: CustomSectionIds|
            lists_secondaries(sections, secondary) && lists_orphans(
                sections,
                &custom,
                has_custom_phdrs,
            ) && #[trigger] is_order_of(
                &result,
                sections,
                secondary,
                section_list(sections, &custom),
            ),
        emission_laws::has_built_ins(sections) && !has_custom_phdrs ==> layout_laws::emits_once(
            result.order.events@,
        ),
        result.order.script_section_order@ == section_classes::script_order(
            sections,
            scripts@,
            scripts@.len() as int,
        ),
{
    let excluded: Vec<OutputSectionId> = Vec::new();
    let custom: CustomSectionIds = classify_sections(
        sections,
        has_custom_phdrs,
        scripts.len() > 0,
        &excluded,
    );
    let secondary: OutputSectionMap<Vec<OutputSectionId>> = secondary_sections(sections);
    proof {
        assert(excluded@ =~= Seq::empty());
        assert(lists_orphans(sections, &custom, has_custom_phdrs));
        assert(lists_secondaries(sections, secondary@));
        assert forall|class: OrphanClass| ids_exist(sections, #[trigger] custom.of(class)) by {
            lemma_orphans_exist(sections, has_custom_phdrs, excluded@, class);
        }
        assert forall|i: int, k: int|
            0 <= i < secondary@.len() && 0 <= k < secondary@[i]@.len() implies sections.has(
            #[trigger] secondary@[i]@[k],
        ) by {
            lemma_secondaries_exist(sections, i, sections.count());
        }
    }
    let mut result: MachOOrder<'data> = build_output_order_and_program_segments(
        &custom,
        sections,
        &secondary,
    );
    result.order.script_section_order = script_section_order(sections, scripts);
    proof {
        section_classes::lemma_script_order_exists(sections, scripts@, scripts@.len() as int);
    }
    assert(is_order_of(&result, sections, secondary@, section_list(sections, &custom)));
    proof {
        if emission_laws::has_built_ins(sections) && !has_custom_phdrs {
            emission_laws::lemma_sections_emitted_once(sections, &custom, secondary@);
        }
    }
    result
}

} // verus!
