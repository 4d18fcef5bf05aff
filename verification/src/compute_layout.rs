//! The sizes and positions of all output sections and their parts.
use crate::hash_maps::IdMap;
use crate::input_order::input_order_max_align;
use crate::layout_sections;
use crate::layout_state::{
    LayoutContext, LayoutError, LayoutState, LayoutView, ResolvedLocationCounter,
};
use crate::memory_regions::{MemoryRegion, MemoryRegions};
use crate::output_order::{OrderEvent, OutputOrder};
use crate::output_section_id::{OutputSectionId, PartId};
use crate::output_section_map::{DefaultValue, OutputSectionMap};
use crate::output_section_part_map::OutputSectionPartMap;
use crate::output_sections::OutputSections;
use crate::program_segments::ProgramSegments;
use crate::record_layout::OutputRecordLayout;
use crate::segment_alignments::compute_segment_alignments;
use vstd::prelude::*;

verus! {

/// Where everything goes.
pub struct SectionLayouts {
    pub part_layouts: OutputSectionPartMap<OutputRecordLayout>,
    pub section_layouts: OutputSectionMap<OutputRecordLayout>,
    pub resolved_location_counters: Vec<ResolvedLocationCounter>,
    /// The memory regions, with what is used of them.
    pub regions: MemoryRegions,
}

/// Whether a section is in the output order.
pub open spec fn in_order(events: Seq<OrderEvent>, id: u32) -> bool {
    exists|i: int|
        0 <= i < events.len() && crate::output_order::emitted_section(#[trigger] events[i])
            == Some(OutputSectionId(id))
}

/// The last of the first `count` parts that has contents though its section is not in the output
/// order.
pub open spec fn last_unlisted<'data>(
    entries: Seq<(PartId, u64)>,
    count: int,
    events: Seq<OrderEvent<'data>>,
    sections: &OutputSections<'data>,
) -> Option<OutputSectionId>
    decreases count,
{
    if count <= 0 {
        None
    } else {
        let id = sections.platform.section_of(entries[count - 1].0.0 as int) as u32;
        if entries[count - 1].1 > 0 && !in_order(events, id) {
            Some(OutputSectionId(id))
        } else {
            last_unlisted(entries, count - 1, events, sections)
        }
    }
}

fn sections_in_order<'data>(
    order: &OutputOrder<'data>,
    sections: &OutputSections<'data>,
    segments: &ProgramSegments,
) -> (emitted: OutputSectionMap<bool>)
    requires
        order.wf(sections, segments),
        sections.wf(),
    ensures
        emitted@.len() == sections.count(),
        forall|id: u32|
            #![trigger emitted@[id as int]]
            id < sections.count() ==> emitted@[id as int] == in_order(order.events@, id),
{
    let mut emitted: OutputSectionMap<bool> = sections.new_section_map();
    let mut i: usize = 0;
    while i < order.events.len()
        invariant
            i <= order.events@.len(),
            order.wf(sections, segments),
            emitted@.len() == sections.count(),
            forall|id: u32|
                #![trigger emitted@[id as int]]
                id < sections.count() ==> emitted@[id as int] == in_order(
                    order.events@.take(i as int),
                    id,
                ),
        decreases order.events@.len() - i,
    {
        let ghost now = order.events@.take(i as int);
        let ghost next = order.events@.take(i + 1);
        let ghost before = emitted@;
        let event: OrderEvent<'data> = order.events[i];
        assert(order.event_wf(event, sections, segments));
        if let OrderEvent::Section(id) = event {
            emitted.set(id, true);
        }
        proof {
            assert(next =~= now.push(event));
            assert forall|id: u32| in_order(next, id) == (in_order(now, id)
                || crate::output_order::emitted_section(event) == Some(OutputSectionId(id))) by {
                if in_order(now, id) {
                    let k = choose|k: int|
                        0 <= k < now.len() && crate::output_order::emitted_section(
                            #[trigger] now[k],
                        ) == Some(OutputSectionId(id));
                    assert(next[k] == now[k]);
                }
                if crate::output_order::emitted_section(event) == Some(OutputSectionId(id)) {
                    assert(next[i as int] == event);
                }
                if in_order(next, id) {
                    let k = choose|k: int|
                        0 <= k < next.len() && crate::output_order::emitted_section(
                            #[trigger] next[k],
                        ) == Some(OutputSectionId(id));
                    if k < i {
                        assert(now[k] == next[k]);
                    }
                }
            }
            assert forall|id: u32|
                #![trigger emitted@[id as int]]
                id < sections.count() implies emitted@[id as int] == in_order(next, id) by {
                assert(before[id as int] == in_order(now, id));
            }
        }
        i = i + 1;
    }
    assert(order.events@.take(i as int) =~= order.events@);
    emitted
}

/// Makes sure that every section with contents is in the output order. Reports the last one that
/// is not.
pub fn validate_all_non_empty_sections_emitted<'data>(
    sizes: &OutputSectionPartMap<u64>,
    sections: &OutputSections<'data>,
    order: &OutputOrder<'data>,
    segments: &ProgramSegments,
) -> (result: Result<(), OutputSectionId>)
    requires
        sizes.wf(),
        sections.wf(),
        order.wf(sections, segments),
        forall|id: u32| #[trigger]
            sizes@.contains_key(id) ==> sections.platform.section_of(id as int) < sections.count(),
    ensures
        forall|entries: Seq<(PartId, u64)>| #[trigger]
            crate::output_section_part_map::lists(entries, sizes@, 0, u32::MAX + 1) ==> result == (
            match last_unlisted(entries, entries.len() as int, order.events@, sections) {
                Some(id) => Err::<(), _>(id),
                None => Ok(()),
            }),
        result is Ok <==> forall|id: u32|
            sizes@.contains_key(id) && #[trigger] sizes@[id] > 0 ==> in_order(
                order.events@,
                sections.platform.section_of(id as int) as u32,
            ),
{
    let emitted: OutputSectionMap<bool> = sections_in_order(order, sections, segments);
    let entries: Vec<(PartId, u64)> = sizes.iter();
    let mut error: Option<OutputSectionId> = None;
    let mut i: usize = 0;
    while i < entries.len()
        invariant
            i <= entries@.len(),
            crate::output_section_part_map::lists(entries@, sizes@, 0, u32::MAX + 1),
            forall|id: u32| #[trigger]
                sizes@.contains_key(id) ==> sections.platform.section_of(id as int)
                    < sections.count(),
            sections.wf(),
            emitted@.len() == sections.count(),
            forall|id: u32|
                #![trigger emitted@[id as int]]
                id < sections.count() ==> emitted@[id as int] == in_order(order.events@, id),
            error == last_unlisted(entries@, i as int, order.events@, sections),
            error is None ==> forall|k: int|
                0 <= k < i && (#[trigger] entries@[k]).1 > 0 ==> in_order(
                    order.events@,
                    sections.platform.section_of(entries@[k].0.0 as int) as u32,
                ),
            error is Some ==> exists|k: int|
                0 <= k < i && (#[trigger] entries@[k]).1 > 0 && !in_order(
                    order.events@,
                    sections.platform.section_of(entries@[k].0.0 as int) as u32,
                ),
        decreases entries@.len() - i,
    {
        let (part_id, size) = entries[i];
        assert(sizes@.contains_key(part_id.0));
        if size > 0 {
            let id: OutputSectionId = part_id.output_section_id(&sections.platform);
            if !*emitted.get(id) {
                error = Some(id);
            }
        }
        i = i + 1;
    }
    proof {
        assert forall|other: Seq<(PartId, u64)>| #[trigger]
            crate::output_section_part_map::lists(other, sizes@, 0, u32::MAX + 1) implies other
            == entries@ by {
            crate::output_section_part_map::lemma_lists_unique(
                other,
                entries@,
                sizes@,
                0,
                u32::MAX + 1,
            );
        }
        if error is None {
            assert forall|id: u32| sizes@.contains_key(id) && #[trigger] sizes@[id] > 0 implies in_order(
                order.events@,
                sections.platform.section_of(id as int) as u32,
            ) by {
                assert(crate::output_section_part_map::has_entry(entries@, id));
                let k = choose|k: int|
                    0 <= k < entries@.len() && (#[trigger] entries@[k]).0.0 == id;
                assert(entries@[k].1 == sizes@[id]);
            }
        } else {
            let k = choose|k: int|
                0 <= k < entries@.len() && (#[trigger] entries@[k]).1 > 0 && !in_order(
                    order.events@,
                    sections.platform.section_of(entries@[k].0.0 as int) as u32,
                );
            assert(sizes@.contains_key(entries@[k].0.0) && sizes@[entries@[k].0.0] > 0);
        }
    }
    match error {
        Some(id) => Err(id),
        None => Ok(()),
    }
}

/// The state before anything has been laid out. Memory starts at `base`.
pub open spec fn initial_state<'a, 'data>(
    ctx: &LayoutContext<'a, 'data>,
    regions: Map<Seq<u8>, MemoryRegion>,
    base: u64,
) -> LayoutView {
    let part_count = ctx.sections.platform.built_in_part_count();
    let section_count = ctx.sections.count() as nat;
    LayoutView {
        file_offset: 0,
        mem_offset: base,
        lma_offset: base,
        pending_location: None,
        resolved_lc: Seq::new(
            ctx.order.num_location_counters as nat,
            |i: int|
                ResolvedLocationCounter {
                    value: if i == 0 {
                        base
                    } else {
                        0
                    },
                    section_offset: None,
                },
        ),
        tls_memsave: None,
        load_segment_depth: 0,
        pad_file_at_next_load: false,
        load_origins: Seq::empty(),
        overlay_vma: Map::empty(),
        overlay_lma_end: Map::empty(),
        overlay_max_size: Map::empty(),
        regions,
        part_offsets: Map::new(|id: u32| id < part_count, |id: u32| None::<u64>),
        records: Map::new(
            |id: u32| id < part_count,
            |id: u32| OutputRecordLayout::spec_default(),
        ),
        section_layouts: Seq::new(section_count, |i: int| OutputRecordLayout::spec_default()),
        nonalloc_mem_offsets: Seq::new(section_count, |i: int| 0u64),
        reloc_alloc_mem_offsets: Seq::new(section_count, |i: int| 0u64),
    }
}

/// The state after everything has been laid out: memory starts at the base address, and the
/// events of the output order follow each other.
pub open spec fn laid_out<'a, 'data>(
    ctx: &LayoutContext<'a, 'data>,
    regions: Map<Seq<u8>, MemoryRegion>,
) -> Result<LayoutView, LayoutError<'data>> {
    match LayoutState::evaluated(
        initial_state(ctx, regions, 0),
        ctx,
        ctx.sections.base_address,
        None,
        0,
    ) {
        Err(error) => Err(error),
        Ok(base) => layout_sections::events_step(
            initial_state(ctx, regions, base),
            ctx,
            ctx.order.events@.len() as int,
        ),
    }
}

fn new_state<'a, 'data>(ctx: &LayoutContext<'a, 'data>, regions: MemoryRegions) -> (state:
    LayoutState)
    requires
        ctx.wf(),
        regions.wf(),
    ensures
        state.wf(ctx),
        state.view() == initial_state(ctx, regions@, 0),
{
    let mut resolved_lc: Vec<ResolvedLocationCounter> = Vec::new();
    while resolved_lc.len() < ctx.order.num_location_counters
        invariant
            resolved_lc@.len() <= ctx.order.num_location_counters,
            forall|i: int|
                0 <= i < resolved_lc@.len() ==> (#[trigger] resolved_lc@[i]) == (
                ResolvedLocationCounter { value: 0, section_offset: None }),
        decreases ctx.order.num_location_counters - resolved_lc@.len(),
    {
        resolved_lc.push(ResolvedLocationCounter { value: 0, section_offset: None });
    }
    let segment_alignments: IdMap = compute_segment_alignments(
        ctx.sizes,
        ctx.segments,
        ctx.order,
        ctx.args.loadable_segment_alignment,
        ctx.sections,
    );
    let input_alignments: IdMap = input_order_max_align(ctx.input_order, ctx.sections);
    let state = LayoutState {
        file_offset: 0,
        mem_offset: 0,
        lma_offset: 0,
        pending_location: None,
        resolved_lc,
        tls_memsave: None,
        load_segment_depth: 0,
        pad_file_at_next_load: false,
        load_origins: Vec::new(),
        overlay_vma: IdMap::new(),
        overlay_lma_end: IdMap::new(),
        overlay_max_size: IdMap::new(),
        regions,
        part_offsets: ctx.sections.new_part_map(),
        records: ctx.sections.new_part_map(),
        section_layouts: ctx.sections.new_section_map(),
        nonalloc_mem_offsets: ctx.sections.new_section_map(),
        reloc_alloc_mem_offsets: ctx.sections.new_section_map(),
        segment_alignments,
        input_alignments,
    };
    proof {
        let expected = initial_state(ctx, regions@, 0);
        assert(state.view().resolved_lc =~= expected.resolved_lc);
        assert(state.view().part_offsets =~= expected.part_offsets);
        assert(state.view().records =~= expected.records);
        assert(state.view().section_layouts =~= expected.section_layouts);
        assert(state.view().nonalloc_mem_offsets =~= expected.nonalloc_mem_offsets);
        assert(state.view().reloc_alloc_mem_offsets =~= expected.reloc_alloc_mem_offsets);
        assert(state.view().load_origins =~= expected.load_origins);
    }
    state
}

/// Computes the sizes and positions of all sections and their parts.
pub fn compute_layout_sections<'a, 'data>(
    ctx: &LayoutContext<'a, 'data>,
    regions: MemoryRegions,
) -> (result: Result<SectionLayouts, LayoutError<'data>>)
    requires
        ctx.wf(),
        regions.wf(),
    ensures
        match result {
            Ok(layouts) => {
                &&& laid_out(ctx, regions@) matches Ok(s)
                &&& layouts.part_layouts@ == s.records
                &&& layouts.section_layouts@ == s.section_layouts
                &&& layouts.resolved_location_counters@ == s.resolved_lc
                &&& layouts.regions@ == s.regions
                &&& layouts.part_layouts.wf()
                &&& layouts.part_layouts.dense() == ctx.sections.platform.built_in_part_count()
                &&& layouts.section_layouts@.len() == ctx.sections.count()
                &&& layouts.regions.wf()
            },
            Err(error) => match laid_out(ctx, regions@) {
                Err(expected) => error == expected,
                Ok(_) => ctx.args.check_output_order && error is NotInOutputOrder,
            },
        },
        laid_out(ctx, regions@) is Ok ==> (result is Err <==> ctx.args.check_output_order && exists|
            id: u32,
        |
            ctx.sizes@.contains_key(id) && #[trigger] ctx.sizes@[id] > 0 && !in_order(
                ctx.order.events@,
                ctx.sections.platform.section_of(id as int) as u32,
            )),
        laid_out(ctx, regions@) is Ok && ctx.args.check_output_order ==> forall|
            entries: Seq<(PartId, u64)>,
        | #[trigger]
            crate::output_section_part_map::lists(entries, ctx.sizes@, 0, u32::MAX + 1) ==> (
            match last_unlisted(entries, entries.len() as int, ctx.order.events@, ctx.sections) {
                Some(id) => result == Err::<SectionLayouts, _>(LayoutError::NotInOutputOrder(id)),
                None => result is Ok,
            }),
{
    let mut state: LayoutState = new_state(ctx, regions);
    let base: u64 = match state.evaluate(ctx, &ctx.sections.base_address, None, 0) {
        Ok(base) => base,
        Err(error) => {
            return Err(error);
        },
    };
    state.mem_offset = base;
    state.lma_offset = base;
    if state.resolved_lc.len() > 0 {
        state.resolved_lc.set(0, ResolvedLocationCounter { value: base, section_offset: None });
    }
    assert(state.view().resolved_lc =~= initial_state(ctx, regions@, base).resolved_lc);
    assert(state.view() == initial_state(ctx, regions@, base));
    match state.do_events(ctx) {
        Ok(_) => {},
        Err(error) => {
            return Err(error);
        },
    }
    if ctx.args.check_output_order {
        match validate_all_non_empty_sections_emitted(
            ctx.sizes,
            ctx.sections,
            ctx.order,
            ctx.segments,
        ) {
            Ok(_) => {},
            Err(id) => {
                return Err(LayoutError::NotInOutputOrder(id));
            },
        }
    }
    Ok(
        SectionLayouts {
            part_layouts: state.records,
            section_layouts: state.section_layouts,
            resolved_location_counters: state.resolved_lc,
            regions: state.regions,
        },
    )
}

} // verus!
