//! The state of the layout of sections: what has been laid out, and where the next section goes.
use crate::alignment::Alignment;
use crate::expression::{Expression, SymbolLoc};
use crate::expression_eval::{EnvView, EvalEnv, EvalError, SymbolTable};
use crate::hash_maps::IdMap;
use crate::input_order::InputOrderSizes;
use crate::memory_regions::{MemoryRegion, MemoryRegions};
use crate::output_order::{collect_sections_from, OrderEvent, OutputOrder};
use crate::output_section_id::{OutputSectionId, PartId};
use crate::output_section_map::OutputSectionMap;
use crate::output_section_part_map::OutputSectionPartMap;
use crate::output_sections::OutputSections;
use crate::program_segments::ProgramSegments;
use crate::record_layout::OutputRecordLayout;
use vstd::prelude::*;

verus! {

/// The value of a location counter.
#[derive(Clone, Copy, Debug, PartialEq, Eq, Structural)]
pub struct ResolvedLocationCounter {
    pub value: u64,
    /// The offset in the section, for a counter inside of one.
    pub section_offset: Option<u64>,
}

/// Why sections cannot be laid out.
#[derive(Clone, Copy, Debug)]
pub enum LayoutError<'data> {
    Expression(EvalError<'data>),
    RegionNotDeclared(&'data [u8]),
    AddressNotInRegion { section: OutputSectionId, address: u64, region: &'data [u8] },
    RegionOverflowed { region: &'data [u8], bytes: u64 },
    /// A section has contents but is not in the output order.
    NotInOutputOrder(OutputSectionId),
    /// An address or an offset is not a 64-bit number.
    Overflow,
}

/// What the arguments say about the layout.
#[derive(Clone, Copy, Debug, PartialEq, Eq, Structural)]
pub struct LayoutArgs {
    pub loadable_segment_alignment: Alignment,
    pub should_output_partial_object: bool,
    /// Make sure that every section with contents is in the output order.
    pub check_output_order: bool,
}

/// What the layout of sections depends on.
pub struct LayoutContext<'a, 'data> {
    pub sizes: &'a OutputSectionPartMap<u64>,
    pub sections: &'a OutputSections<'data>,
    pub segments: &'a ProgramSegments,
    pub order: &'a OutputOrder<'data>,
    pub region_order: &'a Vec<&'data [u8]>,
    pub symbols: &'a SymbolTable,
    pub sizeof_headers: u64,
    pub input_order: &'a InputOrderSizes,
    pub args: LayoutArgs,
}

/// How far the layout of sections has come.
pub struct LayoutState {
    pub file_offset: u64,
    pub mem_offset: u64,
    pub lma_offset: u64,
    /// Where the next section goes, if a linker script has said so.
    pub pending_location: Option<u64>,
    pub resolved_lc: Vec<ResolvedLocationCounter>,
    /// Where to go back to after sections that take up thread-local address space only.
    pub tls_memsave: Option<u64>,
    pub load_segment_depth: u32,
    pub pad_file_at_next_load: bool,
    /// The memory, load and file offsets at which the current loaded segments started.
    pub load_origins: Vec<(u64, u64, u64)>,
    pub overlay_vma: IdMap,
    pub overlay_lma_end: IdMap,
    pub overlay_max_size: IdMap,
    pub regions: MemoryRegions,
    /// The addresses of the parts that have been laid out.
    pub part_offsets: OutputSectionPartMap<Option<u64>>,
    pub records: OutputSectionPartMap<OutputRecordLayout>,
    pub section_layouts: OutputSectionMap<OutputRecordLayout>,
    pub nonalloc_mem_offsets: OutputSectionMap<u64>,
    pub reloc_alloc_mem_offsets: OutputSectionMap<u64>,
    /// The exponents of the alignments of the segments that are loaded.
    pub segment_alignments: IdMap,
    /// For each section, the exponent of the largest alignment of its inputs.
    pub input_alignments: IdMap,
}

/// How far the layout of sections has come, as mathematical objects.
pub struct LayoutView {
    pub file_offset: u64,
    pub mem_offset: u64,
    pub lma_offset: u64,
    pub pending_location: Option<u64>,
    pub resolved_lc: Seq<ResolvedLocationCounter>,
    pub tls_memsave: Option<u64>,
    pub load_segment_depth: u32,
    pub pad_file_at_next_load: bool,
    pub load_origins: Seq<(u64, u64, u64)>,
    pub overlay_vma: Map<u64, u64>,
    pub overlay_lma_end: Map<u64, u64>,
    pub overlay_max_size: Map<u64, u64>,
    pub regions: Map<Seq<u8>, MemoryRegion>,
    pub part_offsets: Map<u32, Option<u64>>,
    pub records: Map<u32, OutputRecordLayout>,
    pub section_layouts: Seq<OutputRecordLayout>,
    pub nonalloc_mem_offsets: Seq<u64>,
    pub reloc_alloc_mem_offsets: Seq<u64>,
}

/// The sum of two numbers, if it is a 64-bit number.
pub open spec fn plus(a: u64, b: u64) -> Option<u64> {
    if a + b <= u64::MAX {
        Some((a + b) as u64)
    } else {
        None
    }
}

/// An offset rounded up to an alignment, if it is a 64-bit number.
pub open spec fn up(alignment: Alignment, offset: u64) -> Option<u64> {
    if crate::alignment::round_up(offset as int, alignment.bytes()) <= u64::MAX {
        Some(crate::alignment::round_up(offset as int, alignment.bytes()) as u64)
    } else {
        None
    }
}

/// The value of a key.
pub open spec fn lookup(map: Map<u64, u64>, key: u64) -> Option<u64> {
    if map.contains_key(key) {
        Some(map[key])
    } else {
        None
    }
}

/// The sum of the values of entries, if it is a 64-bit number.
pub open spec fn total_size(entries: Seq<(PartId, u64)>) -> Option<u64>
    decreases entries.len(),
{
    if entries.len() == 0 {
        Some(0)
    } else {
        match total_size(entries.drop_last()) {
            None => None,
            Some(before) => plus(before, entries.last().1),
        }
    }
}

proof fn lemma_total_size_none(entries: Seq<(PartId, u64)>, i: int)
    requires
        0 <= i <= entries.len(),
        total_size(entries.take(i)) is None,
    ensures
        total_size(entries) is None,
    decreases entries.len() - i,
{
    if i < entries.len() {
        assert(entries.take(i + 1).drop_last() =~= entries.take(i));
        lemma_total_size_none(entries, i + 1);
    } else {
        assert(entries.take(i) =~= entries);
    }
}

/// The sum of the values of entries, if it is a 64-bit number.
pub fn sum_sizes(entries: &Vec<(PartId, u64)>) -> (sum: Option<u64>)
    ensures
        sum == total_size(entries@),
{
    let mut sum: u64 = 0;
    let mut i: usize = 0;
    while i < entries.len()
        invariant
            i <= entries@.len(),
            total_size(entries@.take(i as int)) == Some(sum),
        decreases entries@.len() - i,
    {
        proof {
            assert(entries@.take(i + 1).drop_last() =~= entries@.take(i as int));
            assert(entries@.take(i + 1).last() == entries@[i as int]);
        }
        match sum.checked_add(entries[i].1) {
            Some(next) => {
                sum = next;
            },
            None => {
                proof {
                    lemma_total_size_none(entries@, i + 1);
                }
                return None;
            },
        }
        i = i + 1;
    }
    assert(entries@.take(i as int) =~= entries@);
    Some(sum)
}

/// The first position, from a position on, at which an ID stands, or the length if it does not.
pub open spec fn position_of(ids: Seq<OutputSectionId>, id: OutputSectionId, from: int) -> int
    decreases ids.len() - from,
{
    if from < 0 || from >= ids.len() {
        ids.len() as int
    } else if ids[from] == id {
        from
    } else {
        position_of(ids, id, from + 1)
    }
}

fn find_position(ids: &Vec<OutputSectionId>, id: OutputSectionId) -> (position: usize)
    ensures
        position == position_of(ids@, id, 0),
        position <= ids@.len(),
{
    let mut i: usize = 0;
    while i < ids.len()
        invariant
            i <= ids@.len(),
            position_of(ids@, id, 0) == position_of(ids@, id, i as int),
        decreases ids@.len() - i,
    {
        if ids[i].0 == id.0 {
            return i;
        }
        i = i + 1;
    }
    i
}

impl<'a, 'data> LayoutContext<'a, 'data> {
    pub open spec fn wf(&self) -> bool {
        &&& self.sizes.wf()
        &&& self.sections.wf()
        &&& self.sizes.dense() == self.sections.platform.built_in_part_count()
        &&& self.order.wf(self.sections, self.segments)
        &&& self.symbols.wf()
        &&& self.input_order.wf()
        &&& forall|id: u32| #[trigger]
            self.sizes@.contains_key(id) ==> self.sections.platform.section_of(id as int)
                < self.sections.count()
        &&& forall|i: int|
            0 <= i < self.input_order.parts@.len() ==> self.sections.platform.section_of(
                (#[trigger] self.input_order.parts@[i]).part_id.0 as int,
            ) < self.sections.count()
    }

    /// The exponents of the alignments of the segments that are loaded.
    pub open spec fn segment_exponents(&self) -> Map<u64, u64> {
        crate::segment_alignments::alignments_before(
            self.sizes,
            self.segments,
            self.order.events@,
            self.args.loadable_segment_alignment,
            self.sections,
            self.order.events@.len() as int,
        ).0
    }

    /// For each section, the exponent of the largest alignment of the inputs that are placed in
    /// the order of the command line.
    pub open spec fn input_exponents(&self) -> Map<u64, u64> {
        crate::input_order::largest_exponents(
            self.input_order.parts@,
            self.input_order.parts@.len() as int,
            self.sections,
        )
    }

    /// Whether a map holds the alignments of the inputs.
    pub open spec fn has_input_alignments(&self, alignments: &IdMap) -> bool {
        &&& alignments@ == self.input_exponents()
        &&& forall|id: u64| #[trigger] alignments@.contains_key(id) ==> alignments@[id] <= 16
    }

    /// Whether a map holds the alignments of the segments.
    pub open spec fn has_segment_alignments(&self, alignments: &IdMap) -> bool {
        &&& alignments@ == self.segment_exponents()
        &&& forall|id: u64| #[trigger] alignments@.contains_key(id) ==> alignments@[id] <= 16
    }

    /// The sections among which the next allocated one is looked for: those that the linker
    /// scripts list from the next emitted section on, or those that are emitted next if there is
    /// no linker script.
    pub open spec fn sections_to_scan(&self, from: int) -> Seq<OutputSectionId> {
        let script = self.order.script_section_order@;
        let emitted = crate::output_order::sections_from(self.order.events@, from);
        if script.len() == 0 {
            emitted
        } else if emitted.len() == 0 {
            Seq::empty()
        } else {
            script.skip(position_of(script, emitted[0], 0))
        }
    }

    /// The alignment and the size of a section. `None` if the size is not a 64-bit number.
    pub open spec fn section_metrics(&self, id: OutputSectionId) -> Option<(u64, u64)> {
        let own = self.sizes.max_exponent(id, self.sections);
        let exponent = match lookup(self.input_exponents(), id.0 as u64) {
            Some(inputs) if inputs > own => inputs as nat,
            _ => own,
        };
        match total_size(self.sizes.entries_in(self.sections.parts_of(id))) {
            None => None,
            Some(size) => Some((vstd::arithmetic::power2::pow2(exponent) as u64, size)),
        }
    }

    /// The alignment and the size of the first section in a list that has a size. Secondary
    /// sections count as the one that they are merged into.
    pub open spec fn first_allocated(&self, ids: Seq<OutputSectionId>, from: int) -> Option<
        (u64, u64),
    >
        decreases ids.len() - from,
    {
        if from < 0 || from >= ids.len() {
            Some((0, 0))
        } else {
            match self.section_metrics(self.sections.primary(ids[from])) {
                None => None,
                Some((align, size)) => if size == 0 {
                    self.first_allocated(ids, from + 1)
                } else {
                    Some((align, size))
                },
            }
        }
    }

    /// `ALIGNOF(NEXT_SECTION)` and `SIZEOF(NEXT_SECTION)`: those of the next section that has a
    /// size, or zero if there is none. `None` if a size is not a 64-bit number.
    pub open spec fn next_section_metrics(&self, from: int) -> Option<(u64, u64)> {
        self.first_allocated(self.sections_to_scan(from), 0)
    }

    fn list_sections_to_scan(&self, from: usize) -> (ids: Vec<OutputSectionId>)
        requires
            self.wf(),
            from <= self.order.events@.len(),
        ensures
            ids@ == self.sections_to_scan(from as int),
            forall|i: int| 0 <= i < ids@.len() ==> self.sections.has(#[trigger] ids@[i]),
    {
        let emitted: Vec<OutputSectionId> = collect_sections_from(&self.order.events, from);
        proof {
            lemma_emitted_exist(self.order, self.sections, self.segments, from as int);
        }
        let script: &Vec<OutputSectionId> = &self.order.script_section_order;
        if script.len() == 0 {
            return emitted;
        }
        let mut ids: Vec<OutputSectionId> = Vec::new();
        if emitted.len() == 0 {
            return ids;
        }
        let start: usize = find_position(script, emitted[0]);
        let mut i: usize = start;
        while i < script.len()
            invariant
                start <= i <= script@.len(),
                ids@ == script@.subrange(start as int, i as int),
            decreases script@.len() - i,
        {
            ids.push(script[i]);
            i = i + 1;
        }
        assert(ids@ =~= script@.skip(start as int));
        ids
    }

    fn metrics_of(&self, id: OutputSectionId, input_alignments: &IdMap) -> (metrics: Option<
        (u64, u64),
    >)
        requires
            self.wf(),
            self.has_input_alignments(input_alignments),
            self.sections.has(id),
        ensures
            metrics == self.section_metrics(id),
    {
        proof {
            self.sections.lemma_one_kind(self.sizes, id);
        }
        let entries: Vec<(PartId, u64)> = self.sizes.in_range(self.sections.part_range(id));
        let mut align: Alignment = self.sizes.max_alignment(id, self.sections);
        match input_alignments.get(id.0 as u64) {
            Some(exponent) => {
                align = align.max(Alignment::from_exponent(exponent as u8));
            },
            None => {},
        }
        match sum_sizes(&entries) {
            None => None,
            Some(size) => Some((align.value(), size)),
        }
    }

    /// The alignment and the size of the next section, in the order of the script, that has a
    /// size, or zeros if there is none. `None` if a size is not a 64-bit number.
    pub fn next_allocated_section_metrics(
        &self,
        from: usize,
        input_alignments: &IdMap,
    ) -> (metrics: Option<(u64, u64)>)
        requires
            self.wf(),
            self.has_input_alignments(input_alignments),
            from <= self.order.events@.len(),
        ensures
            metrics == self.next_section_metrics(from as int),
    {
        let ids: Vec<OutputSectionId> = self.list_sections_to_scan(from);
        let mut i: usize = 0;
        while i < ids.len()
            invariant
                i <= ids@.len(),
                ids@ == self.sections_to_scan(from as int),
                self.wf(),
                self.has_input_alignments(input_alignments),
                forall|i: int| 0 <= i < ids@.len() ==> self.sections.has(#[trigger] ids@[i]),
                self.first_allocated(ids@, 0) == self.first_allocated(ids@, i as int),
            decreases ids@.len() - i,
        {
            let id: OutputSectionId = self.sections.primary_output_section(ids[i]);
            proof {
                self.sections.lemma_primary(ids@[i as int]);
            }
            match self.metrics_of(id, input_alignments) {
                None => {
                    return None;
                },
                Some((align, size)) => {
                    if size != 0 {
                        return Some((align, size));
                    }
                },
            }
            i = i + 1;
        }
        Some((0, 0))
    }
}

proof fn lemma_emitted_exist<'data>(
    order: &OutputOrder<'data>,
    sections: &OutputSections<'data>,
    segments: &ProgramSegments,
    from: int,
)
    requires
        order.wf(sections, segments),
        0 <= from,
    ensures
        forall|i: int|
            0 <= i < crate::output_order::sections_from(order.events@, from).len()
                ==> sections.has(
                #[trigger] crate::output_order::sections_from(order.events@, from)[i],
            ),
    decreases order.events@.len() - from,
{
    if from < order.events@.len() {
        lemma_emitted_exist(order, sections, segments, from + 1);
        assert(order.event_wf(order.events@[from], sections, segments));
        let rest = crate::output_order::sections_from(order.events@, from + 1);
        if let OrderEvent::Section(id) = order.events@[from] {
            assert forall|i: int| 0 <= i < rest.len() + 1 implies sections.has(
                #[trigger] (seq![id] + rest)[i],
            ) by {
                if i > 0 {
                    assert((seq![id] + rest)[i] == rest[i - 1]);
                }
            }
        }
    }
}

impl LayoutState {
    pub open spec fn view(&self) -> LayoutView {
        LayoutView {
            file_offset: self.file_offset,
            mem_offset: self.mem_offset,
            lma_offset: self.lma_offset,
            pending_location: self.pending_location,
            resolved_lc: self.resolved_lc@,
            tls_memsave: self.tls_memsave,
            load_segment_depth: self.load_segment_depth,
            pad_file_at_next_load: self.pad_file_at_next_load,
            load_origins: self.load_origins@,
            overlay_vma: self.overlay_vma@,
            overlay_lma_end: self.overlay_lma_end@,
            overlay_max_size: self.overlay_max_size@,
            regions: self.regions@,
            part_offsets: self.part_offsets@,
            records: self.records@,
            section_layouts: self.section_layouts@,
            nonalloc_mem_offsets: self.nonalloc_mem_offsets@,
            reloc_alloc_mem_offsets: self.reloc_alloc_mem_offsets@,
        }
    }

    pub open spec fn wf<'a, 'data>(&self, ctx: &LayoutContext<'a, 'data>) -> bool {
        &&& self.resolved_lc@.len() == ctx.order.num_location_counters
        &&& self.regions.wf()
        &&& self.part_offsets.wf()
        &&& self.part_offsets.dense() == ctx.sections.platform.built_in_part_count()
        &&& self.records.wf()
        &&& self.records.dense() == ctx.sections.platform.built_in_part_count()
        &&& self.section_layouts@.len() == ctx.sections.count()
        &&& self.nonalloc_mem_offsets@.len() == ctx.sections.count()
        &&& self.reloc_alloc_mem_offsets@.len() == ctx.sections.count()
        &&& ctx.has_segment_alignments(&self.segment_alignments)
        &&& ctx.has_input_alignments(&self.input_alignments)
    }

    /// The value of `.`.
    pub open spec fn location_value(s: LayoutView, loc: SymbolLoc) -> Option<u64> {
        match loc {
            SymbolLoc::Nowhere => None,
            SymbolLoc::SectionEnd => Some(s.mem_offset),
            SymbolLoc::LocationCounter(index) => Some(s.resolved_lc[index as int].value),
        }
    }

    /// The value of an expression. `from` is the position of the event after the current one.
    pub open spec fn evaluated<'a, 'data>(
        s: LayoutView,
        ctx: &LayoutContext<'a, 'data>,
        expression: Expression<'data>,
        location: Option<u64>,
        from: int,
    ) -> Result<u64, LayoutError<'data>> {
        let next = if crate::expression::mentions_next_section(expression) {
            ctx.next_section_metrics(from)
        } else {
            Some((0u64, 0u64))
        };
        match next {
            None => Err(LayoutError::Overflow),
            Some(next_section) => match crate::expression_eval::value_of(
                expression,
                EnvView {
                    location,
                    regions: s.regions,
                    sections: *ctx.sections,
                    layouts: s.section_layouts,
                    symbols: ctx.symbols@,
                    part_offsets: s.part_offsets,
                    sizeof_headers: ctx.sizeof_headers,
                    next_section,
                },
            ) {
                Ok(value) => Ok(value),
                Err(error) => Err(LayoutError::Expression(error)),
            },
        }
    }

    /// The value of an expression. `from` is the position of the event after the current one.
    pub fn evaluate<'a, 'data>(
        &self,
        ctx: &LayoutContext<'a, 'data>,
        expression: &Expression<'data>,
        location: Option<u64>,
        from: usize,
    ) -> (value: Result<u64, LayoutError<'data>>)
        requires
            ctx.wf(),
            self.wf(ctx),
            from <= ctx.order.events@.len(),
        ensures
            value == LayoutState::evaluated(self.view(), ctx, *expression, location, from as int),
    {
        let next_section: (u64, u64) = if expression.contains_next_section() {
            match ctx.next_allocated_section_metrics(from, &self.input_alignments) {
                Some(metrics) => metrics,
                None => {
                    return Err(LayoutError::Overflow);
                },
            }
        } else {
            (0, 0)
        };
        let env = EvalEnv {
            location,
            regions: &self.regions,
            sections: ctx.sections,
            layouts: &self.section_layouts,
            symbols: ctx.symbols,
            part_offsets: &self.part_offsets,
            sizeof_headers: ctx.sizeof_headers,
            next_section,
        };
        match expression.evaluate(&env) {
            Ok(value) => Ok(value),
            Err(error) => Err(LayoutError::Expression(error)),
        }
    }
}

} // verus!
